use cdn_core::paths::{
    authorized, build_hashed_url, build_real_path, content_type_for, group_dir_for,
    parse_query_token, split_str, starts_with, token_of_request_path,
};

#[test]
fn split_keeps_empty_segments() {
    assert_eq!(split_str("a&b", '&'), vec!["a", "b"]);
    assert_eq!(split_str("a&&b", '&'), vec!["a", "", "b"]);
    assert_eq!(split_str("", '&'), vec![""]);
    assert_eq!(split_str("&", '&'), vec!["", ""]);
    assert_eq!(split_str("token==x", '='), vec!["token", "", "x"]);
}

#[test]
fn starts_with_compares_prefixes() {
    assert!(starts_with("token=abc", "token="));
    assert!(!starts_with("toke", "token="));
    assert!(!starts_with("Token=abc", "token="));
    assert!(starts_with("anything", ""));
}

#[test]
fn token_parameter_is_extracted_from_the_query() {
    assert_eq!(parse_query_token("token=abc"), Some(String::from("abc")));
    assert_eq!(parse_query_token("x=1&token=abc&y=2"), Some(String::from("abc")));
    assert_eq!(parse_query_token("token="), Some(String::from("")));
    assert_eq!(parse_query_token("token=a=b"), Some(String::from("a")));
    assert_eq!(parse_query_token("token==x"), Some(String::from("")));
    assert_eq!(parse_query_token(""), None);
    assert_eq!(parse_query_token("x=1&y=2"), None);
    // Only a segment that begins with the parameter name counts.
    assert_eq!(parse_query_token("xtoken=abc"), None);
}

#[test]
fn authorization_is_an_exact_secret_match() {
    assert!(authorized("token=s3cr3t", "s3cr3t"));
    assert!(authorized("a=1&token=s3cr3t", "s3cr3t"));
    assert!(!authorized("token=wrong", "s3cr3t"));
    assert!(!authorized("a=1", "s3cr3t"));
    // An empty configured secret still demands the parameter.
    assert!(authorized("token=", ""));
    assert!(!authorized("", ""));
}

#[test]
fn group_directories_are_fixed() {
    assert_eq!(group_dir_for("pfps"), Some(String::from("avatars")));
    assert_eq!(group_dir_for("banners"), Some(String::from("banners")));
    assert_eq!(group_dir_for("avatars"), None);
    assert_eq!(group_dir_for(""), None);
}

#[test]
fn real_and_public_paths_are_assembled_exactly() {
    assert_eq!(
        build_real_path("avatars", "cats", "a.PNG"),
        "/cdn_files/avatars/cats/a.PNG"
    );
    assert_eq!(build_hashed_url("cdc0c0d7", "png"), "/cdn_files/cdc0c0d7.png");
}

#[test]
fn request_path_yields_the_part_before_the_first_dot() {
    assert_eq!(token_of_request_path("cdc0c0d7.png"), "cdc0c0d7");
    assert_eq!(token_of_request_path("cdc0c0d7"), "cdc0c0d7");
    assert_eq!(token_of_request_path("a.b.c"), "a");
    assert_eq!(token_of_request_path(".png"), "");
    assert_eq!(token_of_request_path(""), "");
}

#[test]
fn content_types_cover_the_served_image_kinds() {
    assert_eq!(content_type_for("jpg"), "image/jpeg");
    assert_eq!(content_type_for("jpeg"), "image/jpeg");
    assert_eq!(content_type_for("png"), "image/png");
    assert_eq!(content_type_for("gif"), "image/gif");
    assert_eq!(content_type_for("webp"), "image/webp");
    assert_eq!(content_type_for("svg"), "application/octet-stream");
    assert_eq!(content_type_for("unknown"), "application/octet-stream");
}
