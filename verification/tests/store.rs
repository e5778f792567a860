use std::collections::HashMap;

use cdn_core::store::HashStore;
use cdn_core::token::generate_hash;

#[test]
fn token_is_truncated_digest_in_hex() {
    // sha256("avatar.png1234") begins with the bytes 5e a9 5a 49.
    assert_eq!(generate_hash("avatar.png", 1234), "5ea95a49");
    assert_eq!(generate_hash("/cdn_files/avatars/cats/a.PNG", 7), "cdc0c0d7");
}

#[test]
fn token_format_is_eight_lowercase_hex_chars() {
    let token = generate_hash("/cdn_files/banners/sky/b.jpg", 987654321);
    assert_eq!(token.len(), 8);
    assert!(token.chars().all(|c| c.is_ascii_hexdigit() && !c.is_ascii_uppercase()));
}

#[test]
fn token_depends_on_path_and_salt_alone() {
    let a = generate_hash("some/path", 42);
    let b = generate_hash("some/path", 42);
    assert_eq!(a, b);
}

#[test]
fn resolve_right_after_insert_returns_the_path() {
    let mut store = HashStore::new();
    let token = store.add_mapping(String::from("/cdn_files/avatars/cats/a.PNG"), 1000, 5);
    assert_eq!(
        store.get_real_path(&token, 1000),
        Some(String::from("/cdn_files/avatars/cats/a.PNG"))
    );
}

#[test]
fn resolve_stops_once_ttl_has_passed() {
    let mut store = HashStore::new();
    let token = store.add_mapping(String::from("/cdn_files/avatars/cats/a.PNG"), 1000, 5);
    assert_eq!(
        store.get_real_path(&token, 4599),
        Some(String::from("/cdn_files/avatars/cats/a.PNG"))
    );
    assert_eq!(store.get_real_path(&token, 4600), None);
    assert_eq!(store.get_real_path(&token, 9999), None);
}

#[test]
fn resolve_of_unknown_token_is_absent() {
    let store = HashStore::new();
    assert_eq!(store.get_real_path("deadbeef", 0), None);
}

#[test]
fn expired_entries_are_pruned_by_the_next_insert() {
    let mut store = HashStore::new();
    let first = store.add_mapping(String::from("/a"), 1000, 1);
    // The first entry stays resident while no insertion happens, even
    // after it expired: reads never prune.
    assert_eq!(store.mappings.len(), 1);
    assert_eq!(store.get_real_path(&first, 5000), None);
    assert_eq!(store.mappings.len(), 1);
    // The next insertion sweeps it out.
    let second = store.add_mapping(String::from("/b"), 5000, 2);
    assert_eq!(store.mappings.len(), 1);
    assert_eq!(store.get_real_path(&second, 5000), Some(String::from("/b")));
    assert_eq!(store.get_real_path(&first, 5000), None);
}

#[test]
fn unexpired_entries_survive_an_insert() {
    let mut store = HashStore::new();
    let first = store.add_mapping(String::from("/a"), 1000, 1);
    let second = store.add_mapping(String::from("/b"), 2000, 2);
    assert_eq!(store.mappings.len(), 2);
    assert_eq!(store.get_real_path(&first, 2000), Some(String::from("/a")));
    assert_eq!(store.get_real_path(&second, 2000), Some(String::from("/b")));
}

#[test]
fn colliding_tokens_overwrite_and_resolve_to_the_later_path() {
    // Tokens keep only four digest bytes, so distinct inputs collide
    // after a few hundred thousand tries. Find one colliding pair, then
    // check that the later insertion wins.
    let mut seen: HashMap<String, String> = HashMap::new();
    let mut collision: Option<(String, String, String)> = None;
    for i in 0..400_000u64 {
        let path = format!("/p/{}", i);
        let token = generate_hash(&path, 0);
        if let Some(earlier) = seen.insert(token.clone(), path.clone()) {
            collision = Some((token, earlier, path));
            break;
        }
    }
    let (token, first_path, second_path) =
        collision.expect("no truncated-hash collision found");
    assert_ne!(first_path, second_path);

    let mut store = HashStore::new();
    let t1 = store.add_mapping(first_path.clone(), 1000, 0);
    let t2 = store.add_mapping(second_path.clone(), 1000, 0);
    assert_eq!(t1, token);
    assert_eq!(t2, token);
    // One entry, resolving only to the second path: not an error.
    assert_eq!(store.mappings.len(), 1);
    assert_eq!(store.get_real_path(&token, 1000), Some(second_path));
}
