use cdn_core::cache::{FileCache, FileEntry, ScanEntry};
use cdn_core::select::{category_names, pick_file, select_category, select_from_cache};

fn file(name: &str, size: u64) -> ScanEntry {
    ScanEntry { name: String::from(name), is_dir: false, size }
}

fn dir(name: &str) -> ScanEntry {
    ScanEntry { name: String::from(name), is_dir: true, size: 0 }
}

#[test]
fn category_names_keeps_subdirectories_only() {
    let scan = vec![dir("cats"), file("stray.txt", 9), dir("dogs")];
    assert_eq!(
        category_names(&scan),
        vec![String::from("cats"), String::from("dogs")]
    );
}

#[test]
fn requested_category_must_match_exactly() {
    let cats = vec![String::from("cats"), String::from("dogs")];
    assert_eq!(
        select_category(&cats, Some("cats")),
        Some(String::from("cats"))
    );
    assert_eq!(
        select_category(&cats, Some("dogs")),
        Some(String::from("dogs"))
    );
}

#[test]
fn missing_requested_category_never_falls_back() {
    let cats = vec![String::from("cats"), String::from("dogs")];
    assert_eq!(select_category(&cats, Some("doesNotExist")), None);
    assert_eq!(select_category(&cats, Some("Cats")), None);
}

#[test]
fn no_candidates_yields_nothing() {
    let none: Vec<String> = Vec::new();
    assert_eq!(select_category(&none, None), None);
    assert_eq!(select_category(&none, Some("cats")), None);
}

#[test]
fn random_category_is_one_of_the_candidates() {
    let cats = vec![String::from("cats"), String::from("dogs")];
    for _ in 0..20 {
        let chosen = select_category(&cats, None).unwrap();
        assert!(chosen == "cats" || chosen == "dogs");
    }
}

#[test]
fn picking_from_an_empty_listing_yields_nothing() {
    let files: Vec<FileEntry> = Vec::new();
    assert_eq!(pick_file(&files), None);
}

#[test]
fn picked_file_is_one_of_the_listing() {
    let files = vec![
        FileEntry { name: String::from("a.png"), ext: String::from("png") },
        FileEntry { name: String::from("b.gif"), ext: String::from("gif") },
    ];
    for _ in 0..20 {
        let (name, ext) = pick_file(&files).unwrap();
        assert!(
            (name == "a.png" && ext == "png") || (name == "b.gif" && ext == "gif")
        );
    }
}

#[test]
fn single_eligible_file_is_served_deterministically() {
    // The category holds one real file, one zero-byte file and one
    // subdirectory; only the real file can come back.
    let mut cache = FileCache::new();
    let scan = vec![file("a.PNG", 10), file("b.png", 0), dir("nested")];
    let picked = select_from_cache(&mut cache, "cats", Some(&scan), 100);
    assert_eq!(picked, Some((String::from("a.PNG"), String::from("png"))));
}

#[test]
fn unknown_category_serves_nothing() {
    let mut cache = FileCache::new();
    assert_eq!(select_from_cache(&mut cache, "doesNotExist", None, 100), None);
}

#[test]
fn cached_listing_serves_without_a_new_scan() {
    let mut cache = FileCache::new();
    cache.update_category("cats", &vec![file("a.PNG", 10)], 100);
    let picked = select_from_cache(&mut cache, "cats", None, 200);
    assert_eq!(picked, Some((String::from("a.PNG"), String::from("png"))));
}

#[test]
fn failed_rescan_still_serves_the_stale_listing() {
    let mut cache = FileCache::new();
    cache.update_category("cats", &vec![file("a.PNG", 10)], 100);
    let empty: Vec<ScanEntry> = Vec::new();
    let picked = select_from_cache(&mut cache, "cats", Some(&empty), 900);
    assert_eq!(picked, Some((String::from("a.PNG"), String::from("png"))));
}
