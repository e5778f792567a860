use cdn_core::cache::{extension_of, FileCache, ScanEntry};

fn file(name: &str, size: u64) -> ScanEntry {
    ScanEntry { name: String::from(name), is_dir: false, size }
}

fn dir(name: &str) -> ScanEntry {
    ScanEntry { name: String::from(name), is_dir: true, size: 0 }
}

fn names_of(cache: &FileCache, category: &str) -> Option<Vec<(String, String)>> {
    cache
        .get_category_files(category)
        .map(|files| files.into_iter().map(|f| (f.name, f.ext)).collect())
}

#[test]
fn extension_is_lowercased_suffix_or_unknown() {
    assert_eq!(extension_of("a.PNG"), "png");
    assert_eq!(extension_of("photo.jpeg"), "jpeg");
    assert_eq!(extension_of("archive.tar.GZ"), "gz");
    assert_eq!(extension_of("noext"), "unknown");
    assert_eq!(extension_of(".hidden"), "unknown");
    assert_eq!(extension_of(""), "unknown");
    assert_eq!(extension_of("trailing."), "");
}

#[test]
fn new_cache_has_nothing() {
    let cache = FileCache::new();
    assert_eq!(names_of(&cache, "cats"), None);
}

#[test]
fn directories_and_zero_byte_files_are_excluded() {
    let mut cache = FileCache::new();
    let scan = vec![
        file("a.PNG", 10),
        file("b.png", 0),
        dir("nested"),
        file("c.gif", 3),
    ];
    cache.update_category("cats", &scan, 100);
    assert_eq!(
        names_of(&cache, "cats"),
        Some(vec![
            (String::from("a.PNG"), String::from("png")),
            (String::from("c.gif"), String::from("gif")),
        ])
    );
}

#[test]
fn empty_scan_never_downgrades_a_cached_listing() {
    let mut cache = FileCache::new();
    cache.update_category("cats", &vec![file("a.PNG", 10)], 100);
    // A later scan that sees only ineligible entries changes nothing.
    cache.update_category("cats", &vec![dir("nested"), file("b.png", 0)], 500);
    assert_eq!(
        names_of(&cache, "cats"),
        Some(vec![(String::from("a.PNG"), String::from("png"))])
    );
    // An entirely empty scan changes nothing either.
    cache.update_category("cats", &vec![], 900);
    assert_eq!(
        names_of(&cache, "cats"),
        Some(vec![(String::from("a.PNG"), String::from("png"))])
    );
}

#[test]
fn empty_scan_of_an_unknown_category_stays_absent() {
    let mut cache = FileCache::new();
    cache.update_category("cats", &vec![dir("nested")], 100);
    assert_eq!(names_of(&cache, "cats"), None);
}

#[test]
fn non_empty_scan_replaces_the_cached_listing() {
    let mut cache = FileCache::new();
    cache.update_category("cats", &vec![file("a.PNG", 10)], 100);
    cache.update_category("cats", &vec![file("b.webp", 5)], 500);
    assert_eq!(
        names_of(&cache, "cats"),
        Some(vec![(String::from("b.webp"), String::from("webp"))])
    );
}

#[test]
fn refresh_is_due_after_the_interval_only() {
    let mut cache = FileCache::new();
    assert!(cache.needs_refresh("cats", 0));
    cache.update_category("cats", &vec![file("a.PNG", 10)], 100);
    assert!(!cache.needs_refresh("cats", 100));
    assert!(!cache.needs_refresh("cats", 400));
    assert!(cache.needs_refresh("cats", 401));
}

#[test]
fn categories_are_cached_independently() {
    let mut cache = FileCache::new();
    cache.update_category("cats", &vec![file("a.PNG", 10)], 100);
    cache.update_category("dogs", &vec![file("d.jpg", 4)], 100);
    assert_eq!(
        names_of(&cache, "cats"),
        Some(vec![(String::from("a.PNG"), String::from("png"))])
    );
    assert_eq!(
        names_of(&cache, "dogs"),
        Some(vec![(String::from("d.jpg"), String::from("jpg"))])
    );
}
