use wl_binclock::config::{
    cached_image_path, first_cached_entry, image_api_url, pick_cached_image, CacheEntry, Day,
};

fn entry(path: &str, name: &str, is_file: bool) -> CacheEntry {
    CacheEntry { path: path.to_string(), file_name: name.to_string(), is_file }
}

#[test]
fn today_is_index_zero() {
    assert_eq!(Day::Today.to_value(), 0);
}

#[test]
fn api_url_for_today() {
    assert_eq!(
        image_api_url(&Day::Today),
        "https://bing.biturl.top/?resolution=UHD&format=json&index=0&mkt=zh-CN"
    );
}

#[test]
fn cache_path_takes_extension_after_last_dot() {
    assert_eq!(
        cached_image_path("/home/u/.local/share/water-bg", "20240102", "https://www.bing.com/th?id=OHR.X_UHD.jpg"),
        "/home/u/.local/share/water-bg/20240102.jpg"
    );
    assert_eq!(cached_image_path("/d", "20240101", "noext"), "/d/20240101.noext");
    assert_eq!(cached_image_path("/d", "20240101", "trailing."), "/d/20240101.");
    assert_eq!(cached_image_path("", "", ""), "/.");
}

#[test]
fn cached_image_is_first_matching_file() {
    let entries = vec![
        entry("/d/20240101", "20240101", false),
        entry("/d/20231231.jpg", "20231231.jpg", true),
        entry("/d/20240101.jpg", "20240101.jpg", true),
        entry("/d/x20240101.png", "x20240101.png", true),
    ];
    assert_eq!(pick_cached_image(&entries, "20240101"), Some("/d/20240101.jpg".to_string()));
    assert_eq!(pick_cached_image(&entries, "20231231"), Some("/d/20231231.jpg".to_string()));
    assert_eq!(pick_cached_image(&entries, "20250101"), None);
    assert_eq!(pick_cached_image(&[], "20250101"), None);
    assert_eq!(pick_cached_image(&entries, ""), Some("/d/20231231.jpg".to_string()));
}

#[test]
fn first_cached_entry_index() {
    let entries = vec![
        entry("/d/20240101", "20240101", false),
        entry("/d/20240101.jpg", "20240101.jpg", true),
        entry("/d/20240101.png", "20240101.png", true),
    ];
    assert_eq!(first_cached_entry(&entries, "20240101"), Some(1));
    assert_eq!(first_cached_entry(&entries, "2023"), None);
}
