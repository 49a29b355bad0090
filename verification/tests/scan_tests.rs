use photo_browser::scan::check_scan_path;
use photo_browser::scan::is_photo_file;
use photo_browser::scan::photos_from_entries;
use photo_browser::scan::PhotoInfo;
use photo_browser::scan::ScanError;

fn entry(name: &str, path: &str, size: u64) -> PhotoInfo {
    PhotoInfo { name: name.to_string(), path: path.to_string(), size }
}

#[test]
fn filter_keeps_allowed_and_drops_rest() {
    let entries = vec![
        entry("a.jpg", "/pics/a.jpg", 100),
        entry("b.txt", "/pics/b.txt", 5),
        entry("C.PNG", "/pics/C.PNG", 42),
    ];
    let photos = photos_from_entries(&entries);
    assert_eq!(photos.len(), 2);
    assert_eq!(photos[0].name, "a.jpg");
    assert_eq!(photos[0].path, "/pics/a.jpg");
    assert_eq!(photos[0].size, 100);
    assert_eq!(photos[1].name, "C.PNG");
    assert_eq!(photos[1].path, "/pics/C.PNG");
    assert_eq!(photos[1].size, 42);
}

#[test]
fn filter_of_empty_listing_is_empty() {
    let entries: Vec<PhotoInfo> = Vec::new();
    let photos = photos_from_entries(&entries);
    assert_eq!(photos.len(), 0);
}

#[test]
fn every_allowed_extension_is_accepted() {
    for name in [
        "x.jpg", "x.jpeg", "x.png", "x.gif", "x.bmp", "x.tiff", "x.tif", "x.webp",
    ] {
        assert!(is_photo_file(name), "{} should be accepted", name);
    }
}

#[test]
fn extension_match_ignores_ascii_case() {
    for name in ["x.JPG", "x.Jpeg", "x.PnG", "x.GIF", "x.WEBP", "x.TiFf"] {
        assert!(is_photo_file(name), "{} should be accepted", name);
    }
}

#[test]
fn non_photo_names_are_rejected() {
    for name in ["b.txt", "noext", ".hidden", "a.", "a.jpgx", "a.jp", "", "jpg"] {
        assert!(!is_photo_file(name), "{} should be rejected", name);
    }
}

#[test]
fn scan_path_must_exist_and_be_directory() {
    assert!(check_scan_path(true, true).is_ok());
    assert!(check_scan_path(false, false).is_err());
    assert!(check_scan_path(true, false).is_err());
    assert!(check_scan_path(false, true).is_err());
}

#[test]
fn scan_error_messages() {
    assert_eq!(ScanError::InvalidPath.message(), "Invalid directory path");
    assert_eq!(
        ScanError::ReadFailure("boom".to_string()).message(),
        "Failed to read directory: boom"
    );
}

#[test]
fn filter_keeps_listing_order() {
    let entries = vec![
        entry("z.png", "/p/z.png", 1),
        entry("m.gif", "/p/m.gif", 2),
        entry("a.bmp", "/p/a.bmp", 3),
    ];
    let photos = photos_from_entries(&entries);
    assert_eq!(photos.len(), 3);
    assert_eq!(photos[0].name, "z.png");
    assert_eq!(photos[1].name, "m.gif");
    assert_eq!(photos[2].name, "a.bmp");
}
