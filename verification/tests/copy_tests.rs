use photo_browser::copy::file_name_of;
use photo_browser::copy::join_path;
use photo_browser::copy::plan_copy;
use photo_browser::copy::CopyError;
use photo_browser::greet;
use photo_browser::names::make_numbered_name;
use photo_browser::names::resolve_collision;

fn strings(names: &[&str]) -> Vec<String> {
    names.iter().map(|n| n.to_string()).collect()
}

#[test]
fn no_collision_keeps_the_name() {
    let existing = strings(&[]);
    let r = resolve_collision(&existing, &"photo.jpg".to_string());
    assert_eq!(r, "photo.jpg");
}

#[test]
fn collision_counts_up_from_one() {
    let existing = strings(&["photo.jpg"]);
    let r = resolve_collision(&existing, &"photo.jpg".to_string());
    assert_eq!(r, "photo_1.jpg");

    let existing = strings(&["photo.jpg", "photo_1.jpg"]);
    let r = resolve_collision(&existing, &"photo.jpg".to_string());
    assert_eq!(r, "photo_2.jpg");

    let existing = strings(&["photo.jpg", "photo_1.jpg", "photo_2.jpg"]);
    let r = resolve_collision(&existing, &"photo.jpg".to_string());
    assert_eq!(r, "photo_3.jpg");
}

#[test]
fn collision_without_extension() {
    let existing = strings(&["notes"]);
    let r = resolve_collision(&existing, &"notes".to_string());
    assert_eq!(r, "notes_1");
}

#[test]
fn collision_takes_first_gap() {
    let existing = strings(&["a.jpg", "a_2.jpg"]);
    let r = resolve_collision(&existing, &"a.jpg".to_string());
    assert_eq!(r, "a_1.jpg");
}

#[test]
fn leading_dot_name_has_no_extension() {
    let existing = strings(&[".config"]);
    let r = resolve_collision(&existing, &".config".to_string());
    assert_eq!(r, ".config_1");
}

#[test]
fn numbered_names_splice_before_extension() {
    assert_eq!(make_numbered_name("a.jpg", 3), "a_3.jpg");
    assert_eq!(make_numbered_name("a.tar.gz", 1), "a.tar_1.gz");
    assert_eq!(make_numbered_name("a.", 2), "a_2.");
    assert_eq!(make_numbered_name("x", 9), "x_9");
}

#[test]
fn file_name_is_the_last_component() {
    assert_eq!(file_name_of("/x/a.jpg"), Some("a.jpg".to_string()));
    assert_eq!(file_name_of("a.jpg"), Some("a.jpg".to_string()));
    assert_eq!(file_name_of("/x/y/z.png"), Some("z.png".to_string()));
    assert_eq!(file_name_of("/x/"), None);
    assert_eq!(file_name_of(""), None);
    assert_eq!(file_name_of("/x/."), None);
    assert_eq!(file_name_of("/x/.."), None);
}

#[test]
fn join_inserts_separator_only_when_needed() {
    assert_eq!(join_path("d", "a.jpg"), "d/a.jpg");
    assert_eq!(join_path("d/", "a.jpg"), "d/a.jpg");
    assert_eq!(join_path("", "a.jpg"), "a.jpg");
}

#[test]
fn plan_copy_without_collision_uses_the_source_name() {
    let existing = strings(&[]);
    let r = plan_copy("/src/photo.jpg", "/dst", true, true, &existing);
    assert_eq!(r.unwrap(), "/dst/photo.jpg");
}

#[test]
fn plan_copy_with_collision_numbers_the_name() {
    let existing = strings(&["photo.jpg"]);
    let r = plan_copy("/src/photo.jpg", "/dst", true, true, &existing);
    assert_eq!(r.unwrap(), "/dst/photo_1.jpg");
}

#[test]
fn plan_copy_rejects_missing_source() {
    let existing = strings(&[]);
    let r = plan_copy("/src/photo.jpg", "/dst", false, true, &existing);
    assert!(matches!(r, Err(CopyError::SourceNotFound)));
    assert_eq!(
        CopyError::SourceNotFound.message(),
        "Source file does not exist"
    );
}

#[test]
fn plan_copy_rejects_missing_target() {
    let existing = strings(&[]);
    let r = plan_copy("/src/photo.jpg", "/dst", true, false, &existing);
    assert!(matches!(r, Err(CopyError::TargetNotFound)));
    assert_eq!(
        CopyError::TargetNotFound.message(),
        "Target directory does not exist"
    );
}

#[test]
fn plan_copy_rejects_unusable_source_path() {
    let existing = strings(&[]);
    let r = plan_copy("/src/", "/dst", true, true, &existing);
    assert!(matches!(r, Err(CopyError::NameExtraction)));
    assert_eq!(
        CopyError::NameExtraction.message(),
        "Could not extract filename from source path"
    );
}

#[test]
fn copy_failure_message_carries_the_cause() {
    assert_eq!(
        CopyError::CopyFailure("disk full".to_string()).message(),
        "Failed to copy file: disk full"
    );
}

#[test]
fn greeting_text() {
    assert_eq!(
        greet("World"),
        "Hello, World! You've been greeted from Rust!"
    );
}
