use media_state::paths::parent_of;
use media_state::scanner::begin_scan;
use media_state::scanner::default_file;
use media_state::scanner::filter_entries;
use media_state::scanner::target_path;
use media_state::state::AppState;
use media_state::state::StateStore;
use media_state::state::StateUpdate;

fn folder_paths(s: &AppState) -> Vec<String> {
    s.files.folder.iter().map(|f| f.path.clone()).collect()
}

fn strings(items: &[&str]) -> Vec<String> {
    items.iter().map(|s| s.to_string()).collect()
}

#[test]
fn default_file_depends_on_the_build() {
    assert_eq!(
        default_file(true).as_deref(),
        Some("D:\\Images\\test.jpg")
    );
    assert_eq!(default_file(false), None);
}

#[test]
fn target_is_the_first_positional_argument() {
    let args = strings(&["prog", "/photos/img5.png", "ignored"]);
    assert_eq!(target_path(&args, false).as_deref(), Some("/photos/img5.png"));
    assert_eq!(target_path(&args, true).as_deref(), Some("/photos/img5.png"));
}

#[test]
fn missing_argument_falls_back_only_in_development() {
    let args = strings(&["prog"]);
    assert_eq!(target_path(&args, false), None);
    assert_eq!(target_path(&args, true).as_deref(), Some("D:\\Images\\test.jpg"));
}

#[test]
fn filter_keeps_listing_order_and_duplicates() {
    let entries = strings(&["b.png", "a.png", "a.png", "notes.txt", "c.webm"]);
    let kept: Vec<String> = filter_entries(&entries).into_iter().map(|f| f.path).collect();
    assert_eq!(kept, strings(&["b.png", "a.png", "a.png", "c.webm"]));
}

#[test]
fn full_scan_of_a_photo_directory() {
    let mut store = StateStore::new();
    let args = strings(&["prog", "/photos/img5.png"]);
    let target = begin_scan(&mut store, args, false);
    assert_eq!(target.as_deref(), Some("/photos/img5.png"));

    let after_open = store.snapshot();
    assert_eq!(after_open.args, strings(&["prog", "/photos/img5.png"]));
    assert_eq!(
        after_open.files.opened.map(|f| f.path),
        Some("/photos/img5.png".to_string())
    );
    assert!(after_open.files.folder.is_empty());

    let target = target.unwrap();
    let directory = parent_of(&target);
    assert_eq!(directory.as_deref(), Some("/photos"));

    let listing = strings(&[
        "/photos/img5.png",
        "/photos/img1.png",
        "/photos/notes.txt",
        "/photos/img2.JPG",
    ]);
    let files = filter_entries(&listing);
    store.apply(StateUpdate::ExtendFiles(files));

    let done = store.snapshot();
    assert_eq!(
        folder_paths(&done),
        strings(&["/photos/img5.png", "/photos/img1.png"])
    );
}

#[test]
fn production_build_without_argument_stops_after_the_arguments() {
    let mut store = StateStore::new();
    let target = begin_scan(&mut store, strings(&["prog"]), false);
    assert_eq!(target, None);
    let snap = store.snapshot();
    assert_eq!(snap.args, strings(&["prog"]));
    assert!(snap.files.opened.is_none());
    assert!(snap.files.folder.is_empty());
}

#[test]
fn target_without_a_parent_stops_after_the_opened_file() {
    let mut store = StateStore::new();
    let target = begin_scan(&mut store, strings(&["prog", "noparent.png"]), false);
    assert_eq!(target.as_deref(), Some("noparent.png"));
    assert_eq!(parent_of("noparent.png"), None);
    let snap = store.snapshot();
    assert_eq!(
        snap.files.opened.map(|f| f.path),
        Some("noparent.png".to_string())
    );
    assert!(snap.files.folder.is_empty());
}

#[test]
fn unlistable_directory_leaves_siblings_empty() {
    let mut store = StateStore::new();
    let target = begin_scan(&mut store, strings(&["prog", "/gone/img.png"]), false);
    assert_eq!(target.as_deref(), Some("/gone/img.png"));
    assert_eq!(parent_of("/gone/img.png").as_deref(), Some("/gone"));
    let snap = store.snapshot();
    assert_eq!(
        snap.files.opened.map(|f| f.path),
        Some("/gone/img.png".to_string())
    );
    assert!(snap.files.folder.is_empty());
}
