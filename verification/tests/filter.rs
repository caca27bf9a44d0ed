use media_state::paths::extension_of;
use media_state::paths::is_accepted_path;
use media_state::paths::parent_of;

#[test]
fn accepts_every_allowed_extension() {
    assert!(is_accepted_path("a.jpg"));
    assert!(is_accepted_path("a.jpeg"));
    assert!(is_accepted_path("a.png"));
    assert!(is_accepted_path("a.webp"));
    assert!(is_accepted_path("a.gif"));
    assert!(is_accepted_path("a.avif"));
    assert!(is_accepted_path("a.webm"));
    assert!(is_accepted_path("a.mp4"));
    assert!(is_accepted_path("a.mkv"));
    assert!(is_accepted_path("/photos/img5.png"));
}

#[test]
fn rejects_unknown_extensions() {
    assert!(!is_accepted_path("notes.txt"));
    assert!(!is_accepted_path("movie.avi"));
    assert!(!is_accepted_path("a.jpg.bak"));
}

#[test]
fn extension_comparison_is_case_sensitive() {
    assert!(!is_accepted_path("img2.JPG"));
    assert!(!is_accepted_path("clip.Mp4"));
    assert!(!is_accepted_path("pic.PNG"));
}

#[test]
fn rejects_paths_without_an_extension() {
    assert!(!is_accepted_path("noext"));
    assert!(!is_accepted_path(""));
    assert!(!is_accepted_path("/photos/"));
    assert!(!is_accepted_path(".gitignore"));
    assert!(!is_accepted_path("a."));
}

#[test]
fn extension_is_taken_from_the_file_name_only() {
    assert!(!is_accepted_path("dir.jpg/plain"));
    assert_eq!(extension_of("dir.d/plain"), None);
}

#[test]
fn extension_examples() {
    assert_eq!(extension_of("archive.tar.gz").as_deref(), Some("gz"));
    assert_eq!(extension_of("/photos/img5.png").as_deref(), Some("png"));
    assert_eq!(extension_of(".gitignore"), None);
    assert_eq!(extension_of("a.").as_deref(), Some(""));
    assert_eq!(extension_of(".a.jpg").as_deref(), Some("jpg"));
}

#[test]
fn parent_examples() {
    assert_eq!(parent_of("/photos/img5.png").as_deref(), Some("/photos"));
    assert_eq!(parent_of("/x.png").as_deref(), Some("/"));
    assert_eq!(parent_of("a/b/c").as_deref(), Some("a/b"));
}

#[test]
fn paths_without_a_parent() {
    assert_eq!(parent_of("rel.png"), None);
    assert_eq!(parent_of("/"), None);
    assert_eq!(parent_of(""), None);
    assert_eq!(parent_of("noparent"), None);
}
