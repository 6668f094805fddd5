use foton::{Entry, Library, Media, MediaType};

fn entry(path: &str) -> Entry {
    Entry { path: path.to_string(), is_dir: false }
}

fn dir(path: &str) -> Entry {
    Entry { path: path.to_string(), is_dir: true }
}

#[test]
fn supported_extensions_per_type() {
    assert_eq!(MediaType::Photo.supported_extensions(), vec!["jpg", "jpeg", "png"]);
    assert_eq!(MediaType::Animation.supported_extensions(), vec!["gif"]);
    assert_eq!(MediaType::Video.supported_extensions(), vec!["mp4"]);
}

#[test]
fn photo_extensions_in_any_case() {
    for ext in ["jpg", "JPG", "Jpg", "jpeg", "JPEG", "jPeG", "png", "PNG", "Png"] {
        assert_eq!(MediaType::classify(ext), Some(MediaType::Photo), "{}", ext);
    }
}

#[test]
fn other_known_extensions() {
    assert_eq!(MediaType::classify("gif"), Some(MediaType::Animation));
    assert_eq!(MediaType::classify("GIF"), Some(MediaType::Animation));
    assert_eq!(MediaType::classify("mp4"), Some(MediaType::Video));
    assert_eq!(MediaType::classify("Mp4"), Some(MediaType::Video));
}

#[test]
fn unknown_extensions_classify_as_none() {
    for ext in ["", "txt", "jpgx", "jp", "mov", "tiff", "jpg ", "ﬁ"] {
        assert_eq!(MediaType::classify(ext), None, "{}", ext);
    }
}

#[test]
fn labels() {
    assert_eq!(MediaType::Photo.label(), "PHOTO");
    assert_eq!(MediaType::Animation.label(), "ANIMATION");
    assert_eq!(MediaType::Video.label(), "VIDEO");
}

#[test]
fn media_from_path_uses_the_extension() {
    let m = Media::from_path("lib/2021/IMG_1.JPG".to_string()).unwrap();
    assert_eq!(m.type_(), MediaType::Photo);
    assert_eq!(m.path(), "lib/2021/IMG_1.JPG");
    let v = Media::from_path("clip.final.mp4".to_string()).unwrap();
    assert_eq!(v.type_(), MediaType::Video);
    let a = Media::from_path("a/..gif".to_string()).unwrap();
    assert_eq!(a.type_(), MediaType::Animation);
}

#[test]
fn media_from_path_without_known_extension() {
    assert!(Media::from_path("lib/.jpg".to_string()).is_none());
    assert!(Media::from_path("lib/jpg".to_string()).is_none());
    assert!(Media::from_path("lib/notes.txt".to_string()).is_none());
    assert!(Media::from_path("lib/photo.".to_string()).is_none());
    assert!(Media::from_path("".to_string()).is_none());
    assert!(Media::from_path("/".to_string()).is_none());
    assert!(Media::from_path("a/b.jpg/..".to_string()).is_none());
}

#[test]
fn trailing_separator_is_ignored() {
    let m = Media::from_path("a/b.png/".to_string()).unwrap();
    assert_eq!(m.type_(), MediaType::Photo);
}

#[test]
fn unknown_extensions_excluded_from_listings() {
    let lib = Library::new("lib".to_string());
    let found = vec![
        entry("lib/a.jpg"),
        entry("lib/b.txt"),
        entry("lib/c.gif"),
        entry("lib/README"),
        entry("lib/d.MP4"),
    ];
    let all: Vec<String> = lib.iter_all(&found).iter().map(|m| m.path().to_string()).collect();
    assert_eq!(all, vec!["lib/a.jpg", "lib/c.gif", "lib/d.MP4"]);
    for t in [MediaType::Photo, MediaType::Animation, MediaType::Video] {
        for m in lib.iter_type(t, &found) {
            assert_ne!(m.path(), "lib/b.txt");
            assert_ne!(m.path(), "lib/README");
            assert_eq!(m.type_(), t);
        }
    }
}

#[test]
fn listing_filtered_by_type() {
    let lib = Library::with_paths(vec!["x".to_string(), "y".to_string()]);
    let found = vec![entry("x/a.jpg"), entry("x/b.gif"), entry("y/c.png"), entry("y/d.mp4")];
    let photos: Vec<String> =
        lib.iter_type(MediaType::Photo, &found).iter().map(|m| m.path().to_string()).collect();
    assert_eq!(photos, vec!["x/a.jpg", "y/c.png"]);
    let videos = lib.iter(Some(MediaType::Video), &found);
    assert_eq!(videos.len(), 1);
    assert_eq!(videos[0].path(), "y/d.mp4");
    assert_eq!(lib.iter(None, &found).len(), 4);
}

#[test]
fn directories_are_not_listed() {
    let lib = Library::new("lib".to_string());
    let found = vec![dir("lib"), dir("lib/album.jpg"), entry("lib/album.jpg/x.png")];
    let all = lib.iter_all(&found);
    assert_eq!(all.len(), 1);
    assert_eq!(all[0].path(), "lib/album.jpg/x.png");
}

#[test]
fn root_without_matching_files_lists_nothing() {
    let lib = Library::new("empty".to_string());
    let none: Vec<Entry> = Vec::new();
    assert!(lib.iter_all(&none).is_empty());
    let found = vec![dir("empty"), entry("empty/notes.txt"), entry("empty/.hidden")];
    assert!(lib.iter_all(&found).is_empty());
    assert!(lib.iter(Some(MediaType::Photo), &found).is_empty());
}

#[test]
fn repeated_roots_are_not_deduplicated() {
    let lib = Library::with_paths(vec!["r".to_string(), "r".to_string()]);
    assert_eq!(lib.paths().len(), 2);
    let found = vec![entry("r/a.jpg"), entry("r/a.jpg")];
    assert_eq!(lib.iter_all(&found).len(), 2);
}
