use mp3s::images::{ImageData, MusicImages, Thumbnail};

fn bytes(s: &str) -> Vec<u8> {
    s.as_bytes().to_vec()
}

#[test]
fn test_lookup_on_empty_cache() {
    let images = MusicImages::new();
    assert!(images.lookup(&bytes("a.mp3")).is_none());
}

#[test]
fn test_reserve_claims_exactly_once() {
    let mut images = MusicImages::new();
    let path = bytes("a.mp3");

    assert!(images.reserve(&path));
    assert!(!images.reserve(&path));
    assert!(matches!(images.lookup(&path), Some(ImageData::Loading)));

    // A different path is an independent entry.
    assert!(images.reserve(&bytes("b.mp3")));
}

#[test]
fn test_mark_missing_is_terminal() {
    let mut images = MusicImages::new();
    let path = bytes("a.mp3");

    assert!(images.reserve(&path));
    images.mark_missing(&path);
    assert!(matches!(images.lookup(&path), Some(ImageData::Missing)));

    // Once terminal, a reserve never brings the entry back to Loading.
    assert!(!images.reserve(&path));
    assert!(matches!(images.lookup(&path), Some(ImageData::Missing)));
}

#[test]
fn test_mark_ready_overwrites_loading() {
    let mut images = MusicImages::new();
    let path = bytes("a.mp3");

    assert!(images.reserve(&path));
    let thumb = Thumbnail { width: 2, height: 1, pixels: vec![1, 2, 3, 255, 4, 5, 6, 255] };
    images.mark_ready(&path, thumb);

    match images.lookup(&path) {
        Some(ImageData::Ready(t)) => {
            assert_eq!(t.width, 2);
            assert_eq!(t.height, 1);
            assert_eq!(t.pixels, vec![1, 2, 3, 255, 4, 5, 6, 255]);
        },
        other => panic!("expected a ready thumbnail, found {:?}", other.is_some()),
    }

    assert!(!images.reserve(&path));
    assert!(matches!(images.lookup(&path), Some(ImageData::Ready(_))));
}

#[test]
fn test_mark_without_reserve_inserts() {
    let mut images = MusicImages::new();
    let path = bytes("a.mp3");

    images.mark_missing(&path);
    assert!(matches!(images.lookup(&path), Some(ImageData::Missing)));
}
