use mp3s::images::{ImageData, MusicImages};
use mp3s::music::MusicFilter;
use mp3s::ui::UiState;
use mp3s::worker::{TagData, UiEvent, Worker, WorkerEvent};

fn bytes(s: &str) -> Vec<u8> {
    s.as_bytes().to_vec()
}

fn nonexistent_filter() -> MusicFilter {
    MusicFilter { root_dir: bytes("nonexistent"), query: Vec::new() }
}

fn is_set_loading(ev: &UiEvent, expected: bool) -> bool {
    matches!(ev, UiEvent::SetLoading(b) if *b == expected)
}

fn is_update_list(ev: &UiEvent) -> bool {
    matches!(ev, UiEvent::UpdateList(_))
}

/// A 1x1 bitmap holding a single pure-red pixel, 24 bits per pixel.
fn red_pixel_bmp() -> Vec<u8> {
    let mut bmp = vec![
        0x42, 0x4D, // BM
        58, 0, 0, 0, // file size
        0, 0, 0, 0, // reserved
        54, 0, 0, 0, // pixel data offset
        40, 0, 0, 0, // header size
        1, 0, 0, 0, // width 1
        1, 0, 0, 0, // height 1
        1, 0, // planes
        24, 0, // bits per pixel
        0, 0, 0, 0, // no compression
        4, 0, 0, 0, // pixel data size
        0, 0, 0, 0, // x pixels per meter
        0, 0, 0, 0, // y pixels per meter
        0, 0, 0, 0, // colors used
        0, 0, 0, 0, // important colors
    ];
    bmp.extend_from_slice(&[0x00, 0x00, 0xFF, 0x00]); // one BGR pixel plus row padding
    bmp
}

#[test]
fn test_filter_change_publishes_four_updates() {
    let mut worker = Worker::new();
    let mut images = MusicImages::new();

    let out = worker.handle_event(
        &mut images,
        WorkerEvent::UpdateFilter(nonexistent_filter()),
    );

    assert_eq!(out.len(), 4);
    assert!(is_set_loading(&out[0], true));
    assert!(is_update_list(&out[1]));
    assert!(is_set_loading(&out[2], false));
    assert!(is_update_list(&out[3]));
    // The root does not exist, so both published lists are the
    // (empty) previous list.
    match (&out[1], &out[3]) {
        (UiEvent::UpdateList(stale), UiEvent::UpdateList(fresh)) => {
            assert!(stale.songs.is_empty());
            assert!(fresh.songs.is_empty());
        },
        _ => panic!("expected two list updates"),
    }
}

#[test]
fn test_two_filter_changes_publish_in_request_order() {
    let mut worker = Worker::new();
    let mut images = MusicImages::new();

    let out = worker.handle_events(
        &mut images,
        vec![
            WorkerEvent::UpdateFilter(nonexistent_filter()),
            WorkerEvent::UpdateFilter(nonexistent_filter()),
        ],
    );

    // The first request's four updates stand complete before any
    // update of the second.
    assert_eq!(out.len(), 8);
    for base in [0, 4] {
        assert!(is_set_loading(&out[base], true));
        assert!(is_update_list(&out[base + 1]));
        assert!(is_set_loading(&out[base + 2], false));
        assert!(is_update_list(&out[base + 3]));
    }
}

#[test]
fn test_load_without_artwork_marks_missing() {
    let mut worker = Worker::new();
    let mut images = MusicImages::new();
    let path = bytes("a.mp3");

    let out = worker.handle_event(
        &mut images,
        WorkerEvent::LoadMusicImage(path.clone(), TagData { pictures: vec![] }),
    );

    assert_eq!(out.len(), 2);
    assert!(is_set_loading(&out[0], true));
    assert!(is_set_loading(&out[1], false));
    assert!(matches!(images.lookup(&path), Some(ImageData::Missing)));
}

#[test]
fn test_duplicate_load_requests_converge_without_second_decode() {
    let mut worker = Worker::new();
    let mut images = MusicImages::new();
    let path = bytes("a.mp3");

    let first = worker.handle_event(
        &mut images,
        WorkerEvent::LoadMusicImage(path.clone(), TagData { pictures: vec![] }),
    );
    assert_eq!(first.len(), 2);
    assert!(matches!(images.lookup(&path), Some(ImageData::Missing)));

    // The second request for the same path is a no-op: nothing is
    // published, the entry keeps its terminal state, and no decode
    // happens even though the duplicate now carries a picture.
    let second = worker.handle_event(
        &mut images,
        WorkerEvent::LoadMusicImage(path.clone(), TagData { pictures: vec![red_pixel_bmp()] }),
    );
    assert_eq!(second.len(), 0);
    assert!(matches!(images.lookup(&path), Some(ImageData::Missing)));
}

#[test]
fn test_load_decodes_first_picture_into_bounded_thumbnail() {
    let mut worker = Worker::new();
    let mut images = MusicImages::new();
    let path = bytes("red.mp3");

    let out = worker.handle_event(
        &mut images,
        WorkerEvent::LoadMusicImage(path.clone(), TagData { pictures: vec![red_pixel_bmp()] }),
    );
    assert_eq!(out.len(), 2);

    match images.lookup(&path) {
        Some(ImageData::Ready(t)) => {
            assert!(1 <= t.width && t.width <= 300);
            assert!(1 <= t.height && t.height <= 300);
            assert_eq!(t.pixels.len(), 4 * t.width as usize * t.height as usize);
            // The source image is a single red pixel, so every RGBA
            // sample of the thumbnail is pure red.
            assert_eq!(&t.pixels[0..4], &[255, 0, 0, 255]);
        },
        _ => panic!("expected the artwork to decode"),
    }
}

#[test]
fn test_undecodable_artwork_marks_missing() {
    let mut worker = Worker::new();
    let mut images = MusicImages::new();
    let path = bytes("bad.mp3");

    let out = worker.handle_event(
        &mut images,
        WorkerEvent::LoadMusicImage(path.clone(), TagData { pictures: vec![vec![0, 1, 2, 3]] }),
    );
    assert_eq!(out.len(), 2);
    assert!(matches!(images.lookup(&path), Some(ImageData::Missing)));
}

#[test]
fn test_ui_applies_updates_in_order() {
    let mut ui = UiState::new();
    let mut worker = Worker::new();
    let mut images = MusicImages::new();

    let out = worker.handle_event(
        &mut images,
        WorkerEvent::UpdateFilter(nonexistent_filter()),
    );
    ui.apply_updates(out);

    // The batch ends with SetLoading(false) followed by the final
    // list, so the busy indicator is off afterwards.
    assert!(!ui.loading);
    assert!(ui.list.songs.is_empty());

    ui.apply_updates(vec![UiEvent::SetLoading(true)]);
    assert!(ui.loading);
    ui.apply_updates(vec![UiEvent::SetLoading(false)]);
    assert!(!ui.loading);
}
