use mp3s::music::{DirEntryInfo, MusicFilter, MusicList};

fn entry(path: &str, is_file: bool) -> DirEntryInfo {
    DirEntryInfo { path: path.as_bytes().to_vec(), is_file }
}

fn bytes(s: &str) -> Vec<u8> {
    s.as_bytes().to_vec()
}

fn dir1_listing() -> Vec<DirEntryInfo> {
    vec![
        entry("dir1", false),
        entry("dir1/a.mp3", true),
        entry("dir1/b.mp3", true),
        entry("dir1/c.mp3", true),
    ]
}

fn dir2_listing() -> Vec<DirEntryInfo> {
    vec![
        entry("dir2", false),
        entry("dir2/a.mp3", true),
        entry("dir2/b.mp3", true),
        entry("dir2/nested", false),
        entry("dir2/nested/b.mp3", true),
    ]
}

#[test]
fn test_listing_songs() {
    let mut list = MusicList::default();
    let mut filter = MusicFilter { root_dir: bytes("dir1"), query: Vec::new() };

    list.update_from_listing(&filter, Some(dir1_listing()));
    assert_eq!(list.songs, vec![bytes("a.mp3"), bytes("b.mp3"), bytes("c.mp3")]);

    filter.query = bytes("b");

    list.update_from_listing(&filter, Some(dir1_listing()));
    assert_eq!(list.songs, vec![bytes("b.mp3")]);

    // Changing root dir doesn't change the contents after update
    filter.root_dir = bytes("nonexistent");
    list.update(&filter);
    assert_eq!(list.songs, vec![bytes("b.mp3")]);
}

#[test]
fn test_listing_nested_songs() {
    let mut list = MusicList::default();
    let mut filter = MusicFilter { root_dir: bytes("dir2"), query: Vec::new() };

    list.update_from_listing(&filter, Some(dir2_listing()));
    assert_eq!(
        list.songs,
        vec![bytes("a.mp3"), bytes("b.mp3"), bytes("nested/b.mp3")]
    );

    filter.query = bytes("b");

    list.update_from_listing(&filter, Some(dir2_listing()));
    assert_eq!(list.songs, vec![bytes("b.mp3"), bytes("nested/b.mp3")]);
}

#[test]
fn test_query_is_case_insensitive() {
    let mut list = MusicList::default();
    let filter = MusicFilter { root_dir: bytes("dir1"), query: bytes("B.Mp3") };
    let listing = vec![
        entry("dir1", false),
        entry("dir1/b.mp3", true),
        entry("dir1/LOUD B.MP3", true),
        entry("dir1/c.mp3", true),
    ];

    list.update_from_listing(&filter, Some(listing));
    assert_eq!(list.songs, vec![bytes("LOUD B.MP3"), bytes("b.mp3")]);
}

#[test]
fn test_query_matches_directory_part_of_relative_path() {
    let mut list = MusicList::default();
    let filter = MusicFilter { root_dir: bytes("dir2"), query: bytes("nested") };

    list.update_from_listing(&filter, Some(dir2_listing()));
    assert_eq!(list.songs, vec![bytes("nested/b.mp3")]);
}

#[test]
fn test_whitespace_query_returns_everything() {
    let mut list = MusicList::default();
    let filter = MusicFilter { root_dir: bytes("dir1"), query: bytes("  \t ") };

    list.update_from_listing(&filter, Some(dir1_listing()));
    assert_eq!(list.songs, vec![bytes("a.mp3"), bytes("b.mp3"), bytes("c.mp3")]);
}

#[test]
fn test_extension_is_case_insensitive_and_strict() {
    let mut list = MusicList::default();
    let filter = MusicFilter { root_dir: bytes("dir1"), query: Vec::new() };
    let listing = vec![
        entry("dir1", false),
        entry("dir1/y.MP3", true),
        entry("dir1/z.Mp3", true),
        entry("dir1/notes.txt", true),
        entry("dir1/x.mp3x", true),
        entry("dir1/.mp3", true),
        entry("dir1/song.mp3.bak", true),
    ];

    list.update_from_listing(&filter, Some(listing));
    assert_eq!(list.songs, vec![bytes("y.MP3"), bytes("z.Mp3")]);
}

#[test]
fn test_directories_named_like_songs_are_skipped() {
    let mut list = MusicList::default();
    let filter = MusicFilter { root_dir: bytes("dir1"), query: Vec::new() };
    let listing = vec![
        entry("dir1", false),
        entry("dir1/fake.mp3", false),
        entry("dir1/real.mp3", true),
    ];

    list.update_from_listing(&filter, Some(listing));
    assert_eq!(list.songs, vec![bytes("real.mp3")]);
}

#[test]
fn test_entries_outside_root_are_skipped() {
    let mut list = MusicList::default();
    let filter = MusicFilter { root_dir: bytes("dir1"), query: Vec::new() };
    let listing = vec![
        entry("dir1", false),
        entry("dir1/a.mp3", true),
        entry("elsewhere/z.mp3", true),
        entry("dir1x/b.mp3", true),
    ];

    list.update_from_listing(&filter, Some(listing));
    assert_eq!(list.songs, vec![bytes("a.mp3")]);
}

#[test]
fn test_root_with_trailing_slash() {
    let mut list = MusicList::default();
    let filter = MusicFilter { root_dir: bytes("dir1/"), query: Vec::new() };
    let listing = vec![entry("dir1/", false), entry("dir1/a.mp3", true)];

    list.update_from_listing(&filter, Some(listing));
    assert_eq!(list.songs, vec![bytes("a.mp3")]);
}

#[test]
fn test_result_is_sorted_and_duplicate_free() {
    let mut list = MusicList::default();
    let filter = MusicFilter { root_dir: bytes("dir1"), query: Vec::new() };
    let listing = vec![
        entry("dir1/c.mp3", true),
        entry("dir1/a.mp3", true),
        entry("dir1/b.mp3", true),
        entry("dir1/a.mp3", true),
        entry("dir1/c.mp3", true),
    ];

    list.update_from_listing(&filter, Some(listing));
    assert_eq!(list.songs, vec![bytes("a.mp3"), bytes("b.mp3"), bytes("c.mp3")]);
}

#[test]
fn test_nonexistent_root_keeps_previous_list() {
    let mut list = MusicList::default();
    let filter = MusicFilter { root_dir: bytes("dir1"), query: Vec::new() };
    list.update_from_listing(&filter, Some(dir1_listing()));
    let before = list.songs.clone();

    let gone = MusicFilter { root_dir: bytes("nonexistent"), query: Vec::new() };
    list.update(&gone);
    assert_eq!(list.songs, before);

    list.update_from_listing(&gone, None);
    assert_eq!(list.songs, before);
}

#[test]
fn test_duplicate_returns_equal_list() {
    let mut list = MusicList::default();
    let filter = MusicFilter { root_dir: bytes("dir2"), query: Vec::new() };
    list.update_from_listing(&filter, Some(dir2_listing()));

    let copy = list.duplicate();
    assert_eq!(copy.songs, list.songs);
}
