//! The scanner: a filter describing one scan request, and the song list
//! it produces — every recognized audio file under the root whose
//! relative path matches the query, sorted lexicographically.
//!
//! Paths are byte strings with `/` as the separator; the walk itself is
//! delegated to the filesystem and the result of the walk is filtered,
//! related to the root and sorted by verified code.

use vstd::prelude::*;

use crate::bytes::{
    all_spaces, all_spaces_exec, has_substring, has_substring_exec, lex_lt, lex_lt_exec,
    lower_byte, lower_bytes, strict_sorted, to_lower_byte, to_lower_bytes,
    lemma_lex_lt_irrefl, lemma_lex_lt_total, lemma_lex_lt_trans,
};

verus! {

/// An immutable scan request: the directory to walk and the text query
/// to filter by. Two filters with equal fields are interchangeable.
#[derive(Clone)]
pub struct MusicFilter {
    /// The directory whose tree is scanned, as path text.
    pub root_dir: Vec<u8>,
    /// Case-insensitive substring filter on relative paths; a query of
    /// only whitespace accepts everything.
    pub query: Vec<u8>,
}

impl Default for MusicFilter {
    /// An empty root and an empty query.
    fn default() -> (r: Self)
        ensures
            r.root_dir@.len() == 0,
            r.query@.len() == 0,
    {
        MusicFilter { root_dir: Vec::new(), query: Vec::new() }
    }
}

/// One entry seen while walking a directory tree: its full path text
/// and whether it is a regular file.
pub struct DirEntryInfo {
    pub path: Vec<u8>,
    pub is_file: bool,
}

/// The sequence of views of a sequence of byte vectors.
pub open spec fn songs_view(v: Seq<Vec<u8>>) -> Seq<Seq<u8>> {
    Seq::new(v.len(), |i: int| v[i]@)
}

/// The ordered list of songs produced by a scan: relative paths,
/// strictly sorted in lexicographic byte order.
#[derive(Clone)]
pub struct MusicList {
    pub songs: Vec<Vec<u8>>,
}

impl View for MusicList {
    type V = Seq<Seq<u8>>;

    open spec fn view(&self) -> Seq<Seq<u8>> {
        songs_view(self.songs@)
    }
}

impl Default for MusicList {
    /// The empty list.
    fn default() -> (r: Self)
        ensures
            r@.len() == 0,
    {
        MusicList { songs: Vec::new() }
    }
}

/// The recognized audio extension, lower case: `.mp3`.
pub open spec fn audio_ext() -> Seq<u8> {
    seq![46u8, 109u8, 112u8, 51u8]
}

/// A path names a recognized audio file: it ends in `.mp3` ignoring
/// ASCII case, and the file name has at least one character before the
/// dot (a bare `.mp3` is a hidden file, not an audio file).
pub open spec fn is_audio_path(p: Seq<u8>) -> bool {
    p.len() >= 5 && lower_bytes(p.skip(p.len() - 4)) == audio_ext() && p[p.len() - 5] != 47
}

/// `s` with every leading `/` removed.
pub open spec fn drop_leading_slashes(s: Seq<u8>) -> Seq<u8>
    decreases s.len(),
{
    if s.len() > 0 && s[0] == 47 {
        drop_leading_slashes(s.skip(1))
    } else {
        s
    }
}

/// The path of `p` relative to `root`: defined when `p` lies strictly
/// inside `root` (byte prefix, broken at a `/` boundary), with the
/// separator stripped. A path outside the root has no relative form.
pub open spec fn rel_path_of(root: Seq<u8>, p: Seq<u8>) -> Option<Seq<u8>> {
    if p.len() > root.len() && p.take(root.len() as int) == root && (root.len() == 0 || root[
        root.len() - 1
    ] == 47 || p[root.len() as int] == 47) {
        Some(drop_leading_slashes(p.skip(root.len() as int)))
    } else {
        None
    }
}

/// The query accepts a relative path: the query trims to nothing, or
/// it occurs in the path ignoring ASCII case.
pub open spec fn query_accepts(q: Seq<u8>, rel: Seq<u8>) -> bool {
    all_spaces(q) || has_substring(lower_bytes(rel), lower_bytes(q))
}

/// A walk entry contributes the relative path `rel` under filter `f`:
/// it is a regular file with the audio extension, lies inside the
/// root, and its relative path passes the query.
pub open spec fn entry_matches(f: MusicFilter, e: DirEntryInfo, rel: Seq<u8>) -> bool {
    e.is_file && is_audio_path(e.path@) && rel_path_of(f.root_dir@, e.path@) == Some(rel)
        && query_accepts(f.query@, rel)
}

/// Some entry of the walk contributes `rel`.
pub open spec fn listing_has_match(f: MusicFilter, listing: Seq<DirEntryInfo>, rel: Seq<u8>) -> bool {
    exists|i: int| 0 <= i < listing.len() && entry_matches(f, #[trigger] listing[i], rel)
}

/// `songs` is exactly the scan of `listing` under `f`: strictly sorted,
/// and containing precisely the relative paths that some entry of the
/// walk contributes.
pub open spec fn scan_result(f: MusicFilter, listing: Seq<DirEntryInfo>, songs: Seq<Seq<u8>>) -> bool {
    &&& strict_sorted(songs)
    &&& forall|rel: Seq<u8>| #[trigger] songs.contains(rel) <==> listing_has_match(f, listing, rel)
}

/// A strictly sorted sequence holds no duplicates: no path appears in
/// a scan result twice.
pub proof fn lemma_strict_sorted_no_duplicates(s: Seq<Seq<u8>>)
    requires
        strict_sorted(s),
    ensures
        s.no_duplicates(),
{
    assert forall|i: int, j: int|
        0 <= i < s.len() && 0 <= j < s.len() && i != j implies s[i] != s[j] by {
        if i < j {
            if s[i] == s[j] {
                lemma_lex_lt_irrefl(s[i]);
            }
        } else {
            if s[i] == s[j] {
                lemma_lex_lt_irrefl(s[j]);
            }
        }
    }
}

/// Extension test, executable form.
pub fn has_audio_ext(p: &Vec<u8>) -> (r: bool)
    ensures
        r == is_audio_path(p@),
{
    let n = p.len();
    if n < 5 {
        return false;
    }
    if p[n - 5] == 47 {
        return false;
    }
    let r = p[n - 4] == 46 && to_lower_byte(p[n - 3]) == 109 && to_lower_byte(p[n - 2]) == 112
        && to_lower_byte(p[n - 1]) == 51;
    proof {
        let s = p@.skip(n - 4);
        assert(s.len() == 4);
        assert(s[0] == p@[n - 4] && s[1] == p@[n - 3] && s[2] == p@[n - 2] && s[3] == p@[n - 1]);
        if r {
            assert(lower_bytes(s) =~= audio_ext());
        } else {
            if lower_bytes(s) == audio_ext() {
                assert(lower_byte(s[0]) == 46 && lower_byte(s[1]) == 109 && lower_byte(s[2]) == 112
                    && lower_byte(s[3]) == 51);
            }
        }
    }
    r
}

/// The view of an optional byte vector.
pub open spec fn opt_bytes_view(r: Option<Vec<u8>>) -> Option<Seq<u8>> {
    match r {
        Some(v) => Some(v@),
        None => None,
    }
}

/// Relative-path computation, executable form.
pub fn rel_path(root: &Vec<u8>, p: &Vec<u8>) -> (r: Option<Vec<u8>>)
    ensures
        opt_bytes_view(r) == rel_path_of(root@, p@),
{
    let rl = root.len();
    if p.len() <= rl {
        return None;
    }
    let mut i: usize = 0;
    while i < rl
        invariant
            i <= rl,
            rl == root@.len(),
            rl < p@.len(),
            forall|j: int| 0 <= j < i ==> p@[j] == root@[j],
        decreases rl - i,
    {
        if p[i] != root[i] {
            proof {
                assert(p@.take(rl as int)[i as int] != root@[i as int]);
            }
            return None;
        }
        i = i + 1;
    }
    proof {
        assert(p@.take(rl as int) =~= root@);
    }
    if !(rl == 0 || root[rl - 1] == 47 || p[rl] == 47) {
        return None;
    }
    let mut start: usize = rl;
    while start < p.len() && p[start] == 47
        invariant
            rl <= start <= p@.len(),
            drop_leading_slashes(p@.skip(rl as int)) == drop_leading_slashes(
                p@.skip(start as int),
            ),
        decreases p.len() - start,
    {
        proof {
            assert(p@.skip(start as int).skip(1) =~= p@.skip(start + 1));
        }
        start = start + 1;
    }
    let mut out: Vec<u8> = Vec::new();
    let mut k: usize = start;
    while k < p.len()
        invariant
            start <= k <= p@.len(),
            out@ =~= p@.subrange(start as int, k as int),
        decreases p.len() - k,
    {
        out.push(p[k]);
        proof {
            assert(p@.subrange(start as int, k + 1) =~= p@.subrange(start as int, k as int).push(
                p@[k as int],
            ));
        }
        k = k + 1;
    }
    proof {
        assert(p@.subrange(start as int, p@.len() as int) =~= p@.skip(start as int));
        assert(drop_leading_slashes(p@.skip(start as int)) == p@.skip(start as int));
    }
    Some(out)
}

/// Query test, executable form.
pub fn query_ok(q: &Vec<u8>, rel: &Vec<u8>) -> (r: bool)
    ensures
        r == query_accepts(q@, rel@),
{
    if all_spaces_exec(q) {
        return true;
    }
    let lq = to_lower_bytes(q);
    let lr = to_lower_bytes(rel);
    has_substring_exec(&lr, &lq)
}

/// The first position whose element is not below `item`.
fn lower_bound(songs: &Vec<Vec<u8>>, item: &Vec<u8>) -> (k: usize)
    requires
        strict_sorted(songs_view(songs@)),
    ensures
        k <= songs@.len(),
        forall|j: int| 0 <= j < k ==> lex_lt(#[trigger] songs@[j]@, item@),
        k < songs@.len() ==> !lex_lt(songs@[k as int]@, item@),
{
    let mut k: usize = 0;
    while k < songs.len()
        invariant
            k <= songs@.len(),
            forall|j: int| 0 <= j < k ==> lex_lt(#[trigger] songs@[j]@, item@),
        decreases songs.len() - k,
    {
        if !lex_lt_exec(&songs[k], item) {
            return k;
        }
        k = k + 1;
    }
    k
}

/// Insert `item` into a strictly sorted list, keeping it strictly
/// sorted; an item already present is not inserted twice.
fn insert_sorted(songs: &mut Vec<Vec<u8>>, item: Vec<u8>)
    requires
        strict_sorted(songs_view(old(songs)@)),
    ensures
        strict_sorted(songs_view(final(songs)@)),
        forall|r: Seq<u8>|
            #[trigger] songs_view(final(songs)@).contains(r) <==> (songs_view(
                old(songs)@,
            ).contains(r) || r == item@),
{
    let ghost old_view = songs_view(songs@);
    let k = lower_bound(songs, &item);
    if k < songs.len() {
        if !lex_lt_exec(&item, &songs[k]) {
            // Neither order holds, so the item is already at position k.
            proof {
                lemma_lex_lt_total(item@, songs@[k as int]@);
                assert(songs@[k as int]@ == item@);
                assert(old_view[k as int] == item@);
                assert(old_view.contains(item@));
                assert forall|r: Seq<u8>|
                    #[trigger] songs_view(songs@).contains(r) <==> (old_view.contains(r) || r
                        == item@) by {
                    if r == item@ {
                        assert(songs_view(songs@).contains(r));
                    }
                }
            }
            return ;
        }
    }
    songs.insert(k, item);
    proof {
        let new_view = songs_view(songs@);
        assert(new_view =~= old_view.insert(k as int, item@)) by {
            assert forall|i: int| 0 <= i < new_view.len() implies new_view[i] == old_view.insert(
                k as int,
                item@,
            )[i] by {}
        }
        assert forall|i: int, j: int| 0 <= i < j < new_view.len() implies lex_lt(
            #[trigger] new_view[i],
            #[trigger] new_view[j],
        ) by {
            if i < k && j == k {
                assert(lex_lt(old_view[i], item@));
            } else if i == k && j > k {
                assert(!lex_lt(old_view[k as int], item@));
                if old_view[k as int] == item@ {
                    lemma_lex_lt_irrefl(item@);
                    assert(false);
                } else {
                    lemma_lex_lt_total(item@, old_view[k as int]);
                }
                assert(lex_lt(item@, old_view[k as int]));
                if j > k + 1 {
                    assert(lex_lt(old_view[k as int], old_view[j - 1]));
                    lemma_lex_lt_trans(item@, old_view[k as int], old_view[j - 1]);
                }
            } else if i < k && j > k {
                assert(lex_lt(old_view[i], old_view[j - 1]));
            } else if j < k {
                assert(lex_lt(old_view[i], old_view[j]));
            } else if i > k {
                assert(lex_lt(old_view[i - 1], old_view[j - 1]));
            }
        }
        assert forall|r: Seq<u8>|
            #[trigger] new_view.contains(r) <==> (old_view.contains(r) || r == item@) by {
            if new_view.contains(r) {
                let i = choose|i: int| 0 <= i < new_view.len() && new_view[i] == r;
                if i < k {
                    assert(old_view[i] == r);
                    assert(old_view.contains(r));
                } else if i > k {
                    assert(old_view[i - 1] == r);
                    assert(old_view.contains(r));
                }
            }
            if old_view.contains(r) {
                let i = choose|i: int| 0 <= i < old_view.len() && old_view[i] == r;
                if i < k {
                    assert(new_view[i] == r);
                } else {
                    assert(new_view[i + 1] == r);
                }
                assert(new_view.contains(r));
            }
            if r == item@ {
                assert(new_view[k as int] == r);
                assert(new_view.contains(r));
            }
        }
    }
}

impl MusicList {
    /// An owned copy with the same contents.
    pub fn duplicate(&self) -> (r: MusicList)
        ensures
            r@ == self@,
    {
        let mut songs: Vec<Vec<u8>> = Vec::new();
        let mut i: usize = 0;
        while i < self.songs.len()
            invariant
                i <= self.songs@.len(),
                songs@.len() == i,
                forall|j: int| 0 <= j < i ==> #[trigger] songs@[j]@ == self.songs@[j]@,
            decreases self.songs.len() - i,
        {
            songs.push(crate::bytes::copy_bytes(&self.songs[i]));
            i = i + 1;
        }
        proof {
            assert(songs_view(songs@) =~= songs_view(self.songs@));
        }
        MusicList { songs }
    }

    /// Replace the song list with the scan of `listing` under `filter`;
    /// a listing of `None` (the root was not a directory) leaves the
    /// list exactly as it was.
    pub fn update_from_listing(&mut self, filter: &MusicFilter, listing: Option<Vec<DirEntryInfo>>)
        ensures
            listing is None ==> *final(self) == *old(self),
            listing matches Some(es) ==> scan_result(*filter, es@, final(self)@),
    {
        let es = match listing {
            None => {
                return ;
            },
            Some(es) => es,
        };
        let mut songs: Vec<Vec<u8>> = Vec::new();
        let mut i: usize = 0;
        while i < es.len()
            invariant
                i <= es@.len(),
                strict_sorted(songs_view(songs@)),
                forall|rel: Seq<u8>|
                    #[trigger] songs_view(songs@).contains(rel) <==> listing_has_match(
                        *filter,
                        es@.take(i as int),
                        rel,
                    ),
            decreases es.len() - i,
        {
            let ghost prev = songs_view(songs@);
            let e = &es[i];
            let ghost included: bool;
            let ghost included_rel: Seq<u8>;
            if e.is_file && has_audio_ext(&e.path) {
                match rel_path(&filter.root_dir, &e.path) {
                    Some(rel) => {
                        if query_ok(&filter.query, &rel) {
                            proof {
                                included = true;
                                included_rel = rel@;
                                assert(entry_matches(*filter, es@[i as int], rel@));
                            }
                            insert_sorted(&mut songs, rel);
                        } else {
                            proof {
                                included = false;
                                included_rel = Seq::empty();
                            }
                        }
                    },
                    None => {
                        proof {
                            included = false;
                            included_rel = Seq::empty();
                        }
                    },
                }
            } else {
                proof {
                    included = false;
                    included_rel = Seq::empty();
                }
            }
            proof {
                assert(es@.take(i + 1) =~= es@.take(i as int).push(es@[i as int]));
                if !included {
                    assert(forall|rel: Seq<u8>| !entry_matches(*filter, es@[i as int], rel));
                }
                assert forall|rel: Seq<u8>|
                    #[trigger] songs_view(songs@).contains(rel) <==> listing_has_match(
                        *filter,
                        es@.take(i + 1),
                        rel,
                    ) by {
                    if songs_view(songs@).contains(rel) {
                        if included && rel == included_rel {
                            assert(entry_matches(*filter, es@.take(i + 1)[i as int], rel));
                        } else {
                            assert(prev.contains(rel));
                            let j = choose|j: int|
                                0 <= j < i && entry_matches(
                                    *filter,
                                    #[trigger] es@.take(i as int)[j],
                                    rel,
                                );
                            assert(entry_matches(*filter, es@.take(i + 1)[j], rel));
                        }
                    }
                    if listing_has_match(*filter, es@.take(i + 1), rel) {
                        let j = choose|j: int|
                            0 <= j < i + 1 && entry_matches(
                                *filter,
                                #[trigger] es@.take(i + 1)[j],
                                rel,
                            );
                        if j < i {
                            assert(entry_matches(*filter, es@.take(i as int)[j], rel));
                            assert(prev.contains(rel));
                        } else {
                            assert(entry_matches(*filter, es@[i as int], rel));
                            assert(included && rel == included_rel);
                        }
                        assert(songs_view(songs@).contains(rel));
                    }
                }
            }
            i = i + 1;
        }
        proof {
            assert(es@.take(es@.len() as int) =~= es@);
        }
        self.songs = songs;
    }

    /// Rescan the filesystem under `filter.root_dir`. When the root is
    /// not a directory the list is left unchanged; otherwise the list
    /// becomes the scan of whatever the walk returned: strictly
    /// sorted, duplicate-free, filtered by extension and query.
    pub fn update(&mut self, filter: &MusicFilter)
        ensures
            final(self)@ == old(self)@ || exists|listing: Seq<DirEntryInfo>|
                scan_result(*filter, listing, final(self)@),
            strict_sorted(old(self)@) ==> strict_sorted(final(self)@),
    {
        let listing: Option<Vec<DirEntryInfo>> = if path_is_dir(&filter.root_dir) {
            Some(walk_dir_entries(&filter.root_dir))
        } else {
            None
        };
        let ghost glisting = listing;
        self.update_from_listing(filter, listing);
        proof {
            match glisting {
                Some(es) => {
                    assert(scan_result(*filter, es@, self@));
                },
                None => {},
            }
        }
    }
}

/// Relies on `std::path::Path::is_dir`: whether the path text names an
/// existing directory on disk at the moment of the call.
#[verifier::external_body]
fn path_is_dir(path: &Vec<u8>) -> bool {
    std::path::Path::new(String::from_utf8_lossy(path).as_ref()).is_dir()
}

/// Relies on `walkdir::WalkDir`: one entry for everything reachable
/// under the root (the root itself included), each reported with its
/// path text and whether it is a regular file. Entries that cannot be
/// read are skipped, never aborting the walk.
#[verifier::external_body]
fn walk_dir_entries(root: &Vec<u8>) -> Vec<DirEntryInfo> {
    let root_text = String::from_utf8_lossy(root).into_owned();
    let mut out = Vec::new();
    for entry in walkdir::WalkDir::new(&root_text) {
        if let Ok(e) = entry {
            let path = e.path().to_string_lossy().into_owned().into_bytes();
            let is_file = e.file_type().is_file();
            out.push(DirEntryInfo { path, is_file });
        }
    }
    out
}

} // verus!
