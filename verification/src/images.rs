//! The shared image cache: a mapping from song path to artwork state.
//! An entry is `Loading` while a decode is pending and moves to the
//! terminal states `Missing` or `Ready` exactly once; it is never
//! re-derived. The worker is the sole writer, the UI reads, and the UI
//! claims decode work through the atomic check-and-reserve operation.

use vstd::prelude::*;

use crate::bytes::copy_bytes;

verus! {

/// A decoded artwork thumbnail: RGBA pixels, row-major, with both
/// sides bounded by the decode call that produced it.
pub struct Thumbnail {
    pub width: u32,
    pub height: u32,
    pub pixels: Vec<u8>,
}

/// The mathematical value of a thumbnail.
#[verifier::ext_equal]
pub struct ThumbnailView {
    pub width: u32,
    pub height: u32,
    pub pixels: Seq<u8>,
}

impl View for Thumbnail {
    type V = ThumbnailView;

    open spec fn view(&self) -> ThumbnailView {
        ThumbnailView { width: self.width, height: self.height, pixels: self.pixels@ }
    }
}

/// Artwork state for one song: a decode is pending, artwork is absent
/// or undecodable, or a thumbnail is ready.
pub enum ImageData {
    Loading,
    Missing,
    Ready(Thumbnail),
}

/// The mathematical value of an artwork state.
#[verifier::ext_equal]
pub enum ImageDataView {
    Loading,
    Missing,
    Ready(ThumbnailView),
}

impl View for ImageData {
    type V = ImageDataView;

    open spec fn view(&self) -> ImageDataView {
        match self {
            ImageData::Loading => ImageDataView::Loading,
            ImageData::Missing => ImageDataView::Missing,
            ImageData::Ready(t) => ImageDataView::Ready(t@),
        }
    }
}

/// The mapping described by an association list, earlier entries
/// taking precedence.
pub open spec fn cache_map(s: Seq<(Vec<u8>, ImageData)>) -> Map<Seq<u8>, ImageDataView>
    decreases s.len(),
{
    if s.len() == 0 {
        Map::empty()
    } else {
        cache_map(s.skip(1)).insert(s[0].0@, s[0].1@)
    }
}

/// The cache: an owned mapping from song path to artwork state. The
/// embedding application shares it between the UI and the worker under
/// a mutual-exclusion lock, one operation per critical section.
pub struct MusicImages {
    entries: Vec<(Vec<u8>, ImageData)>,
}

impl View for MusicImages {
    type V = Map<Seq<u8>, ImageDataView>;

    closed spec fn view(&self) -> Map<Seq<u8>, ImageDataView> {
        cache_map(self.entries@)
    }
}

/// A key is absent from the mapping when no entry carries it.
proof fn lemma_cache_map_absent(s: Seq<(Vec<u8>, ImageData)>, k: Seq<u8>)
    requires
        forall|i: int| 0 <= i < s.len() ==> (#[trigger] s[i]).0@ != k,
    ensures
        !cache_map(s).contains_key(k),
    decreases s.len(),
{
    if s.len() > 0 {
        assert(s[0].0@ != k);
        lemma_cache_map_absent(s.skip(1), k);
    }
}

/// The first entry carrying a key decides its value.
proof fn lemma_cache_map_found(s: Seq<(Vec<u8>, ImageData)>, i: int)
    requires
        0 <= i < s.len(),
        forall|j: int| 0 <= j < i ==> (#[trigger] s[j]).0@ != s[i].0@,
    ensures
        cache_map(s).contains_key(s[i].0@),
        cache_map(s)[s[i].0@] == s[i].1@,
    decreases i,
{
    if i > 0 {
        assert(s[0].0@ != s[i].0@);
        assert forall|j: int| 0 <= j < i - 1 implies (#[trigger] s.skip(1)[j]).0@ != s.skip(
            1,
        )[i - 1].0@ by {
            assert(s.skip(1)[j] == s[j + 1]);
        }
        lemma_cache_map_found(s.skip(1), i - 1);
        assert(s.skip(1)[i - 1] == s[i]);
    }
}

/// Appending an entry with a fresh key inserts it into the mapping.
proof fn lemma_cache_map_push_fresh(s: Seq<(Vec<u8>, ImageData)>, e: (Vec<u8>, ImageData))
    requires
        forall|i: int| 0 <= i < s.len() ==> (#[trigger] s[i]).0@ != e.0@,
    ensures
        cache_map(s.push(e)) =~= cache_map(s).insert(e.0@, e.1@),
    decreases s.len(),
{
    if s.len() == 0 {
        assert(s.push(e).skip(1) =~= s);
        assert(s.push(e)[0] == e);
        assert(cache_map(s.push(e)) == cache_map(s).insert(e.0@, e.1@));
    } else {
        assert(s.push(e).skip(1) =~= s.skip(1).push(e));
        assert forall|i: int| 0 <= i < s.skip(1).len() implies (#[trigger] s.skip(1)[i]).0@
            != e.0@ by {
            assert(s.skip(1)[i] == s[i + 1]);
        }
        lemma_cache_map_push_fresh(s.skip(1), e);
        assert(cache_map(s.skip(1).push(e)) == cache_map(s.skip(1)).insert(e.0@, e.1@));
        assert(s.push(e)[0] == s[0]);
        assert(cache_map(s.push(e)) == cache_map(s.skip(1)).insert(e.0@, e.1@).insert(
            s[0].0@,
            s[0].1@,
        ));
        assert(cache_map(s) == cache_map(s.skip(1)).insert(s[0].0@, s[0].1@));
        assert(s[0].0@ != e.0@);
    }
}

/// Replacing the first entry that carries a key re-points the mapping
/// at the new value.
proof fn lemma_cache_map_update(s: Seq<(Vec<u8>, ImageData)>, i: int, e: (Vec<u8>, ImageData))
    requires
        0 <= i < s.len(),
        e.0@ == s[i].0@,
        forall|j: int| 0 <= j < i ==> (#[trigger] s[j]).0@ != s[i].0@,
    ensures
        cache_map(s.update(i, e)) =~= cache_map(s).insert(e.0@, e.1@),
    decreases i,
{
    if i == 0 {
        assert(s.update(0, e).skip(1) =~= s.skip(1));
        assert(s.update(0, e)[0] == e);
    } else {
        assert(s.update(i, e).skip(1) =~= s.skip(1).update(i - 1, e));
        assert forall|j: int| 0 <= j < i - 1 implies (#[trigger] s.skip(1)[j]).0@ != s.skip(
            1,
        )[i - 1].0@ by {
            assert(s.skip(1)[j] == s[j + 1]);
        }
        assert(s.skip(1)[i - 1] == s[i]);
        lemma_cache_map_update(s.skip(1), i - 1, e);
        assert(s.update(i, e)[0] == s[0]);
        assert(s[0].0@ != e.0@);
    }
}

/// One write operation on the cache, as a mathematical value.
pub enum CacheOp {
    Reserve(Seq<u8>),
    MarkReady(Seq<u8>, ThumbnailView),
    MarkMissing(Seq<u8>),
}

/// The mapping after one write operation: `Reserve` inserts `Loading`
/// only for an absent key; the two mark operations overwrite.
pub open spec fn apply_cache_op(m: Map<Seq<u8>, ImageDataView>, op: CacheOp) -> Map<
    Seq<u8>,
    ImageDataView,
> {
    match op {
        CacheOp::Reserve(p) => if m.contains_key(p) {
            m
        } else {
            m.insert(p, ImageDataView::Loading)
        },
        CacheOp::MarkReady(p, t) => m.insert(p, ImageDataView::Ready(t)),
        CacheOp::MarkMissing(p) => m.insert(p, ImageDataView::Missing),
    }
}

/// The mapping after a sequence of write operations, applied in order.
pub open spec fn apply_cache_ops(m: Map<Seq<u8>, ImageDataView>, ops: Seq<CacheOp>) -> Map<
    Seq<u8>,
    ImageDataView,
>
    decreases ops.len(),
{
    if ops.len() == 0 {
        m
    } else {
        apply_cache_ops(apply_cache_op(m, ops[0]), ops.skip(1))
    }
}

/// The entry for `p` has reached a terminal state: present and not
/// `Loading`.
pub open spec fn terminal_at(m: Map<Seq<u8>, ImageDataView>, p: Seq<u8>) -> bool {
    m.contains_key(p) && !(m[p] is Loading)
}

/// Cache monotonicity: once an entry is `Missing` or `Ready`, no
/// sequence of cache operations ever returns it to `Loading`.
pub proof fn lemma_cache_monotonic(
    m: Map<Seq<u8>, ImageDataView>,
    ops: Seq<CacheOp>,
    p: Seq<u8>,
)
    requires
        terminal_at(m, p),
    ensures
        terminal_at(apply_cache_ops(m, ops), p),
    decreases ops.len(),
{
    if ops.len() > 0 {
        lemma_cache_monotonic(apply_cache_op(m, ops[0]), ops.skip(1), p);
    }
}

impl MusicImages {
    /// No two entries carry the same path.
    pub closed spec fn wf(&self) -> bool {
        forall|i: int, j: int|
            0 <= i < j < self.entries@.len() ==> (#[trigger] self.entries@[i]).0@ != (
            #[trigger] self.entries@[j]).0@
    }

    /// An empty cache.
    pub fn new() -> (r: MusicImages)
        ensures
            r.wf(),
            r@ == Map::<Seq<u8>, ImageDataView>::empty(),
    {
        MusicImages { entries: Vec::new() }
    }

    /// The position of the entry carrying `path`, if any.
    fn position_of(&self, path: &Vec<u8>) -> (r: Option<usize>)
        ensures
            match r {
                Some(i) => i < self.entries@.len() && self.entries@[i as int].0@ == path@
                    && forall|j: int| 0 <= j < i ==> (#[trigger] self.entries@[j]).0@ != path@,
                None => forall|j: int|
                    0 <= j < self.entries@.len() ==> (#[trigger] self.entries@[j]).0@ != path@,
            },
    {
        let mut i: usize = 0;
        while i < self.entries.len()
            invariant
                i <= self.entries@.len(),
                forall|j: int| 0 <= j < i ==> (#[trigger] self.entries@[j]).0@ != path@,
            decreases self.entries.len() - i,
        {
            if bytes_eq(&self.entries[i].0, path) {
                return Some(i);
            }
            i = i + 1;
        }
        None
    }

    /// Read the state recorded for `path`, if any.
    pub fn lookup(&self, path: &Vec<u8>) -> (r: Option<&ImageData>)
        requires
            self.wf(),
        ensures
            match r {
                Some(d) => self@.contains_key(path@) && self@[path@] == d@,
                None => !self@.contains_key(path@),
            },
    {
        match self.position_of(path) {
            Some(i) => {
                proof {
                    lemma_cache_map_found(self.entries@, i as int);
                }
                Some(&self.entries[i].1)
            },
            None => {
                proof {
                    lemma_cache_map_absent(self.entries@, path@);
                }
                None
            },
        }
    }

    /// Atomic check-and-reserve: record `Loading` for `path` if it is
    /// absent. Returns whether this call claimed the entry — the
    /// caller that receives `true` is the one responsible for
    /// triggering the decode, so two parties never decode one path.
    pub fn reserve(&mut self, path: &Vec<u8>) -> (claimed: bool)
        requires
            old(self).wf(),
        ensures
            final(self).wf(),
            claimed == !old(self)@.contains_key(path@),
            final(self)@ == apply_cache_op(old(self)@, CacheOp::Reserve(path@)),
    {
        match self.position_of(path) {
            Some(i) => {
                proof {
                    lemma_cache_map_found(self.entries@, i as int);
                }
                false
            },
            None => {
                let ghost prev = self.entries@;
                let key = copy_bytes(path);
                let ghost e = (key, ImageData::Loading);
                proof {
                    lemma_cache_map_absent(prev, path@);
                }
                self.entries.push((key, ImageData::Loading));
                proof {
                    assert(self.entries@ =~= prev.push(e));
                    lemma_cache_map_push_fresh(prev, e);
                }
                true
            },
        }
    }

    /// Record the terminal state `state` for `path`, overwriting a
    /// pending `Loading` entry or claiming a fresh one.
    fn mark(&mut self, path: &Vec<u8>, state: ImageData)
        requires
            old(self).wf(),
        ensures
            final(self).wf(),
            final(self)@ == old(self)@.insert(path@, state@),
    {
        let ghost prev = self.entries@;
        match self.position_of(path) {
            Some(i) => {
                let key = copy_bytes(path);
                let ghost e = (key, state);
                self.entries.remove(i);
                self.entries.insert(i, (key, state));
                proof {
                    assert(self.entries@ =~= prev.update(i as int, e));
                    lemma_cache_map_update(prev, i as int, e);
                    assert forall|x: int, y: int|
                        0 <= x < y < self.entries@.len() implies (
                    #[trigger] self.entries@[x]).0@ != (#[trigger] self.entries@[y]).0@ by {
                        assert(prev[x].0@ != prev[y].0@);
                    }
                }
            },
            None => {
                let key = copy_bytes(path);
                let ghost e = (key, state);
                self.entries.push((key, state));
                proof {
                    assert(self.entries@ =~= prev.push(e));
                    lemma_cache_map_push_fresh(prev, e);
                }
            },
        }
    }

    /// Transition `path` to `Ready` with the decoded thumbnail.
    pub fn mark_ready(&mut self, path: &Vec<u8>, thumbnail: Thumbnail)
        requires
            old(self).wf(),
        ensures
            final(self).wf(),
            final(self)@ == apply_cache_op(
                old(self)@,
                CacheOp::MarkReady(path@, thumbnail@),
            ),
    {
        self.mark(path, ImageData::Ready(thumbnail));
    }

    /// Transition `path` to `Missing`: the tag carried no artwork or
    /// the decode failed.
    pub fn mark_missing(&mut self, path: &Vec<u8>)
        requires
            old(self).wf(),
        ensures
            final(self).wf(),
            final(self)@ == apply_cache_op(old(self)@, CacheOp::MarkMissing(path@)),
    {
        self.mark(path, ImageData::Missing);
    }
}

/// The bound on either side of a decoded thumbnail, in pixels.
pub const THUMB_MAX_SIDE: u32 = 300;

/// The view of an optional thumbnail.
pub open spec fn opt_thumbnail_view(r: Option<Thumbnail>) -> Option<ThumbnailView> {
    match r {
        Some(t) => Some(t@),
        None => None,
    }
}

/// What decoding a byte string into a bounded thumbnail yields: the
/// result of the image decoder on those bytes, `None` when they do
/// not parse as an image. A function of the bytes and the bound alone.
pub uninterp spec fn thumb_of(bytes: Seq<u8>, max_side: u32) -> Option<ThumbnailView>;

/// Relies on `image::load_from_memory`, `DynamicImage::thumbnail` and
/// `DynamicImage::to_rgba8`: the decode is a function of the bytes
/// alone; `thumbnail` keeps both sides between 1 and the given bound;
/// the RGBA buffer holds exactly four bytes per pixel. Bytes that do
/// not parse as an image yield `None`, never an abort.
#[verifier::external_body]
pub(crate) fn decode_thumbnail(bytes: &Vec<u8>, max_side: u32) -> (r: Option<Thumbnail>)
    requires
        max_side >= 1,
    ensures
        opt_thumbnail_view(r) == thumb_of(bytes@, max_side),
        r matches Some(t) ==> 1 <= t.width <= max_side && 1 <= t.height <= max_side
            && t.pixels@.len() == 4 * t.width * t.height,
{
    match image::load_from_memory(bytes.as_slice()) {
        Ok(img) => {
            let small = img.thumbnail(max_side, max_side);
            let rgba = small.to_rgba8();
            let width = rgba.width();
            let height = rgba.height();
            Some(Thumbnail { width, height, pixels: rgba.into_raw() })
        },
        Err(_) => None,
    }
}

/// Byte-vector equality, executable form.
fn bytes_eq(a: &Vec<u8>, b: &Vec<u8>) -> (r: bool)
    ensures
        r == (a@ == b@),
{
    if a.len() != b.len() {
        return false;
    }
    let mut i: usize = 0;
    while i < a.len()
        invariant
            a@.len() == b@.len(),
            i <= a@.len(),
            forall|j: int| 0 <= j < i ==> a@[j] == b@[j],
        decreases a.len() - i,
    {
        if a[i] != b[i] {
            return false;
        }
        i = i + 1;
    }
    proof {
        assert(a@ =~= b@);
    }
    true
}

} // verus!
