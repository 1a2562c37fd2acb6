//! The background worker: a single consumer of UI requests that
//! rescans the song list and decodes artwork, publishing updates back
//! to the UI in a fixed order. Requests are handled strictly one after
//! another; each filter change yields exactly four updates, and each
//! image request resolves its cache entry to a terminal state at most
//! once.

use vstd::prelude::*;

use crate::images::{
    apply_cache_op, decode_thumbnail, opt_thumbnail_view, terminal_at, thumb_of, CacheOp,
    ImageData, ImageDataView, MusicImages, Thumbnail, ThumbnailView, THUMB_MAX_SIDE,
};
use crate::music::{scan_result, DirEntryInfo, MusicFilter, MusicList};

verus! {

/// Pre-parsed tag metadata handed to the worker with an image request:
/// the embedded pictures of the track, first one used.
pub struct TagData {
    pub pictures: Vec<Vec<u8>>,
}

/// A request from the UI to the worker.
pub enum WorkerEvent {
    /// Rescan with this filter.
    UpdateFilter(MusicFilter),
    /// Decode the artwork of the song at this relative path, from its
    /// already-parsed tag.
    LoadMusicImage(Vec<u8>, TagData),
}

/// An update from the worker to the UI.
pub enum UiEvent {
    /// Replace the rendered song list.
    UpdateList(MusicList),
    /// Show or hide the busy indicator.
    SetLoading(bool),
}

/// The mathematical value of an update.
#[verifier::ext_equal]
pub enum UiEventView {
    UpdateList(Seq<Seq<u8>>),
    SetLoading(bool),
}

impl View for UiEvent {
    type V = UiEventView;

    open spec fn view(&self) -> UiEventView {
        match self {
            UiEvent::UpdateList(l) => UiEventView::UpdateList(l@),
            UiEvent::SetLoading(b) => UiEventView::SetLoading(*b),
        }
    }
}

/// The first embedded picture of a tag, if any.
pub open spec fn first_picture(t: TagData) -> Option<Seq<u8>> {
    if t.pictures@.len() == 0 {
        None
    } else {
        Some(t.pictures@[0]@)
    }
}

/// The thumbnail an image request decodes: the first embedded picture
/// run through the bounded decode, `None` when there is no picture or
/// it does not parse.
pub open spec fn decoded_first(t: TagData) -> Option<ThumbnailView> {
    match first_picture(t) {
        None => None,
        Some(pic) => thumb_of(pic, THUMB_MAX_SIDE),
    }
}

/// The terminal state a decode result is recorded as: `Ready` with
/// the thumbnail, or `Missing`. Never `Loading`.
pub open spec fn outcome_view(r: Option<ThumbnailView>) -> ImageDataView {
    match r {
        Some(tv) => ImageDataView::Ready(tv),
        None => ImageDataView::Missing,
    }
}

/// The terminal state an image request resolves to.
pub open spec fn load_outcome(t: TagData) -> ImageDataView {
    outcome_view(decoded_first(t))
}

/// The cache after the worker handles one image request for `p`: an
/// entry already in a terminal state is left alone (the work was
/// already done), otherwise the entry becomes the request's outcome.
pub open spec fn load_image_map(
    m: Map<Seq<u8>, ImageDataView>,
    p: Seq<u8>,
    t: TagData,
) -> Map<Seq<u8>, ImageDataView> {
    if terminal_at(m, p) {
        m
    } else {
        m.insert(p, load_outcome(t))
    }
}

/// Duplicate image requests converge: handling one request leaves the
/// entry terminal, and handling a second request for the same path —
/// whatever tag it carries — changes nothing, so no second decode is
/// ever performed.
pub proof fn lemma_duplicate_load(
    m: Map<Seq<u8>, ImageDataView>,
    p: Seq<u8>,
    t1: TagData,
    t2: TagData,
)
    ensures
        terminal_at(load_image_map(m, p, t1), p),
        load_image_map(load_image_map(m, p, t1), p, t2) == load_image_map(m, p, t1),
{
    assert(!(load_outcome(t1) is Loading));
}

/// The four updates a filter change publishes, in order: busy on, a
/// list, busy off, a list.
pub open spec fn filter_segment(seg: Seq<UiEvent>) -> bool {
    &&& seg.len() == 4
    &&& seg[0]@ == UiEventView::SetLoading(true)
    &&& seg[1]@ is UpdateList
    &&& seg[2]@ == UiEventView::SetLoading(false)
    &&& seg[3]@ is UpdateList
}

/// What an image request publishes: nothing when it was a no-op, else
/// busy on and busy off.
pub open spec fn load_segment(seg: Seq<UiEvent>) -> bool {
    seg.len() == 0 || (seg.len() == 2 && seg[0]@ == UiEventView::SetLoading(true) && seg[1]@
        == UiEventView::SetLoading(false))
}

/// The updates one request publishes, by request kind.
pub open spec fn event_segment(ev: WorkerEvent, seg: Seq<UiEvent>) -> bool {
    match ev {
        WorkerEvent::UpdateFilter(_) => filter_segment(seg),
        WorkerEvent::LoadMusicImage(_, _) => load_segment(seg),
    }
}

/// `out` is exactly the concatenation, in request order, of one
/// well-formed segment per request: the updates of the first request
/// stand complete before any update of the second, and so on.
pub open spec fn protocol_output(events: Seq<WorkerEvent>, out: Seq<UiEvent>) -> bool
    decreases events.len(),
{
    if events.len() == 0 {
        out.len() == 0
    } else {
        exists|k: int|
            0 <= k <= out.len() && event_segment(events[0], #[trigger] out.take(k))
                && protocol_output(events.skip(1), out.skip(k))
    }
}

/// Extending a protocol-shaped output with one more request's segment
/// keeps it protocol-shaped.
proof fn lemma_protocol_append(
    events: Seq<WorkerEvent>,
    out: Seq<UiEvent>,
    ev: WorkerEvent,
    seg: Seq<UiEvent>,
)
    requires
        protocol_output(events, out),
        event_segment(ev, seg),
    ensures
        protocol_output(events.push(ev), out + seg),
    decreases events.len(),
{
    if events.len() == 0 {
        assert(out.len() == 0);
        let whole = out + seg;
        assert(whole.take(seg.len() as int) =~= seg);
        assert(whole.skip(seg.len() as int) =~= Seq::<UiEvent>::empty());
        assert(events.push(ev).skip(1) =~= events);
        assert(events.push(ev)[0] == ev);
        assert(protocol_output(events.push(ev).skip(1), whole.skip(seg.len() as int)));
        assert(event_segment(events.push(ev)[0], whole.take(seg.len() as int)));
    } else {
        let k0 = choose|k: int|
            0 <= k <= out.len() && event_segment(events[0], #[trigger] out.take(k))
                && protocol_output(events.skip(1), out.skip(k));
        lemma_protocol_append(events.skip(1), out.skip(k0), ev, seg);
        let whole = out + seg;
        assert(events.push(ev).skip(1) =~= events.skip(1).push(ev));
        assert(whole.take(k0) =~= out.take(k0));
        assert(whole.skip(k0) =~= out.skip(k0) + seg);
        assert(events.push(ev)[0] == events[0]);
        assert(event_segment(events.push(ev)[0], whole.take(k0)));
        assert(protocol_output(events.push(ev).skip(1), whole.skip(k0)));
    }
}

/// The worker's own state: the authoritative song list, republished
/// to the UI after every rescan.
pub struct Worker {
    pub list: MusicList,
}

impl Worker {
    /// A worker with an empty song list.
    pub fn new() -> (r: Worker)
        ensures
            r.list@.len() == 0,
    {
        Worker { list: MusicList::default() }
    }

    /// First half of an image request, one critical section on the
    /// shared cache: atomically test for a terminal entry and reserve
    /// `Loading` otherwise. Returns whether this request owns the
    /// decode; an entry already resolved or reserved stays untouched.
    pub fn prepare_load(images: &mut MusicImages, path: &Vec<u8>) -> (proceed: bool)
        requires
            old(images).wf(),
        ensures
            final(images).wf(),
            proceed == !terminal_at(old(images)@, path@),
            !proceed ==> *final(images) == *old(images),
            proceed ==> final(images)@ == apply_cache_op(
                old(images)@,
                CacheOp::Reserve(path@),
            ),
    {
        let done = match images.lookup(path) {
            None => false,
            Some(d) => match d {
                ImageData::Loading => false,
                ImageData::Missing => true,
                ImageData::Ready(_) => true,
            },
        };
        if done {
            return false;
        }
        images.reserve(path);
        true
    }

    /// Decode the first embedded picture of a tag into a bounded
    /// thumbnail. Touches no shared state, so the embedding
    /// application runs it outside the cache lock.
    pub fn decode_picture(tag: &TagData) -> (r: Option<Thumbnail>)
        ensures
            opt_thumbnail_view(r) == decoded_first(*tag),
    {
        if tag.pictures.len() > 0 {
            decode_thumbnail(&tag.pictures[0], THUMB_MAX_SIDE)
        } else {
            None
        }
    }

    /// Second half of an image request, one critical section on the
    /// shared cache: record the terminal outcome of the decode.
    pub fn finish_load(images: &mut MusicImages, path: &Vec<u8>, decoded: Option<Thumbnail>)
        requires
            old(images).wf(),
        ensures
            final(images).wf(),
            final(images)@ == old(images)@.insert(path@, outcome_view(opt_thumbnail_view(decoded))),
    {
        match decoded {
            Some(t) => images.mark_ready(path, t),
            None => images.mark_missing(path),
        }
    }

    /// Handle one request, returning the updates to publish, in order.
    ///
    /// A filter change publishes exactly: busy on, the stale list (so
    /// the UI keeps showing valid data during the scan), busy off, the
    /// fresh list. An image request for an already-resolved path is a
    /// no-op that publishes nothing; otherwise the entry is reserved,
    /// resolved to its terminal state, and bracketed by busy on/off.
    pub fn handle_event(&mut self, images: &mut MusicImages, event: WorkerEvent) -> (out: Vec<
        UiEvent,
    >)
        requires
            old(images).wf(),
        ensures
            final(images).wf(),
            match event {
                WorkerEvent::UpdateFilter(f) => {
                    &&& *final(images) == *old(images)
                    &&& out@.len() == 4
                    &&& out@[0]@ == UiEventView::SetLoading(true)
                    &&& out@[1]@ == UiEventView::UpdateList(old(self).list@)
                    &&& out@[2]@ == UiEventView::SetLoading(false)
                    &&& out@[3]@ == UiEventView::UpdateList(final(self).list@)
                    &&& (final(self).list@ == old(self).list@ || exists|listing: Seq<DirEntryInfo>|
                        scan_result(f, listing, final(self).list@))
                },
                WorkerEvent::LoadMusicImage(path, tag) => {
                    &&& final(self).list == old(self).list
                    &&& final(images)@ == load_image_map(old(images)@, path@, tag)
                    &&& terminal_at(final(images)@, path@)
                    &&& (terminal_at(old(images)@, path@) ==> out@.len() == 0 && *final(images)
                        == *old(images))
                    &&& (!terminal_at(old(images)@, path@) ==> out@.len() == 2 && out@[0]@
                        == UiEventView::SetLoading(true) && out@[1]@ == UiEventView::SetLoading(
                        false,
                    ))
                },
            },
    {
        let mut out: Vec<UiEvent> = Vec::new();
        match event {
            WorkerEvent::UpdateFilter(f) => {
                out.push(UiEvent::SetLoading(true));
                out.push(UiEvent::UpdateList(self.list.duplicate()));
                self.list.update(&f);
                out.push(UiEvent::SetLoading(false));
                out.push(UiEvent::UpdateList(self.list.duplicate()));
                out
            },
            WorkerEvent::LoadMusicImage(path, tag) => {
                let ghost m0 = images@;
                if !Worker::prepare_load(images, &path) {
                    return out;
                }
                out.push(UiEvent::SetLoading(true));
                let decoded = Worker::decode_picture(&tag);
                Worker::finish_load(images, &path, decoded);
                out.push(UiEvent::SetLoading(false));
                proof {
                    assert(images@ =~= m0.insert(path@, load_outcome(tag)));
                }
                out
            },
        }
    }

    /// Handle a batch of requests strictly in arrival order. The
    /// published updates are the requests' segments laid end to end:
    /// for two filter changes, the first one's four updates stand
    /// complete before any update of the second.
    pub fn handle_events(&mut self, images: &mut MusicImages, events: Vec<WorkerEvent>) -> (out:
        Vec<UiEvent>)
        requires
            old(images).wf(),
        ensures
            final(images).wf(),
            protocol_output(events@, out@),
    {
        let ghost all = events@;
        let mut pending = events;
        let mut out: Vec<UiEvent> = Vec::new();
        let ghost mut done: int = 0;
        proof {
            assert(all.take(0) =~= Seq::<WorkerEvent>::empty());
        }
        while pending.len() > 0
            invariant
                images.wf(),
                0 <= done <= all.len(),
                pending@ =~= all.skip(done),
                protocol_output(all.take(done), out@),
            decreases pending.len(),
        {
            let ev = pending.remove(0);
            let ghost gev = ev;
            proof {
                assert(ev == all[done]);
                assert(all.skip(done).remove(0) =~= all.skip(done + 1));
            }
            let mut seg = self.handle_event(images, ev);
            proof {
                match gev {
                    WorkerEvent::UpdateFilter(_) => {
                        assert(filter_segment(seg@));
                    },
                    WorkerEvent::LoadMusicImage(_, _) => {
                        assert(load_segment(seg@));
                    },
                }
                lemma_protocol_append(all.take(done), out@, gev, seg@);
                assert(all.take(done).push(gev) =~= all.take(done + 1));
            }
            out.append(&mut seg);
            proof {
                done = done + 1;
            }
        }
        proof {
            assert(all.take(done) =~= all);
        }
        out
    }
}

} // verus!
