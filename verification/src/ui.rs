//! The UI's view of the worker's output: the rendered song list and
//! the busy indicator. Once per render pass the UI drains every
//! pending update and applies them in publication order before
//! drawing.

use vstd::prelude::*;

use crate::worker::UiEvent;

verus! {

/// The UI state that worker updates drive.
pub struct UiState {
    pub list: crate::music::MusicList,
    pub loading: bool,
}

/// The mathematical value of the UI state.
#[verifier::ext_equal]
pub struct UiStateView {
    pub list: Seq<Seq<u8>>,
    pub loading: bool,
}

impl View for UiState {
    type V = UiStateView;

    open spec fn view(&self) -> UiStateView {
        UiStateView { list: self.list@, loading: self.loading }
    }
}

/// The state after one update is applied: a published list replaces
/// the rendered one, a busy flag replaces the indicator.
pub open spec fn apply_update_spec(s: UiStateView, ev: UiEvent) -> UiStateView {
    match ev {
        UiEvent::UpdateList(l) => UiStateView { list: l@, loading: s.loading },
        UiEvent::SetLoading(b) => UiStateView { list: s.list, loading: b },
    }
}

/// The state after a batch of updates is applied in order.
pub open spec fn apply_updates_spec(s: UiStateView, evs: Seq<UiEvent>) -> UiStateView
    decreases evs.len(),
{
    if evs.len() == 0 {
        s
    } else {
        apply_updates_spec(apply_update_spec(s, evs[0]), evs.skip(1))
    }
}

impl UiState {
    /// A UI showing an empty list and no busy indicator.
    pub fn new() -> (r: UiState)
        ensures
            r@.list.len() == 0,
            !r@.loading,
    {
        UiState { list: crate::music::MusicList::default(), loading: false }
    }

    /// Apply one pending update.
    pub fn apply_update(&mut self, ev: UiEvent)
        ensures
            final(self)@ == apply_update_spec(old(self)@, ev),
    {
        match ev {
            UiEvent::UpdateList(l) => {
                self.list = l;
            },
            UiEvent::SetLoading(b) => {
                self.loading = b;
            },
        }
    }

    /// Apply every pending update, in publication order.
    pub fn apply_updates(&mut self, evs: Vec<UiEvent>)
        ensures
            final(self)@ == apply_updates_spec(old(self)@, evs@),
    {
        let ghost all = evs@;
        let ghost s0 = self@;
        let mut pending = evs;
        let ghost mut done: int = 0;
        proof {
            assert(all.take(0) =~= Seq::<UiEvent>::empty());
        }
        while pending.len() > 0
            invariant
                0 <= done <= all.len(),
                pending@ =~= all.skip(done),
                self@ == apply_updates_spec(s0, all.take(done)),
            decreases pending.len(),
        {
            let ev = pending.remove(0);
            let ghost gev = ev;
            proof {
                assert(ev == all[done]);
                assert(all.skip(done).remove(0) =~= all.skip(done + 1));
            }
            self.apply_update(ev);
            proof {
                lemma_apply_updates_snoc(s0, all.take(done), gev);
                assert(all.take(done).push(gev) =~= all.take(done + 1));
                done = done + 1;
            }
        }
        proof {
            assert(all.take(done) =~= all);
        }
    }
}

/// Applying one more update after a batch is the batch extended by
/// that update.
proof fn lemma_apply_updates_snoc(s: UiStateView, evs: Seq<UiEvent>, ev: UiEvent)
    ensures
        apply_updates_spec(s, evs.push(ev)) == apply_update_spec(apply_updates_spec(s, evs), ev),
    decreases evs.len(),
{
    if evs.len() == 0 {
        assert(evs.push(ev).skip(1) =~= evs);
        assert(evs.push(ev)[0] == ev);
        assert(apply_updates_spec(s, evs.push(ev)) == apply_updates_spec(
            apply_update_spec(s, ev),
            evs,
        ));
        assert(apply_updates_spec(apply_update_spec(s, ev), evs) == apply_update_spec(s, ev));
    } else {
        assert(evs.push(ev).skip(1) =~= evs.skip(1).push(ev));
        lemma_apply_updates_snoc(apply_update_spec(s, evs[0]), evs.skip(1), ev);
        assert(evs.push(ev)[0] == evs[0]);
        assert(apply_updates_spec(s, evs.push(ev)) == apply_updates_spec(
            apply_update_spec(s, evs[0]),
            evs.skip(1).push(ev),
        ));
        assert(apply_updates_spec(s, evs) == apply_updates_spec(
            apply_update_spec(s, evs[0]),
            evs.skip(1),
        ));
    }
}

} // verus!
