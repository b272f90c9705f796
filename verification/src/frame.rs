//! One frame of the core: the editor handles the frame's signals, then the
//! simulation advances if a tick is due, then deletions are applied and
//! the consistency sweep runs. The three never overlap.

use crate::resources::{interval, FrameRates, Tick, TickProgress, UIState, UiSignals, FPS_WINDOW};
use crate::store::{lemma_follows_transitive, GraphStore, StoreView};
use crate::systems::cleanup_sys::{consistent, run_cleanup_systems, swept};
use crate::systems::simulation_systems::{due, run_frame, ticked};
use crate::ui::mouse_click::{handle_signals, signals_run};
use crate::wiring::{lemma_settling_keeps_wiring, well_wired};
use vstd::prelude::*;

verus! {

/// The store at the end of a frame that the editor left as `v`: ticked if
/// a tick is due, then rid of what was queued for deletion and of what
/// dangles.
pub open spec fn settled(v: StoreView, progress: Option<TickProgress>) -> StoreView {
    swept(
        (if due(progress) {
            ticked(v)
        } else {
            v
        }).purged(),
    )
}

/// Runs the core for the frame counted by `frame`, on which the display's
/// rate was measured as `fps`, and counts the frame. Returns how far the
/// frame is into the simulation interval, for whoever draws it.
pub fn advance_frame(
    store: &mut GraphStore,
    state: &mut UIState,
    signals: &mut UiSignals,
    rates: &mut FrameRates,
    frame: &mut Tick,
    fps: u32,
) -> (progress: Option<TickProgress>)
    requires
        old(store).wf(),
        old(rates).wf(),
        old(frame).0 < usize::MAX,
    ensures
        final(store).wf(),
        final(store)@.follows(old(store)@),
        final(rates).wf(),
        final(signals).0@.len() == 0,
        final(frame).0 == old(frame).0 + 1,
        final(rates)@ == old(rates)@.update((old(frame).0 % FPS_WINDOW) as int, fps),
        progress is None <==> interval(final(rates)@) == 0,
        progress matches Some(p) ==> p.period == interval(final(rates)@) && p.elapsed == old(
            frame,
        ).0 % p.period && p.wf(),
        exists|edited: StoreView| #[trigger]
            signals_run(old(store)@, *old(state), old(signals).0@, edited, *final(state))
                && final(store)@ == settled(edited, progress),
        consistent(final(store)@),
        well_wired(old(store)@, *old(state)) ==> well_wired(final(store)@, *final(state)),
{
    handle_signals(store, state, signals);
    let ghost edited = store@;
    let progress = run_frame(store, rates, *frame, fps);
    let ghost simulated = store@;
    store.apply_deletions();
    let ghost purged = store@;
    run_cleanup_systems(store);
    frame.incr();
    proof {
        lemma_follows_transitive(old(store)@, edited, simulated);
        lemma_follows_transitive(old(store)@, simulated, purged);
        lemma_follows_transitive(old(store)@, purged, store@);
        if well_wired(old(store)@, *old(state)) {
            lemma_settling_keeps_wiring(edited, *state, progress);
        }
    }
    assert(signals_run(old(store)@, *old(state), old(signals).0@, edited, *state));
    progress
}

} // verus!
