//! The state that lives beside the store: the pointer, the editor's mode,
//! the signals of the control panel, and the frame clock.

use crate::components::nodes::NodeTy;
use crate::components::Entity;
use vstd::prelude::*;

verus! {

/// The pointer's position, in the coordinates of the canvas.
#[derive(Clone, Copy, Debug, PartialEq, Eq, Structural)]
pub struct MousePos(pub i32, pub i32);

/// The editor's mode. A gesture is one variant of this value, so that two
/// gestures can never be under way at once.
#[derive(Clone, Copy, Debug, PartialEq, Eq, Structural)]
pub enum UIState {
    /// No gesture is under way.
    Nothing,
    /// A node of this kind waits to be placed.
    AddingNode(NodeTy),
    /// A wire is being drawn from a port.
    AddingWire {
        /// The port where the wire starts.
        connection_entity: Entity,
        /// The wire itself, not yet bound to anything.
        wire_entity: Entity,
        /// The horizontal position of the wire's bend, once it is fixed.
        x_pos: Option<i32>,
        /// The height at which the wire leaves its port.
        y_pos: Option<i32>,
    },
    /// Clicks delete what they hit.
    Deleting,
}

/// The kind of node that waits to be placed, if any.
#[derive(Clone, Copy, Debug, PartialEq, Eq, Structural)]
pub struct AddingNode(pub Option<NodeTy>);

/// The wire that is being drawn, if any: the port where it starts and the
/// two coordinates of its bend as far as they are fixed.
#[derive(Clone, Copy, Debug)]
pub struct AddingWire(pub Option<(Entity, Option<i32>, Option<i32>)>);

impl Default for UIState {
    fn default() -> (state: UIState)
        ensures
            state == UIState::Nothing,
    {
        UIState::Nothing
    }
}

impl Default for AddingNode {
    fn default() -> (pending: AddingNode)
        ensures
            pending == AddingNode(None),
    {
        AddingNode(None)
    }
}

impl Default for AddingWire {
    fn default() -> (pending: AddingWire)
        ensures
            pending == AddingWire(None),
    {
        AddingWire(None)
    }
}

impl UIState {
    /// The node kind that this mode holds, if it is the mode of adding a node.
    pub open spec fn pending_node(self) -> AddingNode {
        match self {
            UIState::AddingNode(kind) => AddingNode(Some(kind)),
            _ => AddingNode(None),
        }
    }

    /// The wire that this mode holds, if it is the mode of adding a wire.
    pub open spec fn pending_wire(self) -> AddingWire {
        match self {
            UIState::AddingWire { connection_entity, x_pos, y_pos, .. } => AddingWire(
                Some((connection_entity, x_pos, y_pos)),
            ),
            _ => AddingWire(None),
        }
    }

    /// The node kind that waits to be placed, if any.
    pub fn adding_node(&self) -> (pending: AddingNode)
        ensures
            pending == self.pending_node(),
    {
        match self {
            UIState::AddingNode(kind) => AddingNode(Some(*kind)),
            _ => AddingNode(None),
        }
    }

    /// The wire that is being drawn, if any.
    pub fn adding_wire(&self) -> (pending: AddingWire)
        ensures
            pending == self.pending_wire(),
    {
        match self {
            UIState::AddingWire { connection_entity, wire_entity: _, x_pos, y_pos } => AddingWire(
                Some((*connection_entity, *x_pos, *y_pos)),
            ),
            _ => AddingWire(None),
        }
    }

    /// Whether no gesture is under way.
    pub fn is_idle(&self) -> (idle: bool)
        ensures
            idle == (*self is Nothing),
    {
        match self {
            UIState::Nothing => true,
            _ => false,
        }
    }
}

/// The editor is in exactly one of its four modes, and a node waits to be
/// placed, or a wire is being drawn, only in the mode of that name: never
/// both at once.
pub proof fn lemma_single_gesture(state: UIState)
    ensures
        (state is Nothing) || (state is AddingNode) || (state is AddingWire) || (state is Deleting),
        !((state is Nothing) && (state is AddingNode)),
        !((state is Nothing) && (state is AddingWire)),
        !((state is Nothing) && (state is Deleting)),
        !((state is AddingNode) && (state is AddingWire)),
        !((state is AddingNode) && (state is Deleting)),
        !((state is AddingWire) && (state is Deleting)),
        state.pending_node().0 is Some <==> state is AddingNode,
        state.pending_wire().0 is Some <==> state is AddingWire,
        !(state.pending_node().0 is Some && state.pending_wire().0 is Some),
{
}

/// What the host asks of the editor.
#[derive(Clone, Copy, Debug, PartialEq, Eq, Structural)]
pub enum UiSignal {
    /// Start adding a node of this kind.
    AddNode(NodeTy),
    /// The primary button was clicked here.
    PrimaryClick(MousePos),
    /// The secondary button was clicked here.
    SecondaryClick(MousePos),
    /// Delete what is here.
    Delete(MousePos),
}

/// The signals of one frame, in the order in which they are to be handled.
#[derive(Debug)]
pub struct UiSignals(pub Vec<UiSignal>);

impl Default for UiSignals {
    fn default() -> (signals: UiSignals)
        ensures
            signals.0@.len() == 0,
    {
        UiSignals(Vec::new())
    }
}

/// The number of frames shown so far.
#[derive(Clone, Copy, Debug, PartialEq, Eq, Structural)]
pub struct Tick(pub usize);

impl Default for Tick {
    fn default() -> (tick: Tick)
        ensures
            tick == Tick(0),
    {
        Tick(0)
    }
}

impl Tick {
    /// Counts one more frame.
    pub fn incr(&mut self)
        requires
            old(self).0 < usize::MAX,
        ensures
            final(self).0 == old(self).0 + 1,
    {
        self.0 += 1;
    }
}

/// How far the current frame is into the simulation interval: `elapsed`
/// frames of `period`. As a fraction it lies in `[0, 1)`.
#[derive(Clone, Copy, Debug, PartialEq, Eq, Structural)]
pub struct TickProgress {
    pub elapsed: usize,
    pub period: usize,
}

impl TickProgress {
    /// The progress is a proper fraction.
    pub open spec fn wf(self) -> bool {
        self.elapsed < self.period
    }

    /// Whether the simulation advances on this frame.
    pub fn is_tick(&self) -> (due: bool)
        ensures
            due == (self.elapsed == 0),
    {
        self.elapsed == 0
    }
}

/// The number of frame-rate samples that the simulation interval is
/// averaged over.
pub const FPS_WINDOW: usize = 256;

/// The frame rate assumed before any sample has been taken.
pub const FPS_DEFAULT: u32 = 60;

/// The sum of a sequence of samples.
pub open spec fn total(samples: Seq<u32>) -> int
    decreases samples.len(),
{
    if samples.len() == 0 {
        0
    } else {
        total(samples.drop_last()) + samples.last()
    }
}

/// The simulation interval, in frames, that a window of samples asks for:
/// their average, rounded down, so that the simulation advances about once
/// a second whatever the display's rate.
pub open spec fn interval(samples: Seq<u32>) -> int {
    total(samples) / (FPS_WINDOW as int)
}

/// The last frame rates measured, one per frame, in a ring.
#[derive(Debug)]
pub struct FrameRates {
    samples: Vec<u32>,
}

impl View for FrameRates {
    type V = Seq<u32>;

    closed spec fn view(&self) -> Seq<u32> {
        self.samples@
    }
}

impl FrameRates {
    /// The window always holds the same number of samples.
    pub open spec fn wf(&self) -> bool {
        self@.len() == FPS_WINDOW
    }

    /// A window in which every sample is the default rate.
    pub fn new() -> (rates: FrameRates)
        ensures
            rates.wf(),
            forall|i: int| 0 <= i < FPS_WINDOW ==> rates@[i] == FPS_DEFAULT,
    {
        let mut samples: Vec<u32> = Vec::new();
        while samples.len() < FPS_WINDOW
            invariant
                samples@.len() <= FPS_WINDOW,
                forall|i: int| 0 <= i < samples@.len() ==> samples@[i] == FPS_DEFAULT,
            decreases FPS_WINDOW - samples@.len(),
        {
            samples.push(FPS_DEFAULT);
        }
        FrameRates { samples }
    }

    /// Records the rate measured on frame `tick`, in place of the sample
    /// taken a window earlier.
    pub fn record(&mut self, tick: Tick, fps: u32)
        requires
            old(self).wf(),
        ensures
            final(self).wf(),
            final(self)@ == old(self)@.update((tick.0 % FPS_WINDOW) as int, fps),
    {
        let at: usize = tick.0 % FPS_WINDOW;
        self.samples.set(at, fps);
    }

    /// The simulation interval in frames: the average of the window.
    pub fn tick_frames(&self) -> (frames: usize)
        requires
            self.wf(),
        ensures
            frames == interval(self@),
    {
        let mut sum: u64 = 0;
        let mut i: usize = 0;
        while i < FPS_WINDOW
            invariant
                i <= FPS_WINDOW,
                self.samples@.len() == FPS_WINDOW,
                sum == total(self.samples@.subrange(0, i as int)),
                sum <= i * u32::MAX,
            decreases FPS_WINDOW - i,
        {
            proof {
                let upto = self.samples@.subrange(0, i + 1);
                assert(upto.drop_last() =~= self.samples@.subrange(0, i as int));
                assert(upto.last() == self.samples@[i as int]);
                assert((i + 1) * u32::MAX == i * u32::MAX + u32::MAX) by (nonlinear_arith);
            }
            sum = sum + self.samples[i] as u64;
            i += 1;
        }
        assert(self.samples@.subrange(0, FPS_WINDOW as int) =~= self.samples@);
        assert(i == FPS_WINDOW);
        assert(sum <= 256 * 0xffff_ffff) by {
            assert(i * u32::MAX == 256 * 0xffff_ffff) by (nonlinear_arith)
                requires
                    i == 256,
            ;
        }
        let width: u64 = FPS_WINDOW as u64;
        assert(width == 256);
        let average: u64 = sum / width;
        assert(average == sum as int / 256);
        assert(average <= u32::MAX);
        assert(average == interval(self@));
        average as usize
    }

    /// How far frame `tick` is into the simulation interval. There is no
    /// interval, and so no progress, while the average rate is below one
    /// frame a second.
    pub fn progress(&self, tick: Tick) -> (progress: Option<TickProgress>)
        requires
            self.wf(),
        ensures
            progress is None <==> interval(self@) == 0,
            progress matches Some(p) ==> p.period == interval(self@) && p.elapsed == tick.0
                % p.period && p.wf(),
    {
        let period = self.tick_frames();
        if period == 0 {
            None
        } else {
            Some(TickProgress { elapsed: tick.0 % period, period })
        }
    }
}

} // verus!
