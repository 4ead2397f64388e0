//! Copying between a tunnel and a local stream: one direction, which flushes after
//! every write, and two directions side by side.
use vstd::prelude::*;

verus! {

/// Where the copying of one direction has got to.
#[derive(Debug, Clone, Copy, PartialEq, Eq, Structural)]
pub enum CopyPhase {
    /// Bytes are being read.
    Reading,
    /// This many bytes are being written.
    Writing(usize),
    /// This many bytes were written and are being flushed.
    Flushing(usize),
    /// The source has ended, or something failed.
    Over,
}

/// The copying of one direction.
#[derive(Debug, Clone, Copy, PartialEq, Eq, Structural)]
pub struct CopyState {
    pub phase: CopyPhase,
    /// The number of bytes that were written and flushed.
    pub total: u64,
}

/// What has happened in one direction.
#[derive(Debug, Clone, Copy, PartialEq, Eq, Structural)]
pub enum CopyEvent {
    /// This many bytes were read; none at the end of the source.
    Read(usize),
    /// The bytes were written.
    Written,
    /// The bytes were flushed.
    Flushed,
    /// Reading, writing or flushing failed.
    Failed,
}

/// What to do next in one direction.
#[derive(Debug, Clone, Copy, PartialEq, Eq, Structural)]
pub enum CopyAction {
    /// Read some bytes.
    Read,
    /// Write the bytes that were read, this many.
    Write(usize),
    /// Flush what was written.
    Flush,
    /// Report that this many bytes were copied.
    Finish(u64),
    /// Report the failure.
    Fail,
}

/// The copying of one direction before anything has happened.
pub open spec fn copy_start() -> CopyState {
    CopyState { phase: CopyPhase::Reading, total: 0 }
}

/// What follows on an event.
pub open spec fn copied(state: CopyState, event: CopyEvent) -> (CopyState, CopyAction) {
    match (state.phase, event) {
        (CopyPhase::Reading, CopyEvent::Read(n)) => if n == 0 {
            (CopyState { phase: CopyPhase::Over, ..state }, CopyAction::Finish(state.total))
        } else {
            (CopyState { phase: CopyPhase::Writing(n), ..state }, CopyAction::Write(n))
        },
        (CopyPhase::Writing(n), CopyEvent::Written) => (
            CopyState { phase: CopyPhase::Flushing(n), ..state },
            CopyAction::Flush,
        ),
        (CopyPhase::Flushing(n), CopyEvent::Flushed) => (
            CopyState { phase: CopyPhase::Reading, total: (state.total + n) as u64 },
            CopyAction::Read,
        ),
        _ => (CopyState { phase: CopyPhase::Over, ..state }, CopyAction::Fail),
    }
}

/// Whether the count of copied bytes still fits after the event.
pub open spec fn count_fits(state: CopyState, event: CopyEvent) -> bool {
    state.phase matches CopyPhase::Flushing(n) ==> event == CopyEvent::Flushed ==> state.total + n
        <= u64::MAX
}

impl CopyState {
    /// The copying of one direction before anything has happened.
    pub fn new() -> (r: CopyState)
        ensures
            r == copy_start(),
    {
        CopyState { phase: CopyPhase::Reading, total: 0 }
    }
}

/// One step of copying from a reader to a writer with a flush after every write,
/// so that interactive data is forwarded at once.
pub fn copy_flush(state: CopyState, event: CopyEvent) -> (r: (CopyState, CopyAction))
    requires
        count_fits(state, event),
    ensures
        r == copied(state, event),
{
    match (state.phase, event) {
        (CopyPhase::Reading, CopyEvent::Read(n)) => {
            if n == 0 {
                (
                    CopyState { phase: CopyPhase::Over, total: state.total },
                    CopyAction::Finish(state.total),
                )
            } else {
                (
                    CopyState { phase: CopyPhase::Writing(n), total: state.total },
                    CopyAction::Write(n),
                )
            }
        },
        (CopyPhase::Writing(n), CopyEvent::Written) => (
            CopyState { phase: CopyPhase::Flushing(n), total: state.total },
            CopyAction::Flush,
        ),
        (CopyPhase::Flushing(n), CopyEvent::Flushed) => (
            CopyState { phase: CopyPhase::Reading, total: state.total + n as u64 },
            CopyAction::Read,
        ),
        _ => (CopyState { phase: CopyPhase::Over, total: state.total }, CopyAction::Fail),
    }
}

/// The state after some events.
pub open spec fn copy_after(events: Seq<CopyEvent>) -> CopyState
    decreases events.len(),
{
    if events.len() == 0 {
        copy_start()
    } else {
        copied(copy_after(events.drop_last()), events.last()).0
    }
}

/// The number of bytes that the events say were read.
pub open spec fn bytes_read(events: Seq<CopyEvent>) -> nat
    decreases events.len(),
{
    if events.len() == 0 {
        0
    } else {
        bytes_read(events.drop_last()) + match events.last() {
            CopyEvent::Read(n) => n as nat,
            _ => 0,
        }
    }
}

/// While one direction is copied, the bytes that were read are those that were
/// written and flushed and those that are on their way. So before every read, all
/// that was read before has been flushed.
pub proof fn nothing_is_held_back(events: Seq<CopyEvent>)
    requires
        !(copy_after(events).phase is Over),
        bytes_read(events) <= u64::MAX,
    ensures
        bytes_read(events) == copy_after(events).total + match copy_after(events).phase {
            CopyPhase::Writing(n) => n as nat,
            CopyPhase::Flushing(n) => n as nat,
            _ => 0,
        },
    decreases events.len(),
{
    if events.len() > 0 {
        let init = events.drop_last();
        nothing_is_held_back(init);
    }
}

/// What is reported at the end of the source is the number of bytes that were
/// read, all of which were written and flushed.
pub proof fn the_total_is_reported(events: Seq<CopyEvent>, total: u64)
    requires
        events.len() > 0,
        bytes_read(events) <= u64::MAX,
        copied(copy_after(events.drop_last()), events.last()).1 == CopyAction::Finish(total),
    ensures
        total == bytes_read(events),
        copy_after(events.drop_last()).total == total,
{
    nothing_is_held_back(events.drop_last());
}

/// The action that the last of some events calls for.
pub open spec fn copy_called_for(events: Seq<CopyEvent>) -> CopyAction {
    copied(copy_after(events.drop_last()), events.last()).1
}

/// Whether none of the events called for reporting a failure.
pub open spec fn copy_runs(events: Seq<CopyEvent>) -> bool
    decreases events.len(),
{
    events.len() > 0 ==> copy_runs(events.drop_last()) && !(copy_called_for(events) is Fail)
}

/// The number of bytes in the writes that the events called for.
pub open spec fn bytes_written(events: Seq<CopyEvent>) -> nat
    decreases events.len(),
{
    if events.len() == 0 {
        0
    } else {
        bytes_written(events.drop_last()) + match copy_called_for(events) {
            CopyAction::Write(n) => n as nat,
            _ => 0,
        }
    }
}

/// The number of times that the events called for a write, for a flush, and for
/// another read.
pub open spec fn actions_called_for(events: Seq<CopyEvent>) -> (nat, nat, nat)
    decreases events.len(),
{
    if events.len() == 0 {
        (0, 0, 0)
    } else {
        let (w, f, r) = actions_called_for(events.drop_last());
        match copy_called_for(events) {
            CopyAction::Write(_) => (w + 1, f, r),
            CopyAction::Flush => (w, f + 1, r),
            CopyAction::Read => (w, f, r + 1),
            _ => (w, f, r),
        }
    }
}

/// Every byte that is read is written: as long as nothing fails, the writes that
/// were called for are as long, together, as the bytes that were read.
pub proof fn every_byte_read_is_written(events: Seq<CopyEvent>)
    requires
        copy_runs(events),
    ensures
        bytes_written(events) == bytes_read(events),
    decreases events.len(),
{
    if events.len() > 0 {
        every_byte_read_is_written(events.drop_last());
    }
}

/// Every write is flushed before anything else is read: whenever another read, or
/// the end, is called for, there were as many flushes as writes, and as many reads
/// after them.
pub proof fn every_write_is_flushed_before_the_next_read(events: Seq<CopyEvent>)
    requires
        events.len() > 0,
        copy_runs(events),
        copy_called_for(events) is Read || copy_called_for(events) is Finish,
    ensures
        actions_called_for(events).0 == actions_called_for(events).1,
        actions_called_for(events).1 == actions_called_for(events).2,
{
    lemma_actions(events);
}

proof fn lemma_actions(events: Seq<CopyEvent>)
    requires
        copy_runs(events),
    ensures
        ({
            let (w, f, r) = actions_called_for(events);
            match copy_after(events).phase {
                CopyPhase::Reading => w == f && f == r,
                CopyPhase::Writing(_) => w == f + 1 && f == r,
                CopyPhase::Flushing(_) => w == f && f == r + 1,
                CopyPhase::Over => w == f && f == r,
            }
        }),
    decreases events.len(),
{
    if events.len() > 0 {
        lemma_actions(events.drop_last());
    }
}

/// One round of copying: what was read calls for a write of just that, the write
/// for a flush, and the flush for another read. The count goes up by what was read.
pub proof fn a_round_forwards_what_was_read(state: CopyState, n: usize)
    requires
        state.phase is Reading,
        n > 0,
        state.total + n <= u64::MAX,
    ensures
        ({
            let (read, write) = copied(state, CopyEvent::Read(n));
            let (written, flush) = copied(read, CopyEvent::Written);
            let (flushed, again) = copied(written, CopyEvent::Flushed);
            &&& write == CopyAction::Write(n)
            &&& flush == CopyAction::Flush
            &&& again == CopyAction::Read
            &&& flushed.phase is Reading
            &&& flushed.total == state.total + n
            &&& count_fits(state, CopyEvent::Read(n))
            &&& count_fits(read, CopyEvent::Written)
            &&& count_fits(written, CopyEvent::Flushed)
        }),
{
}

/// The end of the source is reported with the count, and a failure as a failure,
/// wherever the copying has got to. Nothing comes after either.
pub proof fn copying_ends_once(state: CopyState, event: CopyEvent)
    ensures
        state.phase is Reading ==> copied(state, CopyEvent::Read(0)).1 == CopyAction::Finish(
            state.total,
        ),
        copied(state, CopyEvent::Failed).1 is Fail,
        copied(state, event).1 is Fail || copied(state, event).1 is Finish ==> copied(
            state,
            event,
        ).0.phase is Over,
        state.phase is Over ==> copied(state, event).1 is Fail && copied(state, event).0.phase is Over,
        count_fits(state, CopyEvent::Failed),
{
}

// ---------------------------------------------------------------------------
// Two directions
// ---------------------------------------------------------------------------

/// A direction of a bridge.
#[derive(Debug, Clone, Copy, PartialEq, Eq, Structural)]
pub enum Direction {
    /// From the local stream into the tunnel.
    Outbound,
    /// From the tunnel to the local stream.
    Inbound,
}

/// Where one direction of a bridge has got to.
#[derive(Debug, Clone, Copy, PartialEq, Eq, Structural)]
pub enum Flow {
    /// It is being copied.
    Copying,
    /// Its source has ended, and the end is being passed on.
    Closing,
    /// Its end was passed on.
    Closed,
}

/// Where the copying of both directions has got to.
#[derive(Debug, Clone, Copy, PartialEq, Eq, Structural)]
pub struct BridgeState {
    pub outbound: Flow,
    pub inbound: Flow,
}

/// What has happened to a bridge.
#[derive(Debug, Clone, Copy, PartialEq, Eq, Structural)]
pub enum BridgeEvent {
    /// The source of a direction has ended, and all of it was copied.
    Ended(Direction),
    /// The writer of a direction was shut down.
    WriterShut(Direction),
    /// A direction failed.
    Failed,
}

/// What to do next with a bridge.
#[derive(Debug, Clone, Copy, PartialEq, Eq, Structural)]
pub enum BridgeAction {
    /// Pass the end of a direction on: shut its writer down.
    ShutWriter(Direction),
    /// Go on with the other direction.
    Continue,
    /// Be done: both directions were copied to their ends, and both ends were
    /// passed on.
    Finish,
    /// Report the failure.
    Fail,
}

/// A bridge with both directions open.
pub open spec fn bridge_start() -> BridgeState {
    BridgeState { outbound: Flow::Copying, inbound: Flow::Copying }
}

impl BridgeState {
    /// Where a direction has got to.
    pub open spec fn flow(self, direction: Direction) -> Flow {
        match direction {
            Direction::Outbound => self.outbound,
            Direction::Inbound => self.inbound,
        }
    }

    /// The same bridge with one direction further on.
    pub open spec fn with(self, direction: Direction, flow: Flow) -> BridgeState {
        match direction {
            Direction::Outbound => BridgeState { outbound: flow, ..self },
            Direction::Inbound => BridgeState { inbound: flow, ..self },
        }
    }

    /// A bridge with both directions open.
    pub fn new() -> (r: BridgeState)
        ensures
            r == bridge_start(),
    {
        BridgeState { outbound: Flow::Copying, inbound: Flow::Copying }
    }

    fn get(&self, direction: Direction) -> (r: Flow)
        ensures
            r == self.flow(direction),
    {
        match direction {
            Direction::Outbound => self.outbound,
            Direction::Inbound => self.inbound,
        }
    }

    fn set(self, direction: Direction, flow: Flow) -> (r: BridgeState)
        ensures
            r == self.with(direction, flow),
    {
        match direction {
            Direction::Outbound => BridgeState { outbound: flow, inbound: self.inbound },
            Direction::Inbound => BridgeState { outbound: self.outbound, inbound: flow },
        }
    }
}

/// What follows on an event.
pub open spec fn bridged(state: BridgeState, event: BridgeEvent) -> (BridgeState, BridgeAction) {
    match event {
        BridgeEvent::Ended(d) => if state.flow(d) is Copying {
            (state.with(d, Flow::Closing), BridgeAction::ShutWriter(d))
        } else {
            (state, BridgeAction::Fail)
        },
        BridgeEvent::WriterShut(d) => if state.flow(d) is Closing {
            let next = state.with(d, Flow::Closed);
            (
                next,
                if next.outbound is Closed && next.inbound is Closed {
                    BridgeAction::Finish
                } else {
                    BridgeAction::Continue
                },
            )
        } else {
            (state, BridgeAction::Fail)
        },
        BridgeEvent::Failed => (state, BridgeAction::Fail),
    }
}

/// One step of copying both directions of a bridge. The end of one source is
/// passed on and leaves the other direction open.
pub fn copy_both(state: BridgeState, event: BridgeEvent) -> (r: (BridgeState, BridgeAction))
    ensures
        r == bridged(state, event),
{
    match event {
        BridgeEvent::Ended(d) => {
            if state.get(d) == Flow::Copying {
                (state.set(d, Flow::Closing), BridgeAction::ShutWriter(d))
            } else {
                (state, BridgeAction::Fail)
            }
        },
        BridgeEvent::WriterShut(d) => {
            if state.get(d) == Flow::Closing {
                let next = state.set(d, Flow::Closed);
                if next.outbound == Flow::Closed && next.inbound == Flow::Closed {
                    (next, BridgeAction::Finish)
                } else {
                    (next, BridgeAction::Continue)
                }
            } else {
                (state, BridgeAction::Fail)
            }
        },
        BridgeEvent::Failed => (state, BridgeAction::Fail),
    }
}

/// The state of a bridge after some events.
pub open spec fn bridge_after(events: Seq<BridgeEvent>) -> BridgeState
    decreases events.len(),
{
    if events.len() == 0 {
        bridge_start()
    } else {
        bridged(bridge_after(events.drop_last()), events.last()).0
    }
}

/// The other direction.
pub open spec fn opposite(direction: Direction) -> Direction {
    match direction {
        Direction::Outbound => Direction::Inbound,
        Direction::Inbound => Direction::Outbound,
    }
}

/// The end of a source is passed on: the writer of its direction is shut down. The
/// other direction goes on as it was.
pub proof fn ends_are_passed_on(state: BridgeState, direction: Direction)
    requires
        state.flow(direction) is Copying,
    ensures
        bridged(state, BridgeEvent::Ended(direction)).1 == BridgeAction::ShutWriter(direction),
        bridged(state, BridgeEvent::Ended(direction)).0.flow(opposite(direction)) == state.flow(
            opposite(direction),
        ),
{
}

/// A half-closed bridge stays open: it is done only once both sources have ended
/// and both ends were passed on.
pub proof fn half_closed_bridges_stay_open(events: Seq<BridgeEvent>, direction: Direction)
    requires
        events.len() > 0,
        bridged(bridge_after(events.drop_last()), events.last()).1 is Finish,
    ensures
        events.contains(BridgeEvent::Ended(direction)),
        events.contains(BridgeEvent::WriterShut(direction)),
{
    lemma_closed(events, direction);
}

proof fn lemma_closed(events: Seq<BridgeEvent>, direction: Direction)
    ensures
        !(bridge_after(events).flow(direction) is Copying) ==> events.contains(
            BridgeEvent::Ended(direction),
        ),
        bridge_after(events).flow(direction) is Closed ==> events.contains(
            BridgeEvent::WriterShut(direction),
        ),
    decreases events.len(),
{
    if events.len() > 0 {
        let init = events.drop_last();
        lemma_closed(init, direction);
        assert(events[events.len() - 1] == events.last());
        assert forall|e: BridgeEvent| init.contains(e) implies events.contains(e) by {
            let i = choose|i: int| 0 <= i < init.len() && init[i] == e;
            assert(events[i] == e);
        }
    }
}

/// The action that the last of some events of a bridge calls for.
pub open spec fn bridge_called_for(events: Seq<BridgeEvent>) -> BridgeAction {
    bridged(bridge_after(events.drop_last()), events.last()).1
}

/// Whether none of the events of a bridge called for reporting a failure.
pub open spec fn bridge_runs(events: Seq<BridgeEvent>) -> bool
    decreases events.len(),
{
    events.len() > 0 ==> bridge_runs(events.drop_last()) && !(bridge_called_for(events) is Fail)
}

/// As long as nothing fails, a bridge is done with the event that shuts the second
/// writer, and with no other.
pub proof fn a_bridge_is_done_with_the_second_writer(events: Seq<BridgeEvent>)
    requires
        events.len() > 0,
        bridge_runs(events),
    ensures
        bridge_called_for(events) is Finish <==> events.contains(
            BridgeEvent::WriterShut(Direction::Outbound),
        ) && events.contains(BridgeEvent::WriterShut(Direction::Inbound)),
{
    lemma_shut_writers(events, Direction::Outbound);
    lemma_shut_writers(events, Direction::Inbound);
    let init = events.drop_last();
    lemma_shut_writers(init, Direction::Outbound);
    lemma_shut_writers(init, Direction::Inbound);
    assert(events[events.len() - 1] == events.last());
}

proof fn lemma_shut_writers(events: Seq<BridgeEvent>, direction: Direction)
    requires
        bridge_runs(events),
    ensures
        bridge_after(events).flow(direction) is Closed <==> events.contains(
            BridgeEvent::WriterShut(direction),
        ),
        !(bridge_after(events).flow(direction) is Copying) <==> events.contains(
            BridgeEvent::Ended(direction),
        ),
    decreases events.len(),
{
    if events.len() > 0 {
        let init = events.drop_last();
        lemma_shut_writers(init, direction);
        assert(events[events.len() - 1] == events.last());
        assert forall|e: BridgeEvent|
            events.contains(e) <==> (init.contains(e) || e == events.last()) by {
            if init.contains(e) {
                let i = choose|i: int| 0 <= i < init.len() && init[i] == e;
                assert(events[i] == e);
            }
            if events.contains(e) {
                let i = choose|i: int| 0 <= i < events.len() && events[i] == e;
                if i < init.len() {
                    assert(init[i] == e);
                }
            }
        }
    }
}

/// Whatever has happened before, a failure is reported, a source may end in either
/// direction while it is copied, and its end is passed on in the same direction.
pub proof fn each_direction_runs_by_itself(state: BridgeState, direction: Direction)
    ensures
        bridged(state, BridgeEvent::Failed).1 is Fail,
        state.flow(direction) is Copying ==> bridged(state, BridgeEvent::Ended(direction)).1
            == BridgeAction::ShutWriter(direction),
        state.flow(direction) is Closing ==> !(bridged(
            state,
            BridgeEvent::WriterShut(direction),
        ).1 is Fail),
        forall|event: BridgeEvent|
            event == BridgeEvent::Ended(direction) || event == BridgeEvent::WriterShut(direction)
                ==> (#[trigger] bridged(state, event)).0.flow(opposite(direction)) == state.flow(
                opposite(direction),
            ),
        opposite(direction) != direction,
{
}

} // verus!
