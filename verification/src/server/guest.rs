use vstd::prelude::*;

use super::frame::FrameKind;

verus! {

/// Where the thread of a guest stands in its round.
#[derive(Debug, Clone, Copy, PartialEq, Eq)]
pub enum GuestPhase {
    /// Sending the messages of the ring buffer that the guest has not had yet.
    Draining,
    /// Waiting until the shell lets the guests run.
    AwaitingStart,
    /// Waiting until every guest is ready.
    AtBarrier,
    /// Sending `Start` to the guest.
    Starting,
    /// Reading the guest's frames until it has spent its budget.
    Running,
    /// The guest sent bytes that the server does not accept.
    Failed,
}

/// What the thread of a guest does next.
#[derive(Debug, Clone, Copy, PartialEq, Eq)]
pub enum GuestAction {
    /// Read the next value of the ring buffer and, if there is one, send it.
    ReadBuffer,
    /// Wait until the shell lets the guests run.
    WaitForStart,
    /// Wait at the barrier of all guests.
    WaitAtBarrier,
    /// Send `Start` to the guest.
    SendStart,
    /// Read the next frame from the guest.
    ReadFrame,
    /// Give up on the guest.
    Abort,
}

/// What happened when the thread did its last action.
#[derive(Debug, Clone, Copy, PartialEq, Eq)]
pub enum GuestEvent {
    /// A value was read from the ring buffer and sent.
    Delivered,
    /// The ring buffer had nothing more for this guest.
    Drained,
    /// The shell let the guests run.
    Started,
    /// Every guest reached the barrier.
    BarrierPassed,
    /// `Start` was sent.
    StartSent,
    /// A frame was read from the guest.
    Frame(FrameKind),
}

/// The state of the thread of a guest.
#[derive(Debug, Clone, Copy, PartialEq, Eq)]
pub struct GuestRound {
    pub phase: GuestPhase,
    /// Whether the server relays the shell's messages through the ring buffer.
    pub with_buffer: bool,
}

/// The action that each phase calls for.
pub open spec fn phase_action(phase: GuestPhase) -> GuestAction {
    match phase {
        GuestPhase::Draining => GuestAction::ReadBuffer,
        GuestPhase::AwaitingStart => GuestAction::WaitForStart,
        GuestPhase::AtBarrier => GuestAction::WaitAtBarrier,
        GuestPhase::Starting => GuestAction::SendStart,
        GuestPhase::Running => GuestAction::ReadFrame,
        GuestPhase::Failed => GuestAction::Abort,
    }
}

/// The phase in which a round begins: draining the ring buffer when the
/// server has one, else waiting for the shell.
pub open spec fn round_start(with_buffer: bool) -> GuestPhase {
    if with_buffer {
        GuestPhase::Draining
    } else {
        GuestPhase::AwaitingStart
    }
}

/// The phase after `event`; an event that does not answer the phase's
/// action leaves the phase as it is.
pub open spec fn next_phase(round: GuestRound, event: GuestEvent) -> GuestPhase {
    match (round.phase, event) {
        (GuestPhase::Draining, GuestEvent::Delivered) => GuestPhase::Draining,
        (GuestPhase::Draining, GuestEvent::Drained) => GuestPhase::AwaitingStart,
        (GuestPhase::AwaitingStart, GuestEvent::Started) => GuestPhase::AtBarrier,
        (GuestPhase::AtBarrier, GuestEvent::BarrierPassed) => GuestPhase::Starting,
        (GuestPhase::Starting, GuestEvent::StartSent) => GuestPhase::Running,
        (GuestPhase::Running, GuestEvent::Frame(kind)) => match kind {
            FrameKind::EndOfBudget => round_start(round.with_buffer),
            FrameKind::Malformed => GuestPhase::Failed,
            _ => GuestPhase::Running,
        },
        _ => round.phase,
    }
}

impl GuestRound {
    /// The first state of a guest's thread, and its first action.
    pub fn begin(with_buffer: bool) -> (res: (GuestRound, GuestAction))
        ensures
            res.0.phase == round_start(with_buffer),
            res.0.with_buffer == with_buffer,
            res.1 == phase_action(res.0.phase),
    {
        let phase = if with_buffer {
            GuestPhase::Draining
        } else {
            GuestPhase::AwaitingStart
        };
        (GuestRound { phase, with_buffer }, GuestRound::action_of(phase))
    }

    fn action_of(phase: GuestPhase) -> (action: GuestAction)
        ensures
            action == phase_action(phase),
    {
        match phase {
            GuestPhase::Draining => GuestAction::ReadBuffer,
            GuestPhase::AwaitingStart => GuestAction::WaitForStart,
            GuestPhase::AtBarrier => GuestAction::WaitAtBarrier,
            GuestPhase::Starting => GuestAction::SendStart,
            GuestPhase::Running => GuestAction::ReadFrame,
            GuestPhase::Failed => GuestAction::Abort,
        }
    }

    /// Takes the outcome of the last action into account and gives the next
    /// action.
    pub fn step(&mut self, event: GuestEvent) -> (action: GuestAction)
        ensures
            final(self).phase == next_phase(*old(self), event),
            final(self).with_buffer == old(self).with_buffer,
            action == phase_action(final(self).phase),
    {
        let phase = match (self.phase, event) {
            (GuestPhase::Draining, GuestEvent::Delivered) => GuestPhase::Draining,
            (GuestPhase::Draining, GuestEvent::Drained) => GuestPhase::AwaitingStart,
            (GuestPhase::AwaitingStart, GuestEvent::Started) => GuestPhase::AtBarrier,
            (GuestPhase::AtBarrier, GuestEvent::BarrierPassed) => GuestPhase::Starting,
            (GuestPhase::Starting, GuestEvent::StartSent) => GuestPhase::Running,
            (GuestPhase::Running, GuestEvent::Frame(kind)) => match kind {
                FrameKind::EndOfBudget => if self.with_buffer {
                    GuestPhase::Draining
                } else {
                    GuestPhase::AwaitingStart
                },
                FrameKind::Malformed => GuestPhase::Failed,
                _ => GuestPhase::Running,
            },
            _ => self.phase,
        };
        self.phase = phase;
        GuestRound::action_of(phase)
    }
}

/// The phases run through `events`, from `round` on.
pub open spec fn run_events(round: GuestRound, events: Seq<GuestEvent>) -> GuestRound
    decreases events.len(),
{
    if events.len() == 0 {
        round
    } else {
        let before = run_events(round, events.drop_last());
        GuestRound { phase: next_phase(before, events.last()), ..before }
    }
}

/// `Start` goes to a guest only after the shell has let the guests run and,
/// after that, every guest has reached the barrier.
pub proof fn law_start_follows_shell_and_barrier(with_buffer: bool, events: Seq<GuestEvent>)
    requires
        run_events(
            GuestRound { phase: round_start(with_buffer), with_buffer },
            events,
        ).phase == GuestPhase::Starting,
    ensures
        exists|i: int, j: int|
            0 <= i < j < events.len() && events[i] == GuestEvent::Started && events[j]
                == GuestEvent::BarrierPassed,
    decreases events.len(),
{
    let init = GuestRound { phase: round_start(with_buffer), with_buffer };
    let before = run_events(init, events.drop_last());
    let last = events.last();
    assert(events.len() > 0);
    if before.phase == GuestPhase::Starting {
        law_start_follows_shell_and_barrier(with_buffer, events.drop_last());
        let (i, j) = choose|i: int, j: int|
            0 <= i < j < events.drop_last().len() && events.drop_last()[i] == GuestEvent::Started
                && events.drop_last()[j] == GuestEvent::BarrierPassed;
        assert(events[i] == GuestEvent::Started && events[j] == GuestEvent::BarrierPassed);
    } else {
        assert(before.phase == GuestPhase::AtBarrier && last == GuestEvent::BarrierPassed);
        lemma_at_barrier_after_start(with_buffer, events.drop_last());
        let i = choose|i: int| 0 <= i < events.drop_last().len() && events.drop_last()[i] == GuestEvent::Started;
        assert(events[i] == GuestEvent::Started);
        assert(events[events.len() - 1] == GuestEvent::BarrierPassed);
    }
}

/// A round ends only when the guest has spent its budget: from `Running`,
/// any sequence of events without an end-of-budget or malformed frame
/// leaves the thread reading frames, and an end-of-budget frame then begins
/// the next round.
pub proof fn law_running_until_done(round: GuestRound, events: Seq<GuestEvent>)
    requires
        round.phase == GuestPhase::Running,
        forall|i: int|
            0 <= i < events.len() ==> #[trigger] events[i] != GuestEvent::Frame(FrameKind::EndOfBudget)
                && events[i] != GuestEvent::Frame(FrameKind::Malformed),
    ensures
        run_events(round, events).phase == GuestPhase::Running,
        run_events(round, events).with_buffer == round.with_buffer,
        phase_action(run_events(round, events).phase) == GuestAction::ReadFrame,
        next_phase(run_events(round, events), GuestEvent::Frame(FrameKind::EndOfBudget))
            == round_start(round.with_buffer),
    decreases events.len(),
{
    if events.len() > 0 {
        let p = events.drop_last();
        assert forall|i: int| 0 <= i < p.len() implies #[trigger] p[i] != GuestEvent::Frame(
            FrameKind::EndOfBudget,
        ) && p[i] != GuestEvent::Frame(FrameKind::Malformed) by {
            assert(p[i] == events[i]);
        }
        law_running_until_done(round, p);
        assert(events[events.len() - 1] == events.last());
    }
}

/// The barrier is reached only after the shell has let the guests run.
proof fn lemma_at_barrier_after_start(with_buffer: bool, events: Seq<GuestEvent>)
    requires
        run_events(
            GuestRound { phase: round_start(with_buffer), with_buffer },
            events,
        ).phase == GuestPhase::AtBarrier,
    ensures
        exists|i: int| 0 <= i < events.len() && events[i] == GuestEvent::Started,
    decreases events.len(),
{
    let init = GuestRound { phase: round_start(with_buffer), with_buffer };
    assert(events.len() > 0);
    let before = run_events(init, events.drop_last());
    if before.phase == GuestPhase::AtBarrier {
        lemma_at_barrier_after_start(with_buffer, events.drop_last());
        let i = choose|i: int| 0 <= i < events.drop_last().len() && events.drop_last()[i] == GuestEvent::Started;
        assert(events[i] == GuestEvent::Started);
    } else {
        assert(events[events.len() - 1] == GuestEvent::Started);
    }
}

} // verus!
