use sync_server::server::frame::FrameKind;
use sync_server::server::guest::{GuestAction, GuestEvent, GuestPhase, GuestRound};

#[test]
fn round_with_buffer() {
    let (mut round, action) = GuestRound::begin(true);
    assert_eq!(action, GuestAction::ReadBuffer);
    assert_eq!(round.step(GuestEvent::Delivered), GuestAction::ReadBuffer);
    assert_eq!(round.step(GuestEvent::Drained), GuestAction::WaitForStart);
    assert_eq!(round.step(GuestEvent::Started), GuestAction::WaitAtBarrier);
    assert_eq!(round.step(GuestEvent::BarrierPassed), GuestAction::SendStart);
    assert_eq!(round.step(GuestEvent::StartSent), GuestAction::ReadFrame);
    assert_eq!(round.step(GuestEvent::Frame(FrameKind::Empty)), GuestAction::ReadFrame);
    assert_eq!(round.step(GuestEvent::Frame(FrameKind::Other)), GuestAction::ReadFrame);
    assert_eq!(round.step(GuestEvent::Frame(FrameKind::EndOfBudget)), GuestAction::ReadBuffer);
    assert_eq!(round.phase, GuestPhase::Draining);
}

#[test]
fn round_without_buffer() {
    let (mut round, action) = GuestRound::begin(false);
    assert_eq!(action, GuestAction::WaitForStart);
    assert_eq!(round.step(GuestEvent::Started), GuestAction::WaitAtBarrier);
    assert_eq!(round.step(GuestEvent::BarrierPassed), GuestAction::SendStart);
    assert_eq!(round.step(GuestEvent::StartSent), GuestAction::ReadFrame);
    assert_eq!(round.step(GuestEvent::Frame(FrameKind::EndOfBudget)), GuestAction::WaitForStart);
}

#[test]
fn malformed_frame_aborts() {
    let (mut round, _) = GuestRound::begin(false);
    round.step(GuestEvent::Started);
    round.step(GuestEvent::BarrierPassed);
    round.step(GuestEvent::StartSent);
    assert_eq!(round.step(GuestEvent::Frame(FrameKind::Malformed)), GuestAction::Abort);
    assert_eq!(round.phase, GuestPhase::Failed);
}

#[test]
fn unexpected_event_repeats_the_action() {
    let (mut round, _) = GuestRound::begin(false);
    assert_eq!(round.step(GuestEvent::BarrierPassed), GuestAction::WaitForStart);
    assert_eq!(round.phase, GuestPhase::AwaitingStart);
}
