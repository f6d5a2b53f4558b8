use crab_grab::session::{Phase, Session, SessionAction, SessionEvent};

fn at(phase: Phase, return_to_settings: bool) -> Session {
    Session { phase, return_to_settings }
}

#[test]
fn capture_round_trip_from_idle() {
    let s = Session::new();
    assert_eq!(s, at(Phase::Idle, false));
    let (s, a) = s.step(SessionEvent::Trigger);
    assert_eq!((s, a), (at(Phase::Capturing, false), SessionAction::Grab));
    let (s, a) = s.step(SessionEvent::CaptureSucceeded);
    assert_eq!((s, a), (at(Phase::AwaitingSelection, false), SessionAction::ShowOverlay));
    let (s, a) = s.step(SessionEvent::Released(true));
    assert_eq!((s, a), (at(Phase::Cropping, false), SessionAction::Export));
    let (s, a) = s.step(SessionEvent::CropHandedOff);
    assert_eq!((s, a), (at(Phase::Idle, false), SessionAction::Hide));
}

#[test]
fn capture_from_settings_returns_to_settings() {
    let (s, _) = at(Phase::Settings, false).step(SessionEvent::Trigger);
    assert_eq!(s, at(Phase::Capturing, true));
    let (s, _) = s.step(SessionEvent::CaptureSucceeded);
    let (s, _) = s.step(SessionEvent::Released(true));
    let (s, a) = s.step(SessionEvent::CropHandedOff);
    assert_eq!((s, a), (at(Phase::Settings, false), SessionAction::ShowSettings));
}

#[test]
fn degenerate_release_keeps_selecting() {
    let s = at(Phase::AwaitingSelection, false);
    assert_eq!(s.step(SessionEvent::Released(false)), (s, SessionAction::Nothing));
}

#[test]
fn failed_capture_goes_back() {
    let (s, a) = at(Phase::Capturing, false).step(SessionEvent::CaptureFailed);
    assert_eq!((s, a), (at(Phase::Idle, false), SessionAction::Hide));
    let (s, a) = at(Phase::Capturing, true).step(SessionEvent::CaptureFailed);
    assert_eq!((s, a), (at(Phase::Settings, false), SessionAction::ShowSettings));
}

#[test]
fn cancel_discards_the_selection() {
    let (s, a) = at(Phase::AwaitingSelection, true).step(SessionEvent::Cancel);
    assert_eq!((s, a), (at(Phase::Idle, false), SessionAction::Hide));
    let idle = at(Phase::Idle, false);
    assert_eq!(idle.step(SessionEvent::Cancel), (idle, SessionAction::Nothing));
}

#[test]
fn settings_toggle() {
    let (s, a) = at(Phase::Idle, false).step(SessionEvent::ToggleSettings);
    assert_eq!((s, a), (at(Phase::Settings, false), SessionAction::ShowSettings));
    let (s, a) = s.step(SessionEvent::ToggleSettings);
    assert_eq!((s, a), (at(Phase::Idle, false), SessionAction::CloseSettings));
    let busy = at(Phase::Capturing, false);
    assert_eq!(busy.step(SessionEvent::ToggleSettings), (busy, SessionAction::Nothing));
}

#[test]
fn trigger_is_ignored_while_selecting() {
    let s = at(Phase::AwaitingSelection, false);
    assert_eq!(s.step(SessionEvent::Trigger), (s, SessionAction::Nothing));
}
