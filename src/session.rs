//! The capture lifecycle as a state machine. The caller performs each
//! returned action and reports what happened as the next event.
use vstd::prelude::*;

verus! {

/// Where the interaction stands.
#[derive(Clone, Copy, Debug, PartialEq, Eq, Structural)]
pub enum Phase {
    /// Nothing shown; waiting for a trigger.
    Idle,
    /// The settings window is open.
    Settings,
    /// The displays are being grabbed.
    Capturing,
    /// The captured desktop is shown and the user is drawing a selection.
    AwaitingSelection,
    /// A crop rectangle was computed and is being handed to export.
    Cropping,
}

/// The phase together with where to go back once a capture ends.
#[derive(Clone, Copy, Debug, PartialEq, Eq, Structural)]
pub struct Session {
    pub phase: Phase,
    /// The capture was started from the settings window.
    pub return_to_settings: bool,
}

/// What the caller observed.
#[derive(Clone, Copy, Debug, PartialEq, Eq, Structural)]
pub enum SessionEvent {
    /// The capture hotkey or menu entry.
    Trigger,
    CaptureSucceeded,
    CaptureFailed,
    /// The pointer was released; `true` when the selection maps to a crop.
    Released(bool),
    /// The crop was handed to export.
    CropHandedOff,
    /// The cancel key.
    Cancel,
    /// The settings hotkey or menu entry, or the settings window's close.
    ToggleSettings,
}

/// What the caller must do next.
#[derive(Clone, Copy, Debug, PartialEq, Eq, Structural)]
pub enum SessionAction {
    Nothing,
    /// Grab every display and report the outcome.
    Grab,
    /// Show the captured desktop over all displays.
    ShowOverlay,
    /// Crop the capture and hand the result to export.
    Export,
    /// Drop any captured buffers and hide the window.
    Hide,
    /// Drop any captured buffers and show the settings window.
    ShowSettings,
    /// Save the settings and hide the window.
    CloseSettings,
}

impl Session {
    pub open spec fn at(phase: Phase, return_to_settings: bool) -> Session {
        Session { phase, return_to_settings }
    }

    /// The phase to go back to when a capture ends, and how to show it.
    pub open spec fn back(self) -> (Session, SessionAction) {
        if self.return_to_settings {
            (Session::at(Phase::Settings, false), SessionAction::ShowSettings)
        } else {
            (Session::at(Phase::Idle, false), SessionAction::Hide)
        }
    }

    /// The transition table.
    pub open spec fn transition(self, e: SessionEvent) -> (Session, SessionAction) {
        match (self.phase, e) {
            (Phase::Idle, SessionEvent::Trigger) => (
                Session::at(Phase::Capturing, false),
                SessionAction::Grab,
            ),
            (Phase::Settings, SessionEvent::Trigger) => (
                Session::at(Phase::Capturing, true),
                SessionAction::Grab,
            ),
            (Phase::Capturing, SessionEvent::CaptureSucceeded) => (
                Session::at(Phase::AwaitingSelection, self.return_to_settings),
                SessionAction::ShowOverlay,
            ),
            (Phase::Capturing, SessionEvent::CaptureFailed) => self.back(),
            (Phase::AwaitingSelection, SessionEvent::Released(true)) => (
                Session::at(Phase::Cropping, self.return_to_settings),
                SessionAction::Export,
            ),
            (Phase::AwaitingSelection, SessionEvent::Cancel) => (
                Session::at(Phase::Idle, false),
                SessionAction::Hide,
            ),
            (Phase::Cropping, SessionEvent::CropHandedOff) => self.back(),
            (Phase::Idle, SessionEvent::ToggleSettings) => (
                Session::at(Phase::Settings, false),
                SessionAction::ShowSettings,
            ),
            (Phase::AwaitingSelection, SessionEvent::ToggleSettings) => (
                Session::at(Phase::Settings, false),
                SessionAction::ShowSettings,
            ),
            (Phase::Settings, SessionEvent::ToggleSettings) => (
                Session::at(Phase::Idle, false),
                SessionAction::CloseSettings,
            ),
            _ => (self, SessionAction::Nothing),
        }
    }

    /// A new session: idle.
    pub fn new() -> (s: Session)
        ensures
            s == Session::at(Phase::Idle, false),
    {
        Session { phase: Phase::Idle, return_to_settings: false }
    }

    fn back_exec(self) -> (r: (Session, SessionAction))
        ensures
            r == self.back(),
    {
        if self.return_to_settings {
            (Session { phase: Phase::Settings, return_to_settings: false }, SessionAction::ShowSettings)
        } else {
            (Session { phase: Phase::Idle, return_to_settings: false }, SessionAction::Hide)
        }
    }

    /// Applies one event: returns the next state and the action to perform.
    /// A degenerate release keeps the selection going; an event that does
    /// not apply to the current phase changes nothing.
    pub fn step(self, e: SessionEvent) -> (r: (Session, SessionAction))
        ensures
            r == self.transition(e),
    {
        let keep = self.return_to_settings;
        match (self.phase, e) {
            (Phase::Idle, SessionEvent::Trigger) => (
                Session { phase: Phase::Capturing, return_to_settings: false },
                SessionAction::Grab,
            ),
            (Phase::Settings, SessionEvent::Trigger) => (
                Session { phase: Phase::Capturing, return_to_settings: true },
                SessionAction::Grab,
            ),
            (Phase::Capturing, SessionEvent::CaptureSucceeded) => (
                Session { phase: Phase::AwaitingSelection, return_to_settings: keep },
                SessionAction::ShowOverlay,
            ),
            (Phase::Capturing, SessionEvent::CaptureFailed) => self.back_exec(),
            (Phase::AwaitingSelection, SessionEvent::Released(true)) => (
                Session { phase: Phase::Cropping, return_to_settings: keep },
                SessionAction::Export,
            ),
            (Phase::AwaitingSelection, SessionEvent::Cancel) => (
                Session { phase: Phase::Idle, return_to_settings: false },
                SessionAction::Hide,
            ),
            (Phase::Cropping, SessionEvent::CropHandedOff) => self.back_exec(),
            (Phase::Idle, SessionEvent::ToggleSettings) => (
                Session { phase: Phase::Settings, return_to_settings: false },
                SessionAction::ShowSettings,
            ),
            (Phase::AwaitingSelection, SessionEvent::ToggleSettings) => (
                Session { phase: Phase::Settings, return_to_settings: false },
                SessionAction::ShowSettings,
            ),
            (Phase::Settings, SessionEvent::ToggleSettings) => (
                Session { phase: Phase::Idle, return_to_settings: false },
                SessionAction::CloseSettings,
            ),
            _ => (self, SessionAction::Nothing),
        }
    }
}

/// Only a release with a non-degenerate selection leads to an export, and
/// only from the selection phase.
pub proof fn lemma_export_only_after_selection(s: Session, e: SessionEvent)
    ensures
        s.transition(e).1 == SessionAction::Export <==> s.phase == Phase::AwaitingSelection && e
            == SessionEvent::Released(true),
{
}

} // verus!
