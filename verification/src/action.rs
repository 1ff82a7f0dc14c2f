//! What the session logic asks the program around it to do.

use vstd::prelude::*;
use crate::bridge::BridgeCommand;
use crate::capture::CameraControls;
use crate::recorder::{Category, Record};

verus! {

/// Why a connection is closed.
#[derive(Debug, Clone, Copy, PartialEq, Eq, Structural)]
pub enum CloseReason {
    OperatorQuit,
    HelloIncompatible,
}

impl CloseReason {
    pub open spec fn number(self) -> u64 {
        match self {
            CloseReason::OperatorQuit => 0,
            CloseReason::HelloIncompatible => 1,
        }
    }

    pub open spec fn words(self) -> Seq<char> {
        match self {
            CloseReason::OperatorQuit => "operator quit"@,
            CloseReason::HelloIncompatible => "HELLO_INCOMPATIBLE"@,
        }
    }

    pub fn code(self) -> (n: u64)
        ensures
            n == self.number(),
    {
        match self {
            CloseReason::OperatorQuit => 0,
            CloseReason::HelloIncompatible => 1,
        }
    }

    pub fn text(self) -> (s: &'static str)
        ensures
            s@ == self.words(),
    {
        match self {
            CloseReason::OperatorQuit => "operator quit",
            CloseReason::HelloIncompatible => "HELLO_INCOMPATIBLE",
        }
    }
}

/// One thing to do. Actions are done in the order in which they are asked for.
#[derive(Debug)]
pub enum Action {
    StreamSend { stream_id: u64, bytes: Vec<u8> },
    DatagramSend { bytes: Vec<u8> },
    Close { reason: CloseReason },
    /// Give the emergency-stop stream its priority.
    PrioritizeEstop,
    Store { category: Category, record: Record },
    SetRecording { category: Category, active: bool },
    Drive(BridgeCommand),
    ApplyCamera(CameraControls),
    ShowVideo { bytes: Vec<u8>, is_critical: bool },
    ShowOverlay { text: String },
    /// Write the list of profiles seen so far.
    SaveProfiles { text: String },
    SaveFrame,
    Render,
}

/// An action as a mathematical value.
pub enum ActionView {
    StreamSend { stream_id: u64, bytes: Seq<u8> },
    DatagramSend { bytes: Seq<u8> },
    Close { reason: CloseReason },
    PrioritizeEstop,
    Store { category: Category, capture_us: u64, control_source: u8, payload: Seq<u8> },
    SetRecording { category: Category, active: bool },
    Drive(BridgeCommand),
    ApplyCamera(CameraControls),
    ShowVideo { bytes: Seq<u8>, is_critical: bool },
    ShowOverlay { text: Seq<char> },
    SaveProfiles { text: Seq<char> },
    SaveFrame,
    Render,
}

impl View for Action {
    type V = ActionView;

    open spec fn view(&self) -> ActionView {
        match self {
            Action::StreamSend { stream_id, bytes } => ActionView::StreamSend {
                stream_id: *stream_id,
                bytes: bytes@,
            },
            Action::DatagramSend { bytes } => ActionView::DatagramSend { bytes: bytes@ },
            Action::Close { reason } => ActionView::Close { reason: *reason },
            Action::PrioritizeEstop => ActionView::PrioritizeEstop,
            Action::Store { category, record } => ActionView::Store {
                category: *category,
                capture_us: record.capture_us,
                control_source: record.control_source,
                payload: record.payload@,
            },
            Action::SetRecording { category, active } => ActionView::SetRecording {
                category: *category,
                active: *active,
            },
            Action::Drive(command) => ActionView::Drive(*command),
            Action::ApplyCamera(controls) => ActionView::ApplyCamera(*controls),
            Action::ShowVideo { bytes, is_critical } => ActionView::ShowVideo {
                bytes: bytes@,
                is_critical: *is_critical,
            },
            Action::ShowOverlay { text } => ActionView::ShowOverlay { text: text@ },
            Action::SaveProfiles { text } => ActionView::SaveProfiles { text: text@ },
            Action::SaveFrame => ActionView::SaveFrame,
            Action::Render => ActionView::Render,
        }
    }
}

pub open spec fn views(actions: Seq<Action>) -> Seq<ActionView> {
    Seq::new(actions.len(), |i: int| actions[i]@)
}

pub fn ask(actions: &mut Vec<Action>, action: Action)
    ensures
        views(final(actions)@) == views(old(actions)@).push(action@),
{
    actions.push(action);
    proof {
        assert(views(actions@) =~= views(old(actions)@).push(action@));
    }
}

/// No actions yet.
pub fn nothing() -> (actions: Vec<Action>)
    ensures
        views(actions@) == Seq::<ActionView>::empty(),
{
    let actions: Vec<Action> = Vec::new();
    proof {
        assert(views(actions@) =~= Seq::<ActionView>::empty());
    }
    actions
}

/// Appends what `more` asks for.
pub fn append(actions: &mut Vec<Action>, more: &mut Vec<Action>)
    ensures
        views(final(actions)@) == views(old(actions)@) + views(old(more)@),
        final(more)@ == Seq::<Action>::empty(),
{
    actions.append(more);
    proof {
        assert(views(actions@) =~= views(old(actions)@) + views(old(more)@));
    }
}

/// One action.
pub fn just(action: Action) -> (actions: Vec<Action>)
    ensures
        views(actions@) == seq![action@],
{
    let mut actions: Vec<Action> = Vec::new();
    actions.push(action);
    proof {
        assert(views(actions@) =~= seq![action@]);
    }
    actions
}

/// A copy of some bytes.
pub fn copied(bytes: &[u8]) -> (out: Vec<u8>)
    ensures
        out@ == bytes@,
{
    let mut out: Vec<u8> = Vec::new();
    out.extend_from_slice(bytes);
    proof {
        assert(out@ =~= bytes@);
    }
    out
}

/// What the other end is told when a connection is closed.
pub proof fn lemma_close_reasons()
    ensures
        CloseReason::OperatorQuit.number() == 0,
        CloseReason::OperatorQuit.words() == "operator quit"@,
        CloseReason::HelloIncompatible.number() == 1,
        CloseReason::HelloIncompatible.words() == "HELLO_INCOMPATIBLE"@,
{
}

} // verus!
