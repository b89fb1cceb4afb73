//! Actions: the invokable units of behavior that triggers are bound to.
//!
//! An action is pure data at the table level: a tagged description of what
//! the engine should do when the trigger fires (mutate client state, send a
//! message to the active layout, spawn an external process, or exit).

use vstd::prelude::*;

verus! {

/// A message sent to the active layout algorithm.
#[derive(Clone, Copy, Debug, PartialEq, Eq, Structural)]
pub enum LayoutMsg {
    /// Change the number of windows in the main area by the given delta.
    IncMain(i32),
    /// Grow the main area by one ratio step.
    ExpandMain,
    /// Shrink the main area by one ratio step.
    ShrinkMain,
}

/// An operation on the window-manager client state.
#[derive(Clone, Debug, PartialEq, Eq)]
pub enum ClientOp {
    /// Move focus to the next client in the stack.
    FocusDown,
    /// Move focus to the previous client in the stack.
    FocusUp,
    /// Swap the focused client with the next one.
    SwapDown,
    /// Swap the focused client with the previous one.
    SwapUp,
    /// Close the focused client.
    KillFocused,
    /// Toggle between the current and previously focused workspace tag.
    ToggleTag,
    /// Move focus to the screen with the given index.
    FocusScreen(usize),
    /// Move the focused client to the screen with the given index.
    MoveFocusedToScreen(usize),
    /// Switch the focused workspace to its next layout.
    NextLayout,
    /// Switch the focused workspace to its previous layout.
    PreviousLayout,
    /// Switch focus to the workspace with the given tag.
    FocusTag(String),
    /// Move the focused client to the workspace with the given tag.
    MoveFocusedToTag(String),
    /// Sink the focused client back into the tiled layer.
    SinkFocused,
}

/// Spec-level mirror of [`ClientOp`], with tag names as character sequences.
pub enum ClientOpV {
    /// Mirror of [`ClientOp::FocusDown`].
    FocusDown,
    /// Mirror of [`ClientOp::FocusUp`].
    FocusUp,
    /// Mirror of [`ClientOp::SwapDown`].
    SwapDown,
    /// Mirror of [`ClientOp::SwapUp`].
    SwapUp,
    /// Mirror of [`ClientOp::KillFocused`].
    KillFocused,
    /// Mirror of [`ClientOp::ToggleTag`].
    ToggleTag,
    /// Mirror of [`ClientOp::FocusScreen`].
    FocusScreen(usize),
    /// Mirror of [`ClientOp::MoveFocusedToScreen`].
    MoveFocusedToScreen(usize),
    /// Mirror of [`ClientOp::NextLayout`].
    NextLayout,
    /// Mirror of [`ClientOp::PreviousLayout`].
    PreviousLayout,
    /// Mirror of [`ClientOp::FocusTag`].
    FocusTag(Seq<char>),
    /// Mirror of [`ClientOp::MoveFocusedToTag`].
    MoveFocusedToTag(Seq<char>),
    /// Mirror of [`ClientOp::SinkFocused`].
    SinkFocused,
}

impl View for ClientOp {
    type V = ClientOpV;

    open spec fn view(&self) -> ClientOpV {
        match self {
            ClientOp::FocusDown => ClientOpV::FocusDown,
            ClientOp::FocusUp => ClientOpV::FocusUp,
            ClientOp::SwapDown => ClientOpV::SwapDown,
            ClientOp::SwapUp => ClientOpV::SwapUp,
            ClientOp::KillFocused => ClientOpV::KillFocused,
            ClientOp::ToggleTag => ClientOpV::ToggleTag,
            ClientOp::FocusScreen(i) => ClientOpV::FocusScreen(*i),
            ClientOp::MoveFocusedToScreen(i) => ClientOpV::MoveFocusedToScreen(*i),
            ClientOp::NextLayout => ClientOpV::NextLayout,
            ClientOp::PreviousLayout => ClientOpV::PreviousLayout,
            ClientOp::FocusTag(t) => ClientOpV::FocusTag(t@),
            ClientOp::MoveFocusedToTag(t) => ClientOpV::MoveFocusedToTag(t@),
            ClientOp::SinkFocused => ClientOpV::SinkFocused,
        }
    }
}

/// An invokable behavior bound to a trigger.
#[derive(Clone, Debug, PartialEq, Eq)]
pub enum Action {
    /// Run an operation on the client state.
    Modify(ClientOp),
    /// Send a message to the active layout algorithm.
    SendLayoutMessage(LayoutMsg),
    /// Spawn the given external command.
    Spawn(String),
    /// Request a clean shutdown of the window manager.
    Exit,
}

/// Spec-level mirror of [`Action`].
pub enum ActionV {
    /// Mirror of [`Action::Modify`].
    Modify(ClientOpV),
    /// Mirror of [`Action::SendLayoutMessage`].
    SendLayoutMessage(LayoutMsg),
    /// Mirror of [`Action::Spawn`].
    Spawn(Seq<char>),
    /// Mirror of [`Action::Exit`].
    Exit,
}

impl View for Action {
    type V = ActionV;

    open spec fn view(&self) -> ActionV {
        match self {
            Action::Modify(op) => ActionV::Modify(op@),
            Action::SendLayoutMessage(m) => ActionV::SendLayoutMessage(*m),
            Action::Spawn(cmd) => ActionV::Spawn(cmd@),
            Action::Exit => ActionV::Exit,
        }
    }
}

/// An invokable behavior bound to a mouse trigger.
#[derive(Clone, Copy, Debug, PartialEq, Eq, Structural)]
pub enum MouseAction {
    /// Drag the window under the pointer as a floating window.
    DragFloating,
    /// Resize the window under the pointer as a floating window.
    ResizeFloating,
}

} // verus!
