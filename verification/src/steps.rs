//! The minimize and the restore command, step by step. Each step takes what
//! the last action brought and says what to do next; the caller carries the
//! actions out against the window manager and the backing file.

use vstd::prelude::*;
use crate::record::MinimizedWindow;
use crate::workflow::{
    active_window, current_workspace, focus_on, focus_target, hidden_target, hide_target,
    minimize_target, minimized_record, move_to_workspace, option_view, record_for, workspace_of,
    workspace_target, ActiveWindow,
};

verus! {

/// How far a minimize has come.
#[derive(Debug, PartialEq, Eq)]
pub enum MinimizeState {
    /// Nothing was done yet.
    Start,
    /// The window manager was asked for the active window.
    Asked,
    /// A preview of the window is being captured.
    Capturing(ActiveWindow),
    /// The window manager was told to move the window away.
    Hiding(MinimizedWindow),
    /// Nothing is left to do.
    Finished,
}

/// What the last action of a minimize brought.
#[derive(Debug, PartialEq, Eq)]
pub enum MinimizeEvent {
    /// The command was given.
    Begin,
    /// The window manager's answer about the active window, or `None` where
    /// it gave none.
    Answered(Option<String>),
    /// Where the thumbnail lies, or `None` where the capture failed.
    Captured(Option<String>),
    /// Whether the window manager moved the window away.
    Moved(bool),
}

/// What a minimize asks of its caller.
#[derive(Debug, PartialEq, Eq)]
pub enum MinimizeAction {
    /// Ask the window manager for the active window.
    AskActiveWindow,
    /// Capture a preview of the window.
    Capture { window_id: String, geometry: String },
    /// Tell the window manager to move the window to `target`, silently.
    Hide { target: String },
    /// Add the record to the registry, save it and tell the status bar.
    Insert(MinimizedWindow),
    /// Do nothing more.
    Stop,
}

/// Takes a minimize one step further.
///
/// The active window is asked for first. Where there is none to minimize,
/// the command ends. A preview is captured where position and size are
/// known; with or without one the window is then moved away, and only where
/// that move succeeded is its record handed out for the registry. An event
/// that does not answer the last action ends the command.
pub fn minimize_step(state: MinimizeState, event: MinimizeEvent) -> (r: (
    MinimizeState,
    MinimizeAction,
))
    ensures
        match (state, event) {
            (MinimizeState::Start, MinimizeEvent::Begin) => {
                &&& r.0 is Asked
                &&& r.1 is AskActiveWindow
            },
            (MinimizeState::Asked, MinimizeEvent::Answered(answer)) => match minimize_target(
                option_view(answer),
            ) {
                Some(window) => match window.geometry {
                    Some(geometry) => {
                        &&& r.0 matches MinimizeState::Capturing(w)
                        &&& w@ == window
                        &&& r.1 matches MinimizeAction::Capture { window_id, geometry: g }
                        &&& window_id@ == window.address
                        &&& g@ == geometry
                    },
                    None => {
                        &&& r.0 matches MinimizeState::Hiding(record)
                        &&& record@ == record_for(window, None)
                        &&& r.1 matches MinimizeAction::Hide { target }
                        &&& target@ == hidden_target(window.address)
                    },
                },
                None => r.0 is Finished && r.1 is Stop,
            },
            (MinimizeState::Capturing(window), MinimizeEvent::Captured(preview)) => {
                &&& r.0 matches MinimizeState::Hiding(record)
                &&& record@ == record_for(window@, option_view(preview))
                &&& r.1 matches MinimizeAction::Hide { target }
                &&& target@ == hidden_target(window@.address)
            },
            (MinimizeState::Hiding(record), MinimizeEvent::Moved(moved)) => {
                &&& r.0 is Finished
                &&& if moved {
                    r.1 matches MinimizeAction::Insert(kept) && kept@ == record@
                } else {
                    r.1 is Stop
                }
            },
            _ => r.0 is Finished && r.1 is Stop,
        },
{
    match (state, event) {
        (MinimizeState::Start, MinimizeEvent::Begin) => (
            MinimizeState::Asked,
            MinimizeAction::AskActiveWindow,
        ),
        (MinimizeState::Asked, MinimizeEvent::Answered(answer)) => {
            let found = match &answer {
                Some(text) => active_window(Some(text.as_str())),
                None => active_window(None),
            };
            match found {
                Some(window) => match &window.geometry {
                    Some(geometry) => {
                        let action = MinimizeAction::Capture {
                            window_id: window.address.clone(),
                            geometry: geometry.clone(),
                        };
                        (MinimizeState::Capturing(window), action)
                    },
                    None => hide_window(&window, None),
                },
                None => (MinimizeState::Finished, MinimizeAction::Stop),
            }
        },
        (MinimizeState::Capturing(window), MinimizeEvent::Captured(preview)) => hide_window(
            &window,
            preview,
        ),
        (MinimizeState::Hiding(record), MinimizeEvent::Moved(moved)) => {
            if moved {
                (MinimizeState::Finished, MinimizeAction::Insert(record))
            } else {
                (MinimizeState::Finished, MinimizeAction::Stop)
            }
        },
        _ => (MinimizeState::Finished, MinimizeAction::Stop),
    }
}

/// Builds the record of `window` and asks for the window to be moved away.
fn hide_window(window: &ActiveWindow, preview: Option<String>) -> (r: (MinimizeState, MinimizeAction))
    ensures
        r.0 matches MinimizeState::Hiding(record) && record@ == record_for(
            window@,
            option_view(preview),
        ),
        r.1 matches MinimizeAction::Hide { target } && target@ == hidden_target(window@.address),
{
    let record = minimized_record(window, preview);
    let target = hide_target(window.address.as_str());
    (MinimizeState::Hiding(record), MinimizeAction::Hide { target })
}

/// How far a restore has come. Each state but the last holds the address of
/// the window that is restored.
#[derive(Debug, PartialEq, Eq)]
pub enum RestoreState {
    /// Nothing was done yet.
    Start(String),
    /// The window manager was asked for the active workspace.
    Asked(String),
    /// The window manager was told to move the window to the workspace.
    Moving(String),
    /// The window manager was told to focus the window.
    Focusing(String),
    /// Nothing is left to do.
    Finished,
}

/// What the last action of a restore brought.
#[derive(Debug, PartialEq, Eq)]
pub enum RestoreEvent {
    /// The command was given.
    Begin,
    /// The window manager's answer about the active workspace, or `None`
    /// where it gave none.
    Answered(Option<String>),
    /// Whether the window manager did what it was told.
    Dispatched(bool),
}

/// What a restore asks of its caller.
#[derive(Debug, PartialEq, Eq)]
pub enum RestoreAction {
    /// Ask the window manager for the active workspace.
    AskActiveWorkspace,
    /// Tell the window manager to move the window to `target`.
    Move { target: String },
    /// Tell the window manager to focus `target`.
    Focus { target: String },
    /// Take the records with this address out of the registry, save it and
    /// tell the status bar.
    Remove { address: String },
    /// Do nothing more.
    Stop,
}

/// Takes a restore one step further.
///
/// The active workspace is asked for first; without an answer the window
/// goes to workspace 1. The window is moved there and then focused, and its
/// record leaves the registry whatever the window manager made of the two.
/// An event that does not answer the last action ends the command.
pub fn restore_step(state: RestoreState, event: RestoreEvent) -> (r: (RestoreState, RestoreAction))
    ensures
        match (state, event) {
            (RestoreState::Start(address), RestoreEvent::Begin) => {
                &&& r.0 matches RestoreState::Asked(a)
                &&& a@ == address@
                &&& r.1 is AskActiveWorkspace
            },
            (RestoreState::Asked(address), RestoreEvent::Answered(answer)) => {
                &&& r.0 matches RestoreState::Moving(a)
                &&& a@ == address@
                &&& r.1 matches RestoreAction::Move { target }
                &&& target@ == workspace_target(workspace_of(option_view(answer)), address@)
            },
            (RestoreState::Moving(address), RestoreEvent::Dispatched(_)) => {
                &&& r.0 matches RestoreState::Focusing(a)
                &&& a@ == address@
                &&& r.1 matches RestoreAction::Focus { target }
                &&& target@ == focus_target(address@)
            },
            (RestoreState::Focusing(address), RestoreEvent::Dispatched(_)) => {
                &&& r.0 is Finished
                &&& r.1 matches RestoreAction::Remove { address: a }
                &&& a@ == address@
            },
            _ => r.0 is Finished && r.1 is Stop,
        },
{
    match (state, event) {
        (RestoreState::Start(address), RestoreEvent::Begin) => (
            RestoreState::Asked(address),
            RestoreAction::AskActiveWorkspace,
        ),
        (RestoreState::Asked(address), RestoreEvent::Answered(answer)) => {
            let workspace = match &answer {
                Some(text) => current_workspace(Some(text.as_str())),
                None => current_workspace(None),
            };
            let target = move_to_workspace(workspace, address.as_str());
            (RestoreState::Moving(address), RestoreAction::Move { target })
        },
        (RestoreState::Moving(address), RestoreEvent::Dispatched(_)) => {
            let target = focus_on(address.as_str());
            (RestoreState::Focusing(address), RestoreAction::Focus { target })
        },
        (RestoreState::Focusing(address), RestoreEvent::Dispatched(_)) => (
            RestoreState::Finished,
            RestoreAction::Remove { address },
        ),
        _ => (RestoreState::Finished, RestoreAction::Stop),
    }
}

} // verus!
