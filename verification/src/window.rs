//! The window size that the terminal reports, and what to do when it may
//! have changed.
//!
//! Asking the terminal and waiting for its resize signal are the caller's
//! business. This module checks the four numbers that the terminal answered
//! with, and decides what a poll of the resize notifications calls for.

use vstd::prelude::*;

verus! {

/// Why a reported window size was refused.
#[derive(Debug, Clone, Copy, PartialEq, Eq)]
pub enum GetWindowSzError {
    /// One of the four sizes was zero or negative: the terminal does not
    /// report its size in both characters and pixels.
    InvalidSize,
}

impl GetWindowSzError {
    /// What the error says, in words.
    pub fn message(&self) -> (text: &'static str)
        ensures
            text@ == "Invalid size returned"@,
    {
        "Invalid size returned"
    }
}

/// What a poll of the resize notifications found.
#[derive(Debug, Clone, Copy, PartialEq, Eq)]
pub enum ResizePoll {
    /// No notification is waiting.
    Empty,
    /// The window was resized since the last poll, once or several times.
    Resized,
    /// The source of the notifications is gone.
    Disconnected,
}

/// What the caller's loop does after a poll.
#[derive(Debug, Clone, Copy, PartialEq, Eq)]
pub enum ResizeAction {
    /// Nothing changed: keep the size and poll again.
    Keep,
    /// Ask the terminal for its size again, then poll again.
    QuerySize,
    /// No notification can arrive any more: stop.
    Stop,
}

/// Whether the four sizes are all positive.
pub open spec fn valid_window_sz(columns: i32, rows: i32, width: i32, height: i32) -> bool {
    columns > 0 && rows > 0 && width > 0 && height > 0
}

/// Checks the window size that the terminal reported: columns and rows of
/// characters, width and height in pixels.
///
/// The size is handed back unchanged where all four numbers are positive,
/// and refused where any of them is not.
pub fn check_window_sz(columns: i32, rows: i32, width: i32, height: i32) -> (size: Result<
    (usize, usize, usize, usize),
    GetWindowSzError,
>)
    ensures
        match size {
            Ok(size) => {
                &&& valid_window_sz(columns, rows, width, height)
                &&& size.0 == columns
                &&& size.1 == rows
                &&& size.2 == width
                &&& size.3 == height
            },
            Err(error) => {
                &&& !valid_window_sz(columns, rows, width, height)
                &&& error == GetWindowSzError::InvalidSize
            },
        },
{
    if columns <= 0 || rows <= 0 || width <= 0 || height <= 0 {
        Err(GetWindowSzError::InvalidSize)
    } else {
        Ok((columns as usize, rows as usize, width as usize, height as usize))
    }
}

/// Decides what follows a poll of the resize notifications.
///
/// A notification means that the size must be asked for again, and nothing
/// more: several notifications between two polls call for one query.
pub fn resize_action(poll: ResizePoll) -> (action: ResizeAction)
    ensures
        action == (match poll {
            ResizePoll::Empty => ResizeAction::Keep,
            ResizePoll::Resized => ResizeAction::QuerySize,
            ResizePoll::Disconnected => ResizeAction::Stop,
        }),
{
    match poll {
        ResizePoll::Empty => ResizeAction::Keep,
        ResizePoll::Resized => ResizeAction::QuerySize,
        ResizePoll::Disconnected => ResizeAction::Stop,
    }
}

} // verus!
