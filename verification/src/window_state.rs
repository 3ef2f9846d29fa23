//! The main window's saved state and where the window first appears.

use vstd::prelude::*;
use crate::text::str_eq;

verus! {

/// A window rectangle by its edges, in screen pixels.
#[derive(Copy, Clone, Default, Debug)]
pub struct Position {
    pub left: i32,
    pub top: i32,
    pub right: i32,
    pub bottom: i32,
}

/// What the client remembers of its window between runs.
#[derive(Copy, Clone, Default, Debug)]
pub struct WindowState {
    pub fullscreen: bool,
    pub position: Position,
}

impl Position {
    /// The horizontal extent fits an `i32`.
    pub open spec fn width_fits(&self) -> bool {
        i32::MIN <= self.right - self.left <= i32::MAX
    }

    /// The vertical extent fits an `i32`.
    pub open spec fn height_fits(&self) -> bool {
        i32::MIN <= self.bottom - self.top <= i32::MAX
    }

    /// `right - left`.
    pub fn width(&self) -> (r: i32)
        requires
            self.width_fits(),
        ensures
            r == self.right - self.left,
    {
        self.right - self.left
    }

    /// `bottom - top`.
    pub fn height(&self) -> (r: i32)
        requires
            self.height_fits(),
        ensures
            r == self.bottom - self.top,
    {
        self.bottom - self.top
    }
}

/// A window rectangle by its corner and size.
#[derive(Copy, Clone, Debug)]
pub struct Bounds {
    pub x: i32,
    pub y: i32,
    pub width: i32,
    pub height: i32,
}

/// The size of a window with no usable saved state.
pub const DEFAULT_WIDTH: i32 = 1600;
/// The size of a window with no usable saved state.
pub const DEFAULT_HEIGHT: i32 = 900;

/// The saved rectangle when it has a positive size, else a default-sized
/// window at the origin.
pub open spec fn bounds_for(state: Option<WindowState>) -> Bounds {
    match state {
        Some(s) if s.position.right - s.position.left > 0 && s.position.bottom - s.position.top > 0 => Bounds {
            x: s.position.left,
            y: s.position.top,
            width: (s.position.right - s.position.left) as i32,
            height: (s.position.bottom - s.position.top) as i32,
        },
        _ => Bounds { x: 0, y: 0, width: DEFAULT_WIDTH, height: DEFAULT_HEIGHT },
    }
}

/// Where the main window first appears.
pub fn initial_bounds(state: Option<WindowState>) -> (r: Bounds)
    requires
        state matches Some(s) ==> s.position.width_fits() && s.position.height_fits(),
    ensures
        r == bounds_for(state),
{
    match state {
        Some(s) if s.position.width() > 0 && s.position.height() > 0 => Bounds {
            x: s.position.left,
            y: s.position.top,
            width: s.position.width(),
            height: s.position.height(),
        },
        _ => Bounds { x: 0, y: 0, width: DEFAULT_WIDTH, height: DEFAULT_HEIGHT },
    }
}

/// A saved rectangle with a positive width and height is where the window
/// first appears, at its own corner wherever that lies (left of or above the
/// primary screen too) and with its own size.
pub proof fn lemma_saved_rectangle_is_kept(s: WindowState)
    requires
        s.position.width_fits(),
        s.position.height_fits(),
        s.position.right - s.position.left > 0,
        s.position.bottom - s.position.top > 0,
    ensures
        bounds_for(Some(s)).x == s.position.left,
        bounds_for(Some(s)).y == s.position.top,
        bounds_for(Some(s)).width == s.position.right - s.position.left,
        bounds_for(Some(s)).height == s.position.bottom - s.position.top,
{
}

/// With no saved state, or a saved rectangle without a positive width and
/// height, the window appears at the origin, 1600 by 900.
pub proof fn lemma_default_rectangle(state: Option<WindowState>)
    requires
        state matches Some(s) ==> s.position.right - s.position.left <= 0 || s.position.bottom - s.position.top <= 0,
    ensures
        bounds_for(state).x == 0,
        bounds_for(state).y == 0,
        bounds_for(state).width == 1600,
        bounds_for(state).height == 900,
{
}

/// How the main window is first shown.
#[derive(Copy, Clone, Debug, PartialEq, Eq)]
pub enum ShowState {
    Normal,
    Maximized,
    Fullscreen,
}

/// The show state that a start mode setting asks for.
pub open spec fn show_state_for(start_mode: Seq<char>) -> ShowState {
    if start_mode == "Maximized"@ {
        ShowState::Maximized
    } else if start_mode == "Borderless Fullscreen"@ {
        ShowState::Fullscreen
    } else {
        ShowState::Normal
    }
}

/// `Maximized` starts the window maximized, `Borderless Fullscreen` starts
/// it fullscreen, and every other start mode starts it normally.
pub proof fn lemma_show_states(mode: Seq<char>)
    ensures
        show_state_for("Maximized"@) == ShowState::Maximized,
        show_state_for("Borderless Fullscreen"@) == ShowState::Fullscreen,
        mode != "Maximized"@ && mode != "Borderless Fullscreen"@ ==> show_state_for(mode) == ShowState::Normal,
{
    reveal_strlit("Maximized");
    reveal_strlit("Borderless Fullscreen");
    assert("Maximized"@.len() != "Borderless Fullscreen"@.len());
}

/// How the main window is first shown, by the start mode setting.
pub fn initial_show_state(start_mode: &str) -> (r: ShowState)
    ensures
        r == show_state_for(start_mode@),
{
    if str_eq(start_mode, "Maximized") {
        ShowState::Maximized
    } else if str_eq(start_mode, "Borderless Fullscreen") {
        ShowState::Fullscreen
    } else {
        ShowState::Normal
    }
}

/// Only a borderless fullscreen window has no frame.
pub fn is_frameless(start_mode: &str) -> (r: bool)
    ensures
        r == (start_mode@ == "Borderless Fullscreen"@),
{
    str_eq(start_mode, "Borderless Fullscreen")
}

/// The start modes that place the window where it was saved.
pub fn uses_saved_position(start_mode: &str) -> (r: bool)
    ensures
        r == (start_mode@ == "Remember Previous"@ || start_mode@ == "Custom"@),
{
    str_eq(start_mode, "Remember Previous") || str_eq(start_mode, "Custom")
}

} // verus!
