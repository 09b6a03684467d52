//! The floating window that the plugin opens and closes.
use vstd::prelude::*;

verus! {

/// What the position of a window is measured from.
#[derive(Clone, Copy, Debug, PartialEq, Eq)]
pub enum WindowAnchor {
    Cursor,
}

/// The size and the position of a floating window.
#[derive(Clone, Copy, Debug, PartialEq, Eq)]
pub struct WindowLayout {
    pub relative: WindowAnchor,
    pub height: u32,
    pub width: u32,
    pub row: u32,
    pub col: u32,
}

/// Who asks for the window: a Lua function, or an editor command.
#[derive(Clone, Copy, Debug, PartialEq, Eq)]
pub enum Opener {
    Function,
    Command,
}

/// The layout of the window: five rows below the cursor, wide for a function and
/// narrow for a command.
pub open spec fn layout_for(opener: Opener) -> WindowLayout {
    WindowLayout {
        relative: WindowAnchor::Cursor,
        height: 5,
        width: match opener {
            Opener::Function => 50,
            Opener::Command => 10,
        },
        row: 1,
        col: 0,
    }
}

/// The place of the one window, of type `T`, that may be open.
pub struct WindowSlot<T> {
    window: Option<T>,
}

impl<T> WindowSlot<T> {
    /// The window that is open.
    pub closed spec fn window(self) -> Option<T> {
        self.window
    }

    /// A slot without a window.
    pub fn new() -> (slot: WindowSlot<T>)
        ensures
            slot.window() is None,
    {
        WindowSlot { window: None }
    }

    /// The layout in which a window is to be opened, or the message that one is open
    /// already.
    pub fn open_window(&self, opener: Opener) -> (result: Result<WindowLayout, &'static str>)
        ensures
            match result {
                Ok(layout) => self.window() is None && layout == layout_for(opener),
                Err(message) => self.window() is Some && message@ == "Window is already open"@,
            },
    {
        if self.window.is_some() {
            return Err("Window is already open");
        }
        let width: u32 = match opener {
            Opener::Function => 50,
            Opener::Command => 10,
        };
        Ok(WindowLayout { relative: WindowAnchor::Cursor, height: 5, width, row: 1, col: 0 })
    }

    /// Keeps the window that has been opened.
    pub fn opened(&mut self, window: T)
        ensures
            final(self).window() == Some(window),
    {
        self.window = Some(window);
    }

    /// Hands out the window that is to be closed, or the message that none is open. No
    /// window is open afterwards.
    pub fn close_window(&mut self) -> (result: Result<T, &'static str>)
        ensures
            match result {
                Ok(window) => old(self).window() == Some(window),
                Err(message) => old(self).window() is None && message@
                    == "Window is already closed"@,
            },
            final(self).window() is None,
    {
        match self.window.take() {
            Some(window) => Ok(window),
            None => Err("Window is already closed"),
        }
    }
}

/// Whoever asks, the window has five rows and stands right below the cursor; a function
/// gets fifty columns, and a command ten.
pub proof fn law_window_stands_below_cursor(opener: Opener)
    ensures
        layout_for(opener).relative is Cursor,
        layout_for(opener).height == 5,
        layout_for(opener).row == 1,
        layout_for(opener).col == 0,
        opener is Function ==> layout_for(opener).width == 50,
        opener is Command ==> layout_for(opener).width == 10,
{
}

} // verus!
