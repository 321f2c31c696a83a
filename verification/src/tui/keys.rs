//! Key presses, as far as the interactive view tells them apart.

use vstd::prelude::*;

verus! {

/// Which key was pressed.
#[derive(Debug, Clone, Copy, PartialEq, Eq, Structural)]
pub enum KeyCode {
    /// The up arrow.
    Up,
    /// The down arrow.
    Down,
    /// Enter.
    Enter,
    /// Escape.
    Esc,
    /// Backspace.
    Backspace,
    /// A key that types a character.
    Char(char),
    /// Any other key.
    Other,
}

/// A key event.
#[derive(Debug, Clone, Copy, PartialEq, Eq, Structural)]
pub struct Key {
    /// Which key it is about.
    pub code: KeyCode,
    /// Whether Ctrl was held.
    pub control: bool,
    /// Whether the key went down (rather than up, or repeated).
    pub press: bool,
}

impl Key {
    /// Ctrl-C.
    pub open spec fn interrupts(self) -> bool {
        (self.code == KeyCode::Char('c') || self.code == KeyCode::Char('C')) && self.control
    }

    /// One of the keys that leave the main view: `q`, Esc, Ctrl-C.
    pub open spec fn quits(self) -> bool {
        ||| self.code == KeyCode::Char('q')
        ||| self.code == KeyCode::Char('Q')
        ||| self.code == KeyCode::Esc
        ||| self.interrupts()
    }

    /// Whether the key is Ctrl-C.
    pub fn is_interrupt(&self) -> (r: bool)
        ensures
            r == self.interrupts(),
    {
        match self.code {
            KeyCode::Char(c) => (c == 'c' || c == 'C') && self.control,
            _ => false,
        }
    }

    /// Whether the key leaves the main view.
    pub fn is_global_quit(&self) -> (r: bool)
        ensures
            r == self.quits(),
    {
        match self.code {
            KeyCode::Char(c) => c == 'q' || c == 'Q' || ((c == 'c' || c == 'C') && self.control),
            KeyCode::Esc => true,
            _ => false,
        }
    }
}


/// Exactly `q`, `Q`, Esc and Ctrl with `c` or `C` leave the main view, and of
/// these only the last interrupts.
pub proof fn law_keys_that_leave(key: Key)
    ensures
        match key.code {
            KeyCode::Char(c) => {
                &&& key.interrupts() <==> key.control && (c == 'c' || c == 'C')
                &&& key.quits() <==> c == 'q' || c == 'Q' || key.control && (c == 'c' || c == 'C')
            },
            KeyCode::Esc => key.quits() && !key.interrupts(),
            _ => !key.quits() && !key.interrupts(),
        },
{
}

} // verus!
