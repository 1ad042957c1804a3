//! User actions, the colours and effects the painter knows, and the painter
//! interface itself.
use vstd::prelude::*;

verus! {

/// What the user asked for.
#[derive(Clone, Copy, Debug, PartialEq, Eq, Structural)]
pub enum Action {
    Up,
    Down,
    Left,
    Right,
    UpAlt,
    DownAlt,
    LeftAlt,
    RightAlt,
    PgUp,
    PgDown,
    NextDifference,
    PrevDifference,
    NextInsertion,
    PrevInsertion,
    Quit,
    Unalign,
    Align,
    Help,
    Algorithm,
    Refresh,
    Goto,
    Search,
    SetOffset,
    NextSearch,
    PrevSearch,
    Top,
    Bottom,
    CursorFirst,
    CursorBoth,
    CursorSecond,
    AddColumn,
    RemoveColumn,
    AutoColumn,
    ResetColumn,
    StartSelection,
    ClearSelection,
}

/// A key as the terminal reports it.
#[derive(Clone, Copy, Debug, PartialEq, Eq, Structural)]
pub enum Key {
    Char(char),
    Up,
    Down,
    Left,
    Right,
    PageUp,
    PageDown,
    Home,
    End,
    Esc,
    /// a function key, by its number
    F(u8),
    /// any other key
    Other,
}

/// A terminal event, reduced to what the viewer reacts to.
#[derive(Clone, Copy, Debug, PartialEq, Eq, Structural)]
pub enum Event {
    /// the terminal changed its size
    Resize,
    /// a key, with whether Control and Shift were held
    Key(Key, bool, bool),
    /// mouse, focus and paste events
    Ignored,
}

/// The action bound to a plain character key.
pub open spec fn char_action(c: char) -> Option<Action> {
    if c == ' ' || c == 'J' { Some(Action::NextDifference) }
    else if c == 'K' { Some(Action::PrevDifference) }
    else if c == 'q' { Some(Action::Quit) }
    else if c == '?' || c == '1' { Some(Action::Help) }
    else if c == 'r' || c == '5' { Some(Action::Refresh) }
    else if c == 'a' { Some(Action::CursorFirst) }
    else if c == 's' { Some(Action::CursorBoth) }
    else if c == 'd' { Some(Action::CursorSecond) }
    else if c == 'h' { Some(Action::LeftAlt) }
    else if c == 'j' { Some(Action::DownAlt) }
    else if c == 'k' { Some(Action::UpAlt) }
    else if c == 'l' { Some(Action::RightAlt) }
    else if c == 'n' { Some(Action::NextSearch) }
    else if c == 'N' { Some(Action::PrevSearch) }
    else if c == 'o' { Some(Action::SetOffset) }
    else if c == '2' { Some(Action::Unalign) }
    else if c == '3' { Some(Action::Align) }
    else if c == '4' { Some(Action::Algorithm) }
    else if c == '6' { Some(Action::Goto) }
    else if c == '7' { Some(Action::Search) }
    else if c == ']' { Some(Action::AddColumn) }
    else if c == '[' { Some(Action::RemoveColumn) }
    else if c == '=' { Some(Action::AutoColumn) }
    else if c == '0' { Some(Action::ResetColumn) }
    else if c == 'v' { Some(Action::StartSelection) }
    else if c == 'c' { Some(Action::ClearSelection) }
    else { None }
}

/// The action bound to function key `n`.
pub open spec fn function_key_action(n: u8) -> Option<Action> {
    if n == 1 { Some(Action::Help) }
    else if n == 2 { Some(Action::Unalign) }
    else if n == 3 { Some(Action::Align) }
    else if n == 4 { Some(Action::Algorithm) }
    else if n == 5 { Some(Action::Refresh) }
    else if n == 6 { Some(Action::Goto) }
    else if n == 7 { Some(Action::Search) }
    else { None }
}

/// The key bindings: Control turns the forward keys into the next
/// insertion and the backward keys into the previous one; Shift on the
/// arrows jumps to differences.
pub open spec fn key_action(key: Key, control: bool, shift: bool) -> Option<Action> {
    match key {
        Key::Char(c) => if control && (c == ' ' || c == 'j') {
            Some(Action::NextInsertion)
        } else if control && c == 'k' {
            Some(Action::PrevInsertion)
        } else {
            char_action(c)
        },
        Key::Down => if control {
            Some(Action::NextInsertion)
        } else if shift {
            Some(Action::NextDifference)
        } else {
            Some(Action::Down)
        },
        Key::Up => if control {
            Some(Action::PrevInsertion)
        } else if shift {
            Some(Action::PrevDifference)
        } else {
            Some(Action::Up)
        },
        Key::Left => Some(Action::Left),
        Key::Right => Some(Action::Right),
        Key::PageDown => Some(Action::PgDown),
        Key::PageUp => Some(Action::PgUp),
        Key::Esc => Some(Action::Quit),
        Key::Home => Some(Action::Top),
        Key::End => Some(Action::Bottom),
        Key::F(n) => function_key_action(n),
        Key::Other => None,
    }
}

fn action_for_char(c: char) -> (r: Option<Action>)
    ensures
        r == char_action(c),
{
    match c {
        ' ' | 'J' => Some(Action::NextDifference),
        'K' => Some(Action::PrevDifference),
        'q' => Some(Action::Quit),
        '?' | '1' => Some(Action::Help),
        'r' | '5' => Some(Action::Refresh),
        'a' => Some(Action::CursorFirst),
        's' => Some(Action::CursorBoth),
        'd' => Some(Action::CursorSecond),
        'h' => Some(Action::LeftAlt),
        'j' => Some(Action::DownAlt),
        'k' => Some(Action::UpAlt),
        'l' => Some(Action::RightAlt),
        'n' => Some(Action::NextSearch),
        'N' => Some(Action::PrevSearch),
        'o' => Some(Action::SetOffset),
        '2' => Some(Action::Unalign),
        '3' => Some(Action::Align),
        '4' => Some(Action::Algorithm),
        '6' => Some(Action::Goto),
        '7' => Some(Action::Search),
        ']' => Some(Action::AddColumn),
        '[' => Some(Action::RemoveColumn),
        '=' => Some(Action::AutoColumn),
        '0' => Some(Action::ResetColumn),
        'v' => Some(Action::StartSelection),
        'c' => Some(Action::ClearSelection),
        _ => None,
    }
}

impl Action {
    /// The action for a terminal event; `Err` for events without one.
    pub fn try_from(value: Event) -> (r: Result<Action, ()>)
        ensures
            match value {
                Event::Resize => r == Ok::<Action, ()>(Action::Refresh),
                Event::Key(key, control, shift) => match key_action(key, control, shift) {
                    Some(a) => r == Ok::<Action, ()>(a),
                    None => r is Err,
                },
                Event::Ignored => r is Err,
            },
    {
        let (key, control, shift) = match value {
            Event::Resize => return Ok(Action::Refresh),
            Event::Key(key, control, shift) => (key, control, shift),
            Event::Ignored => return Err(()),
        };
        let action = match key {
            Key::Char(c) => if control && (c == ' ' || c == 'j') {
                Some(Action::NextInsertion)
            } else if control && c == 'k' {
                Some(Action::PrevInsertion)
            } else {
                action_for_char(c)
            },
            Key::Down => if control {
                Some(Action::NextInsertion)
            } else if shift {
                Some(Action::NextDifference)
            } else {
                Some(Action::Down)
            },
            Key::Up => if control {
                Some(Action::PrevInsertion)
            } else if shift {
                Some(Action::PrevDifference)
            } else {
                Some(Action::Up)
            },
            Key::Left => Some(Action::Left),
            Key::Right => Some(Action::Right),
            Key::PageDown => Some(Action::PgDown),
            Key::PageUp => Some(Action::PgUp),
            Key::Esc => Some(Action::Quit),
            Key::Home => Some(Action::Top),
            Key::End => Some(Action::Bottom),
            Key::F(n) => match n {
                1 => Some(Action::Help),
                2 => Some(Action::Unalign),
                3 => Some(Action::Align),
                4 => Some(Action::Algorithm),
                5 => Some(Action::Refresh),
                6 => Some(Action::Goto),
                7 => Some(Action::Search),
                _ => None,
            },
            Key::Other => None,
        };
        match action {
            Some(a) => Ok(a),
            None => Err(()),
        }
    }
}

/// Foreground colours of the hex view.
#[derive(Clone, Copy, Debug, PartialEq, Eq, Structural)]
pub enum Color {
    Unimportant,
    HexSame,
    HexSameSecondary,
    HexDiff,
    HexDiffSecondary,
    HexOneside,
    HexOnesideSecondary,
}

/// Background colours of the hex view.
#[derive(Clone, Copy, Debug, PartialEq, Eq, Structural)]
pub enum BackgroundColor {
    Blank,
    Highlight,
}

/// A text effect: reverse video, bold, or neither.
#[derive(Clone, Copy, Debug, PartialEq, Eq, Structural)]
pub struct Effect {
    pub inverted: bool,
    pub bold: bool,
}

impl Effect {
    /// Plain text.
    pub fn none() -> (r: Effect)
        ensures
            !r.inverted && !r.bold,
    {
        Effect { inverted: false, bold: false }
    }

    /// Reverse video.
    pub fn inverted() -> (r: Effect)
        ensures
            r.inverted && !r.bold,
    {
        Effect { inverted: true, bold: false }
    }
}

/// A surface the view paints on.
pub trait Backend {
    /// moves to start of given line and initializes background color
    fn set_line(&mut self, line: usize);

    /// moves to a position
    fn set_pos(&mut self, column: usize, line: usize);

    /// appends text with given text and color to current line
    fn append_text(&mut self, text: &str, color: Color, bg: BackgroundColor, effect: Effect);

    /// returns wether the terminal has the ability to scroll
    fn can_scroll(&self) -> bool;

    /// scrolls amount (positive moves content of terminal up)
    fn scroll(&mut self, amount: isize);

    /// refreshes the screen after content has been queued
    fn refresh(&mut self);

    /// gets the dimensions of the display
    fn size(&mut self) -> (usize, usize);

    /// clears display
    fn clear(&mut self);
}

/// A painter that paints nothing, with a display of no size.
pub struct Dummy;

impl Backend for Dummy {
    fn set_line(&mut self, line: usize) {
    }

    fn set_pos(&mut self, column: usize, line: usize) {
    }

    fn append_text(&mut self, text: &str, color: Color, bg: BackgroundColor, effect: Effect) {
    }

    fn can_scroll(&self) -> bool {
        false
    }

    fn scroll(&mut self, amount: isize) {
    }

    fn refresh(&mut self) {
    }

    fn size(&mut self) -> (usize, usize) {
        (0, 0)
    }

    fn clear(&mut self) {
    }
}

} // verus!
