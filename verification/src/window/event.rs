//! The events of a window, as the toolkit sees them.

use vstd::prelude::*;
use crate::math::vec2::Vec2;
use crate::render::font_render::FontId;
use crate::render::texture::TextureId;

verus! {

/// What the toolkit asks its host to do.
#[derive(Debug)]
pub enum OutputEvent {
    /// Give the window this title.
    SetWindowTitle(String),
    /// Give the window this size.
    Resize(Vec2),
    /// Move the window to this position.
    Move(Vec2),
    /// Show this cursor.
    SetCursorIcon(CursorIcon),
    /// Move the cursor to this position.
    SetCursorPosition(Vec2),
    /// Show or hide the cursor.
    SetCursorVisible(bool),
    /// Register a texture of this size with these pixels.
    RegisterTexture(Vec2, Vec<u8>),
    /// Give a texture this size and these pixels.
    UpdateTexture(TextureId, Vec2, Vec<u8>),
    /// Remove a texture.
    RemoveTexture(TextureId),
    /// Remove every texture.
    ClearTexture,
    /// Add the picture of a character to the texture of a font.
    AddChar(Vec<u8>, char, FontId),
    /// Remove a font.
    RemoveFont(FontId),
    /// Put this text on the clipboard.
    CopyToClipboard(String),
    /// Hand over what is on the clipboard.
    RequestClipboard,
}

/// A finger on the screen, as the window reports it.
#[derive(Clone, Copy, Debug, PartialEq, Eq, Structural)]
pub struct Touch {
    /// The id of the touch.
    pub id: u64,
    /// Where the finger is.
    pub pos: Vec2,
    /// The stage of the touch.
    pub phase: TouchPhase,
}

/// What the window reports. Positions and sizes are in whole logical
/// pixels: the host has divided them by the scale factor.
#[derive(Debug)]
pub enum WindowEvent {
    /// The window has this size now.
    Resized(Vec2),
    /// The user wants to close the window.
    CloseRequested,
    /// A file was dropped on the window.
    DroppedFile(String),
    /// A file is held over the window.
    HoveredFile(String),
    /// The file that was held over the window has left.
    HoveredFileCancelled,
    /// The window has gained or lost the focus.
    Focused(bool),
    /// A key went down.
    KeyPressed(Key),
    /// A key was let go.
    KeyReleased(Key),
    /// Text was typed.
    StringInput(String),
    /// An input method has taken over.
    ImeEnabled,
    /// What the input method reports.
    Ime(ImeEvent),
    /// The input method has left.
    ImeDisabled,
    /// The mouse is here now.
    MouseMoved(Vec2),
    /// The mouse has come into the window.
    MouseEntered,
    /// The mouse has left the window.
    MouseLeft,
    /// The wheel was turned by this much.
    MouseWheel(Vec2),
    /// A button of the mouse went down.
    MousePressed(MouseButton),
    /// A button of the mouse was let go.
    MouseReleased(MouseButton),
    /// A finger has come, moved or left.
    Touch(Touch),
    /// The scale factor of the window, in 256ths.
    ScaleFactor(i32),
    /// The colour scheme has changed.
    ThemeChanged(Theme),
    /// The window has to be drawn again.
    RedrawRequested,
    /// Something that the toolkit does not know.
    Unknown,
}

/// The shape of the mouse cursor.
#[derive(Clone, Copy, Debug, PartialEq, Eq, Structural)]
pub enum CursorIcon {
    Default,
    ContextMenu,
    Help,
    Pointer,
    Progress,
    Wait,
    Cell,
    Crosshair,
    Text,
    VerticalText,
    Alias,
    Copy,
    Move,
    NoDrop,
    NotAllowed,
    Grab,
    Grabbing,
    EResize,
    NResize,
    NeResize,
    NwResize,
    SResize,
    SeResize,
    SwResize,
    WResize,
    EwResize,
    NsResize,
    NeswResize,
    NwseResize,
    ColResize,
    RowResize,
    AllScroll,
    ZoomIn,
    ZoomOut,
}

/// What an input method reports.
#[derive(Debug)]
pub enum ImeEvent {
    /// The text that the user has settled on.
    Commit(String),
    /// The text that is being composed, and the part of it that is marked.
    Edit(String, Option<(usize, usize)>),
}

/// The colour scheme of the window.
#[derive(Clone, Copy, Debug, PartialEq, Eq, Hash, Structural)]
pub enum Theme {
    Dark,
    Light,
}

/// A button of the mouse.
#[derive(Clone, Copy, Debug, PartialEq, Eq, Hash, Structural)]
pub enum MouseButton {
    Left,
    Right,
    Middle,
    Back,
    Forward,
    Other(u16),
}

/// The stage of a touch.
#[derive(Clone, Copy, Debug, PartialEq, Eq, Structural)]
pub enum TouchPhase {
    Started,
    Moved,
    Ended,
    Cancelled,
}

/// A key of the keyboard, by its place on it.
#[derive(Clone, Copy, Debug, PartialEq, Eq, Hash, Structural)]
pub enum Key {
    KeyA,
    KeyB,
    KeyC,
    KeyD,
    KeyE,
    KeyF,
    KeyG,
    KeyH,
    KeyI,
    KeyJ,
    KeyK,
    KeyL,
    KeyM,
    KeyN,
    KeyO,
    KeyP,
    KeyQ,
    KeyR,
    KeyS,
    KeyT,
    KeyU,
    KeyV,
    KeyW,
    KeyX,
    KeyY,
    KeyZ,
    Key0,
    Key1,
    Key2,
    Key3,
    Key4,
    Key5,
    Key6,
    Key7,
    Key8,
    Key9,
    Num0,
    Num1,
    Num2,
    Num3,
    Num4,
    Num5,
    Num6,
    Num7,
    Num8,
    Num9,
    Escape,
    F1,
    F2,
    F3,
    F4,
    F5,
    F6,
    F7,
    F8,
    F9,
    F10,
    F11,
    F12,
    Backspace,
    Backslash,
    Backquote,
    BracketLeft,
    BracketRight,
    Comma,
    Delete,
    End,
    Enter,
    Equal,
    Grave,
    Home,
    Insert,
    KeypadAdd,
    KeypadDecimal,
    KeypadDivide,
    KeypadEnter,
    KeypadEqual,
    KeypadMultiply,
    KeypadSubtract,
    Menu,
    Minus,
    NumLock,
    PageDown,
    PageUp,
    Pause,
    Period,
    Quote,
    Return,
    ScrollLock,
    Semicolon,
    Slash,
    Tab,
    CapsLock,
    ControlLeft,
    ControlRight,
    ShiftLeft,
    ShiftRight,
    SuperLeft,
    SuperRight,
    AltLeft,
    AltRight,
    MetaLeft,
    MetaRight,
    Space,
    ArrawLeft,
    ArrawRight,
    ArrawUp,
    ArrawDown,
    Fn,
    FnLock,
    PrintScreen,
    Unknown(u32),
}

impl Key {
    /// The character that the key types without shift, and the one it
    /// types with shift; `None` for a key that types nothing.
    pub open spec fn typed(self) -> Option<(char, char)> {
        match self {
            Key::KeyA => Some(('a', 'A')),
            Key::KeyB => Some(('b', 'B')),
            Key::KeyC => Some(('c', 'C')),
            Key::KeyD => Some(('d', 'D')),
            Key::KeyE => Some(('e', 'E')),
            Key::KeyF => Some(('f', 'F')),
            Key::KeyG => Some(('g', 'G')),
            Key::KeyH => Some(('h', 'H')),
            Key::KeyI => Some(('i', 'I')),
            Key::KeyJ => Some(('j', 'J')),
            Key::KeyK => Some(('k', 'K')),
            Key::KeyL => Some(('l', 'L')),
            Key::KeyM => Some(('m', 'M')),
            Key::KeyN => Some(('n', 'N')),
            Key::KeyO => Some(('o', 'O')),
            Key::KeyP => Some(('p', 'P')),
            Key::KeyQ => Some(('q', 'Q')),
            Key::KeyR => Some(('r', 'R')),
            Key::KeyS => Some(('s', 'S')),
            Key::KeyT => Some(('t', 'T')),
            Key::KeyU => Some(('u', 'U')),
            Key::KeyV => Some(('v', 'V')),
            Key::KeyW => Some(('w', 'W')),
            Key::KeyX => Some(('x', 'X')),
            Key::KeyY => Some(('y', 'Y')),
            Key::KeyZ => Some(('z', 'Z')),
            Key::Key0 => Some(('0', ')')),
            Key::Key1 => Some(('1', '!')),
            Key::Key2 => Some(('2', '@')),
            Key::Key3 => Some(('3', '#')),
            Key::Key4 => Some(('4', '$')),
            Key::Key5 => Some(('5', '%')),
            Key::Key6 => Some(('6', '^')),
            Key::Key7 => Some(('7', '&')),
            Key::Key8 => Some(('8', '*')),
            Key::Key9 => Some(('9', '(')),
            Key::Num0 => Some(('0', '0')),
            Key::Num1 => Some(('1', '1')),
            Key::Num2 => Some(('2', '2')),
            Key::Num3 => Some(('3', '3')),
            Key::Num4 => Some(('4', '4')),
            Key::Num5 => Some(('5', '5')),
            Key::Num6 => Some(('6', '6')),
            Key::Num7 => Some(('7', '7')),
            Key::Num8 => Some(('8', '8')),
            Key::Num9 => Some(('9', '9')),
            Key::Escape => None,
            Key::F1 => None,
            Key::F2 => None,
            Key::F3 => None,
            Key::F4 => None,
            Key::F5 => None,
            Key::F6 => None,
            Key::F7 => None,
            Key::F8 => None,
            Key::F9 => None,
            Key::F10 => None,
            Key::F11 => None,
            Key::F12 => None,
            Key::Backspace => None,
            Key::Backslash => Some(('\\', '|')),
            Key::Backquote => Some(('`', '~')),
            Key::BracketLeft => Some(('[', '{')),
            Key::BracketRight => Some((']', '}')),
            Key::Comma => Some((',', '<')),
            Key::Delete => None,
            Key::End => None,
            Key::Enter => Some(('\n', '\n')),
            Key::Equal => Some(('=', '+')),
            Key::Grave => Some(('`', '~')),
            Key::Home => None,
            Key::Insert => None,
            Key::KeypadAdd => None,
            Key::KeypadDecimal => None,
            Key::KeypadDivide => None,
            Key::KeypadEnter => Some(('\n', '\n')),
            Key::KeypadEqual => None,
            Key::KeypadMultiply => None,
            Key::KeypadSubtract => None,
            Key::Menu => None,
            Key::Minus => Some(('-', '_')),
            Key::NumLock => None,
            Key::PageDown => None,
            Key::PageUp => None,
            Key::Pause => None,
            Key::Period => Some(('.', '>')),
            Key::Quote => Some(('\'', '"')),
            Key::Return => None,
            Key::ScrollLock => None,
            Key::Semicolon => Some((';', ':')),
            Key::Slash => Some(('/', '?')),
            Key::Tab => None,
            Key::CapsLock => None,
            Key::ControlLeft => None,
            Key::ControlRight => None,
            Key::ShiftLeft => None,
            Key::ShiftRight => None,
            Key::SuperLeft => None,
            Key::SuperRight => None,
            Key::AltLeft => None,
            Key::AltRight => None,
            Key::MetaLeft => None,
            Key::MetaRight => None,
            Key::Space => Some((' ', ' ')),
            Key::ArrawLeft => None,
            Key::ArrawRight => None,
            Key::ArrawUp => None,
            Key::ArrawDown => None,
            Key::Fn => None,
            Key::FnLock => None,
            Key::PrintScreen => None,
            Key::Unknown(_) => None,
        }
    }

    /// The character that the key types, with or without shift.
    pub open spec fn spec_get_char(&self, is_holding_shift: bool) -> Option<char> {
        match self.typed() {
            Some((plain, shifted)) => Some(
                if is_holding_shift {
                    shifted
                } else {
                    plain
                },
            ),
            None => None,
        }
    }

    /// The character that the key types, with or without shift; `None`
    /// for a key that types nothing.
    #[verifier::when_used_as_spec(spec_get_char)]
    pub fn get_char(&self, is_holding_shift: bool) -> (r: Option<char>)
        ensures
            r == self.spec_get_char(is_holding_shift),
    {
        match self {
            Key::KeyA => if is_holding_shift {
                Some('A')
            } else {
                Some('a')
            },
            Key::KeyB => if is_holding_shift {
                Some('B')
            } else {
                Some('b')
            },
            Key::KeyC => if is_holding_shift {
                Some('C')
            } else {
                Some('c')
            },
            Key::KeyD => if is_holding_shift {
                Some('D')
            } else {
                Some('d')
            },
            Key::KeyE => if is_holding_shift {
                Some('E')
            } else {
                Some('e')
            },
            Key::KeyF => if is_holding_shift {
                Some('F')
            } else {
                Some('f')
            },
            Key::KeyG => if is_holding_shift {
                Some('G')
            } else {
                Some('g')
            },
            Key::KeyH => if is_holding_shift {
                Some('H')
            } else {
                Some('h')
            },
            Key::KeyI => if is_holding_shift {
                Some('I')
            } else {
                Some('i')
            },
            Key::KeyJ => if is_holding_shift {
                Some('J')
            } else {
                Some('j')
            },
            Key::KeyK => if is_holding_shift {
                Some('K')
            } else {
                Some('k')
            },
            Key::KeyL => if is_holding_shift {
                Some('L')
            } else {
                Some('l')
            },
            Key::KeyM => if is_holding_shift {
                Some('M')
            } else {
                Some('m')
            },
            Key::KeyN => if is_holding_shift {
                Some('N')
            } else {
                Some('n')
            },
            Key::KeyO => if is_holding_shift {
                Some('O')
            } else {
                Some('o')
            },
            Key::KeyP => if is_holding_shift {
                Some('P')
            } else {
                Some('p')
            },
            Key::KeyQ => if is_holding_shift {
                Some('Q')
            } else {
                Some('q')
            },
            Key::KeyR => if is_holding_shift {
                Some('R')
            } else {
                Some('r')
            },
            Key::KeyS => if is_holding_shift {
                Some('S')
            } else {
                Some('s')
            },
            Key::KeyT => if is_holding_shift {
                Some('T')
            } else {
                Some('t')
            },
            Key::KeyU => if is_holding_shift {
                Some('U')
            } else {
                Some('u')
            },
            Key::KeyV => if is_holding_shift {
                Some('V')
            } else {
                Some('v')
            },
            Key::KeyW => if is_holding_shift {
                Some('W')
            } else {
                Some('w')
            },
            Key::KeyX => if is_holding_shift {
                Some('X')
            } else {
                Some('x')
            },
            Key::KeyY => if is_holding_shift {
                Some('Y')
            } else {
                Some('y')
            },
            Key::KeyZ => if is_holding_shift {
                Some('Z')
            } else {
                Some('z')
            },
            Key::Key0 => if is_holding_shift {
                Some(')')
            } else {
                Some('0')
            },
            Key::Key1 => if is_holding_shift {
                Some('!')
            } else {
                Some('1')
            },
            Key::Key2 => if is_holding_shift {
                Some('@')
            } else {
                Some('2')
            },
            Key::Key3 => if is_holding_shift {
                Some('#')
            } else {
                Some('3')
            },
            Key::Key4 => if is_holding_shift {
                Some('$')
            } else {
                Some('4')
            },
            Key::Key5 => if is_holding_shift {
                Some('%')
            } else {
                Some('5')
            },
            Key::Key6 => if is_holding_shift {
                Some('^')
            } else {
                Some('6')
            },
            Key::Key7 => if is_holding_shift {
                Some('&')
            } else {
                Some('7')
            },
            Key::Key8 => if is_holding_shift {
                Some('*')
            } else {
                Some('8')
            },
            Key::Key9 => if is_holding_shift {
                Some('(')
            } else {
                Some('9')
            },
            Key::Num0 => Some('0'),
            Key::Num1 => Some('1'),
            Key::Num2 => Some('2'),
            Key::Num3 => Some('3'),
            Key::Num4 => Some('4'),
            Key::Num5 => Some('5'),
            Key::Num6 => Some('6'),
            Key::Num7 => Some('7'),
            Key::Num8 => Some('8'),
            Key::Num9 => Some('9'),
            Key::Escape => None,
            Key::F1 => None,
            Key::F2 => None,
            Key::F3 => None,
            Key::F4 => None,
            Key::F5 => None,
            Key::F6 => None,
            Key::F7 => None,
            Key::F8 => None,
            Key::F9 => None,
            Key::F10 => None,
            Key::F11 => None,
            Key::F12 => None,
            Key::Backspace => None,
            Key::Backslash => if is_holding_shift {
                Some('|')
            } else {
                Some('\\')
            },
            Key::Backquote => if is_holding_shift {
                Some('~')
            } else {
                Some('`')
            },
            Key::BracketLeft => if is_holding_shift {
                Some('{')
            } else {
                Some('[')
            },
            Key::BracketRight => if is_holding_shift {
                Some('}')
            } else {
                Some(']')
            },
            Key::Comma => if is_holding_shift {
                Some('<')
            } else {
                Some(',')
            },
            Key::Delete => None,
            Key::End => None,
            Key::Enter => Some('\n'),
            Key::Equal => if is_holding_shift {
                Some('+')
            } else {
                Some('=')
            },
            Key::Grave => if is_holding_shift {
                Some('~')
            } else {
                Some('`')
            },
            Key::Home => None,
            Key::Insert => None,
            Key::KeypadAdd => None,
            Key::KeypadDecimal => None,
            Key::KeypadDivide => None,
            Key::KeypadEnter => Some('\n'),
            Key::KeypadEqual => None,
            Key::KeypadMultiply => None,
            Key::KeypadSubtract => None,
            Key::Menu => None,
            Key::Minus => if is_holding_shift {
                Some('_')
            } else {
                Some('-')
            },
            Key::NumLock => None,
            Key::PageDown => None,
            Key::PageUp => None,
            Key::Pause => None,
            Key::Period => if is_holding_shift {
                Some('>')
            } else {
                Some('.')
            },
            Key::Quote => if is_holding_shift {
                Some('"')
            } else {
                Some('\'')
            },
            Key::Return => None,
            Key::ScrollLock => None,
            Key::Semicolon => if is_holding_shift {
                Some(':')
            } else {
                Some(';')
            },
            Key::Slash => if is_holding_shift {
                Some('?')
            } else {
                Some('/')
            },
            Key::Tab => None,
            Key::CapsLock => None,
            Key::ControlLeft => None,
            Key::ControlRight => None,
            Key::ShiftLeft => None,
            Key::ShiftRight => None,
            Key::SuperLeft => None,
            Key::SuperRight => None,
            Key::AltLeft => None,
            Key::AltRight => None,
            Key::MetaLeft => None,
            Key::MetaRight => None,
            Key::Space => Some(' '),
            Key::ArrawLeft => None,
            Key::ArrawRight => None,
            Key::ArrawUp => None,
            Key::ArrawDown => None,
            Key::Fn => None,
            Key::FnLock => None,
            Key::PrintScreen => None,
            Key::Unknown(_) => None,
        }
    }
}

} // verus!
