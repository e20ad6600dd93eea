//! Native console mouse records: button transitions, motion and wheel turns
//! become mouse events at host cells.
use vstd::prelude::*;
use crate::input::{KeyModifiers, MouseButton, MouseEvent, MouseEventKind};
use crate::session::console::{console_modifiers, spec_console_modifiers};

verus! {

/// Event flags of a console mouse record.
pub open spec fn mouse_moved() -> u32 {
    0x1
}

pub open spec fn double_click() -> u32 {
    0x2
}

pub open spec fn mouse_wheeled() -> u32 {
    0x4
}

pub open spec fn mouse_hwheeled() -> u32 {
    0x8
}

/// The button of a state bit: 1 left, 2 right, otherwise middle.
pub open spec fn mask_button(mask: u32) -> MouseButton {
    if mask == 1 {
        MouseButton::Left
    } else if mask == 2 {
        MouseButton::Right
    } else {
        MouseButton::Middle
    }
}

/// The first of the bits 1, 2, 4 set in `bits`.
pub open spec fn first_button(bits: u32) -> Option<u32> {
    if bits & 1 != 0 {
        Some(1u32)
    } else if bits & 2 != 0 {
        Some(2u32)
    } else if bits & 4 != 0 {
        Some(4u32)
    } else {
        None
    }
}

/// The wheel delta in the high word of the button state.
pub open spec fn wheel_delta(state: u32) -> i16 {
    (state >> 16u32) as u16 as i16
}

/// The kind of event a record describes, given the buttons held before.
pub open spec fn record_kind(held: u32, state: u32, flags: u32) -> Option<MouseEventKind> {
    let buttons = state & 0xffff;
    let wheel = wheel_delta(state);
    if flags == mouse_wheeled() && wheel > 0 {
        Some(MouseEventKind::ScrollUp)
    } else if flags == mouse_wheeled() && wheel < 0 {
        Some(MouseEventKind::ScrollDown)
    } else if flags == mouse_hwheeled() && wheel > 0 {
        Some(MouseEventKind::ScrollRight)
    } else if flags == mouse_hwheeled() && wheel < 0 {
        Some(MouseEventKind::ScrollLeft)
    } else if flags == mouse_moved() {
        match first_button(buttons) {
            Some(mask) => Some(MouseEventKind::Drag(mask_button(mask))),
            None => Some(MouseEventKind::Moved),
        }
    } else if flags == 0 || flags == double_click() {
        match first_button(buttons ^ held) {
            Some(mask) => if buttons & mask != 0 {
                Some(MouseEventKind::Down(mask_button(mask)))
            } else {
                Some(MouseEventKind::Up(mask_button(mask)))
            },
            None => None,
        }
    } else {
        None
    }
}

/// The buttons held, to tell presses from releases.
pub struct ConsoleMouse {
    pub buttons: u32,
}

fn first_button_exec(bits: u32) -> (r: Option<u32>)
    ensures
        r == first_button(bits),
{
    if bits & 1 != 0 {
        Some(1u32)
    } else if bits & 2 != 0 {
        Some(2u32)
    } else if bits & 4 != 0 {
        Some(4u32)
    } else {
        None
    }
}

fn mask_button_exec(mask: u32) -> (b: MouseButton)
    ensures
        b == mask_button(mask),
{
    if mask == 1 {
        MouseButton::Left
    } else if mask == 2 {
        MouseButton::Right
    } else {
        MouseButton::Middle
    }
}

impl ConsoleMouse {
    pub fn new() -> (m: ConsoleMouse)
        ensures
            m.buttons == 0,
    {
        ConsoleMouse { buttons: 0 }
    }

    /// The kind of event in a record; the buttons now held are remembered.
    pub fn decode_kind(&mut self, state: u32, flags: u32) -> (k: Option<MouseEventKind>)
        ensures
            k == record_kind(old(self).buttons, state, flags),
            final(self).buttons == state & 0xffff,
    {
        let buttons = state & 0xffff;
        let wheel = (state >> 16u32) as u16 as i16;
        let kind = if flags == 0x4 && wheel > 0 {
            Some(MouseEventKind::ScrollUp)
        } else if flags == 0x4 && wheel < 0 {
            Some(MouseEventKind::ScrollDown)
        } else if flags == 0x8 && wheel > 0 {
            Some(MouseEventKind::ScrollRight)
        } else if flags == 0x8 && wheel < 0 {
            Some(MouseEventKind::ScrollLeft)
        } else if flags == 0x1 {
            match first_button_exec(buttons) {
                Some(mask) => Some(MouseEventKind::Drag(mask_button_exec(mask))),
                None => Some(MouseEventKind::Moved),
            }
        } else if flags == 0 || flags == 0x2 {
            match first_button_exec(buttons ^ self.buttons) {
                Some(mask) => if buttons & mask != 0 {
                    Some(MouseEventKind::Down(mask_button_exec(mask)))
                } else {
                    Some(MouseEventKind::Up(mask_button_exec(mask)))
                },
                None => None,
            }
        } else {
            None
        };
        self.buttons = buttons;
        kind
    }
}

/// A mouse event at the host cell of a console position, relative to the
/// window's top-left corner; positions left of or above it give none.
pub open spec fn positioned(kind: MouseEventKind, x: i16, y: i16, left: i16, top: i16, state: u32) -> Option<
    MouseEvent,
> {
    let column = x - left;
    let row = y - top;
    if column < 0 || row < 0 {
        None
    } else {
        Some(
            MouseEvent {
                kind,
                column: column as u16,
                row: row as u16,
                modifiers: spec_console_modifiers(state),
            },
        )
    }
}

pub fn position_event(kind: MouseEventKind, x: i16, y: i16, left: i16, top: i16, state: u32) -> (e:
    Option<MouseEvent>)
    requires
        i16::MIN <= x - left <= i16::MAX,
        i16::MIN <= y - top <= i16::MAX,
    ensures
        e == positioned(kind, x, y, left, top, state),
{
    let column = x - left;
    let row = y - top;
    if column < 0 || row < 0 {
        return None;
    }
    Some(
        MouseEvent {
            kind,
            column: column as u16,
            row: row as u16,
            modifiers: console_modifiers(state),
        },
    )
}

} // verus!
