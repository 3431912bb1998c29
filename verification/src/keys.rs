use vstd::prelude::*;

use crate::canvas::after_clear;
use crate::canvas::Canvas;
use crate::pen::clamped;
use crate::pen::Pen;

verus! {

/// The X keysym of Escape.
pub const KEY_ESCAPE: u32 = 0xff1b;

/// The X keysym of `q`.
pub const KEY_Q: u32 = 0x0071;

/// The X keysym of `Q`.
pub const KEY_Q_UPPER: u32 = 0x0051;

/// The X keysym of `c`.
pub const KEY_C: u32 = 0x0063;

/// The X keysym of `C`.
pub const KEY_C_UPPER: u32 = 0x0043;

/// The X keysym of `+`.
pub const KEY_PLUS: u32 = 0x002b;

/// The X keysym of `+` on the keypad.
pub const KEY_KP_ADD: u32 = 0xffab;

/// The X keysym of `=`, which shares its key with `+` on many layouts.
pub const KEY_EQUAL: u32 = 0x003d;

/// The X keysym of `-`.
pub const KEY_MINUS: u32 = 0x002d;

/// The X keysym of `-` on the keypad.
pub const KEY_KP_SUBTRACT: u32 = 0xffad;

/// What a key press asks of the overlay.
#[derive(PartialEq, Eq, Structural, Debug, Clone, Copy)]
pub enum KeyCommand {
    /// Leave the overlay.
    Quit,
    /// Take away every stroke.
    Clear,
    /// Make the pen one pixel thicker.
    Thicker,
    /// Make the pen one pixel thinner.
    Thinner,
    /// Not a key of the overlay: let it through.
    Pass,
}

/// The command bound to a key: Escape and `q` quit, `c` clears, `+` and
/// `=` thicken the pen, `-` thins it, in either case and on the keypad.
pub open spec fn command_of(keyval: u32) -> KeyCommand {
    if keyval == KEY_ESCAPE || keyval == KEY_Q || keyval == KEY_Q_UPPER {
        KeyCommand::Quit
    } else if keyval == KEY_C || keyval == KEY_C_UPPER {
        KeyCommand::Clear
    } else if keyval == KEY_PLUS || keyval == KEY_KP_ADD || keyval == KEY_EQUAL {
        KeyCommand::Thicker
    } else if keyval == KEY_MINUS || keyval == KEY_KP_SUBTRACT {
        KeyCommand::Thinner
    } else {
        KeyCommand::Pass
    }
}

/// The command bound to the key with keysym `keyval`.
pub fn command_for_key(keyval: u32) -> (c: KeyCommand)
    ensures
        c == command_of(keyval),
{
    if keyval == KEY_ESCAPE || keyval == KEY_Q || keyval == KEY_Q_UPPER {
        KeyCommand::Quit
    } else if keyval == KEY_C || keyval == KEY_C_UPPER {
        KeyCommand::Clear
    } else if keyval == KEY_PLUS || keyval == KEY_KP_ADD || keyval == KEY_EQUAL {
        KeyCommand::Thicker
    } else if keyval == KEY_MINUS || keyval == KEY_KP_SUBTRACT {
        KeyCommand::Thinner
    } else {
        KeyCommand::Pass
    }
}

/// Handles a key press: clears the canvas or changes the pen as the key
/// asks, and returns the command so that the caller can quit, repaint or
/// let the key through.
pub fn apply_key<S, P>(canvas: &mut Canvas<S, P>, pen: &mut Pen, keyval: u32) -> (c: KeyCommand)
    ensures
        c == command_of(keyval),
        final(canvas)@ == (if c == KeyCommand::Clear {
            after_clear(old(canvas)@)
        } else {
            old(canvas)@
        }),
        final(pen)@ == (match c {
            KeyCommand::Thicker => clamped(old(pen)@ + 1),
            KeyCommand::Thinner => clamped(old(pen)@ - 1),
            _ => old(pen)@,
        }),
{
    let c = command_for_key(keyval);
    match c {
        KeyCommand::Clear => canvas.clear(),
        KeyCommand::Thicker => pen.thicker(),
        KeyCommand::Thinner => pen.thinner(),
        _ => {},
    }
    c
}

/// Only Escape, `q` and `Q` quit; only `c` and `C` clear; only `+`, `=` and
/// keypad `+` thicken; only `-` and keypad `-` thin; every other key is let
/// through and changes nothing.
pub proof fn lemma_key_bindings(k: u32)
    ensures
        command_of(k) == KeyCommand::Quit <==> (k == 0xff1b || k == 'q' as u32 || k == 'Q' as u32),
        command_of(k) == KeyCommand::Clear <==> (k == 'c' as u32 || k == 'C' as u32),
        command_of(k) == KeyCommand::Thicker <==> (k == '+' as u32 || k == '=' as u32 || k
            == 0xffab),
        command_of(k) == KeyCommand::Thinner <==> (k == '-' as u32 || k == 0xffad),
        command_of(k) == KeyCommand::Pass <==> !(k == 0xff1b || k == 'q' as u32 || k == 'Q' as u32
            || k == 'c' as u32 || k == 'C' as u32 || k == '+' as u32 || k == '=' as u32 || k
            == 0xffab || k == '-' as u32 || k == 0xffad),
{
}

} // verus!
