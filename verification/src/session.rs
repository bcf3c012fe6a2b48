//! Capture session controller: keystroke dispatch, focus arithmetic, and
//! the record step.
//!
//! The interactive loop polls for a key, turns it into an action, and the
//! surrounding program performs the action: query or set the device focus,
//! or record the current frame into the label's directory. Focus values
//! are carried in thousandths of a focus unit, so the controller's
//! whole-unit steps are exact.

use crate::index_map::IndexMap;
use crate::names::{final_name, final_name_of};
use vstd::prelude::*;

verus! {

/// How keys are dispatched.
#[derive(Clone, Copy, Debug, PartialEq, Eq)]
pub enum OperatingMode {
    /// Live device: focus keys work, and only alphanumeric keys record.
    Interactive,
    /// File playback: no focus capability, and every key records.
    Batch,
}

/// What the session does with an observed key.
#[derive(Clone, Copy, Debug, PartialEq, Eq)]
pub enum KeyAction {
    /// Report the device's current focus.
    QueryFocus,
    /// Lower the focus one unit, clamped at zero.
    FocusDown,
    /// Raise the focus one unit.
    FocusUp,
    /// Record the current frame under this label.
    Record(char),
    /// Do nothing this iteration.
    Ignore,
}

/// One focus unit, in the thousandths carried by focus values.
pub const FOCUS_STEP: i64 = 1000;

/// Focus after one step down: the current value is first raised to the
/// floor of one unit, then lowered by one unit, so the result never goes
/// below zero.
pub open spec fn spec_focus_down(f: int) -> int {
    vstd::math::max(f, FOCUS_STEP as int) - FOCUS_STEP
}

/// Lower the focus by one unit, clamped at zero.
pub fn focus_down(f: i64) -> (r: i64)
    ensures
        r == spec_focus_down(f as int),
{
    if f <= FOCUS_STEP {
        0
    } else {
        f - FOCUS_STEP
    }
}

/// Raise the focus by one unit.
pub fn focus_up(f: i64) -> (r: i64)
    requires
        f + FOCUS_STEP <= i64::MAX,
    ensures
        r == f + FOCUS_STEP,
{
    f + FOCUS_STEP
}

/// A key that names a label directory in interactive mode: alphanumeric.
pub open spec fn is_label_key(c: char) -> bool {
    ||| 'a' as u32 <= c as u32 <= 'z' as u32
    ||| 'A' as u32 <= c as u32 <= 'Z' as u32
    ||| '0' as u32 <= c as u32 <= '9' as u32
}

/// The action each key maps to. In interactive mode carriage return
/// queries the focus, `-` and `+` step it, alphanumeric keys record, and
/// everything else is ignored; in batch mode every key records.
pub open spec fn spec_dispatch(mode: OperatingMode, c: char) -> KeyAction {
    match mode {
        OperatingMode::Batch => KeyAction::Record(c),
        OperatingMode::Interactive => if c == '\r' {
            KeyAction::QueryFocus
        } else if c == '-' {
            KeyAction::FocusDown
        } else if c == '+' {
            KeyAction::FocusUp
        } else if is_label_key(c) {
            KeyAction::Record(c)
        } else {
            KeyAction::Ignore
        },
    }
}

/// Dispatch an observed key to its action.
pub fn dispatch(mode: OperatingMode, c: char) -> (r: KeyAction)
    ensures
        r == spec_dispatch(mode, c),
{
    match mode {
        OperatingMode::Batch => KeyAction::Record(c),
        OperatingMode::Interactive => {
            if c == '\r' {
                KeyAction::QueryFocus
            } else if c == '-' {
                KeyAction::FocusDown
            } else if c == '+' {
                KeyAction::FocusUp
            } else {
                let v = c as u32;
                if (97 <= v && v <= 122) || (65 <= v && v <= 90) || (48 <= v && v <= 57) {
                    KeyAction::Record(c)
                } else {
                    KeyAction::Ignore
                }
            }
        },
    }
}

/// A Unicode scalar value: what a `char` can carry.
pub open spec fn is_unicode_scalar(v: u32) -> bool {
    v < 0xD800 || (0xE000 <= v && v <= 0x10FFFF)
}

/// Relies on char::from_u32: `Some` exactly on Unicode scalar values,
/// returning the character with that value.
#[verifier::external_body]
fn char_from_u32(v: u32) -> (r: Option<char>)
    ensures
        r is Some <==> is_unicode_scalar(v),
        r matches Some(c) ==> c as u32 == v,
{
    char::from_u32(v)
}

/// The character a polled key code stands for. Negative codes (among them
/// the poll timing out with no key) and codes outside the Unicode scalar
/// range mean no key.
pub fn key_to_char(key: i32) -> (r: Option<char>)
    ensures
        r is Some <==> (key >= 0 && is_unicode_scalar(key as u32)),
        r matches Some(c) ==> key >= 0 && c as u32 == key as u32,
{
    if key < 0 {
        None
    } else {
        char_from_u32(key as u32)
    }
}

/// Record one frame into the directory `dir`: take the directory's next
/// index, leaving its counter advanced past it, and name the sample
/// `<index>.png`. A directory not yet in the map starts at index zero.
/// The counter advances whether or not the caller's write then succeeds.
pub fn record_step(map: &mut IndexMap, dir: &String) -> (r: (u32, String))
    requires
        old(map).wf(),
        old(map)@.contains_key(dir@) ==> old(map)@[dir@] < u32::MAX,
    ensures
        final(map).wf(),
        r.0 == if old(map)@.contains_key(dir@) {
            old(map)@[dir@]
        } else {
            0u32
        },
        final(map)@ == old(map)@.insert(dir@, (r.0 + 1) as u32),
        r.1@ == final_name_of(r.0 as nat),
{
    let i = map.take_next(dir);
    let name = final_name(i);
    (i, name)
}

} // verus!
