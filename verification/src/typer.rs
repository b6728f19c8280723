//! Typing the transcription: whether and how to type it, and the keyboard
//! events that type a text as Unicode key strokes.

use vstd::prelude::*;
use vstd::string::StringExecFns;

use crate::text::chars_of;

verus! {

broadcast use vstd::seq_lib::group_seq_properties;

/// The UTF-16 code units of one character: the code point itself below
/// U+10000, else a high and a low surrogate.
pub open spec fn utf16_units(c: char) -> Seq<u16> {
    let u = c as u32;
    if u < 0x10000 {
        seq![u as u16]
    } else {
        seq![(0xd800 + (u - 0x10000) / 0x400) as u16, (0xdc00 + (u - 0x10000) % 0x400) as u16]
    }
}

/// The UTF-16 encoding of a string.
pub open spec fn utf16_of(s: Seq<char>) -> Seq<u16>
    decreases s.len(),
{
    if s.len() == 0 {
        Seq::empty()
    } else {
        utf16_of(s.drop_last()) + utf16_units(s.last())
    }
}

/// One keyboard event that types a UTF-16 unit.
#[derive(Debug, Clone, Copy, PartialEq, Eq, Structural)]
pub struct KeyEvent {
    /// The UTF-16 unit typed.
    pub unit: u16,
    /// Whether the key is released (else pressed).
    pub key_up: bool,
}

/// A key press then a key release for each unit, in order.
pub open spec fn key_strokes(units: Seq<u16>) -> Seq<KeyEvent>
    decreases units.len(),
{
    if units.len() == 0 {
        Seq::empty()
    } else {
        key_strokes(units.drop_last()) + seq![
            KeyEvent { unit: units.last(), key_up: false },
            KeyEvent { unit: units.last(), key_up: true },
        ]
    }
}

/// Appends the UTF-16 units of `c`.
fn push_utf16(out: &mut Vec<u16>, c: char)
    ensures
        final(out)@ == old(out)@ + utf16_units(c),
{
    let u: u32 = c as u32;
    if u < 0x10000 {
        out.push(u as u16);
    } else {
        let v: u32 = u - 0x10000;
        out.push((0xd800 + v / 0x400) as u16);
        out.push((0xdc00 + v % 0x400) as u16);
    }
    proof {
        assert(final(out)@ =~= old(out)@ + utf16_units(c));
    }
}

/// The UTF-16 encoding of `text`.
pub fn encode_utf16(text: &str) -> (units: Vec<u16>)
    ensures
        units@ == utf16_of(text@),
{
    let chars = chars_of(text);
    let mut units: Vec<u16> = Vec::new();
    let mut i: usize = 0;
    while i < chars.len()
        invariant
            i <= chars@.len(),
            chars@ == text@,
            units@ == utf16_of(chars@.take(i as int)),
        decreases chars@.len() - i,
    {
        push_utf16(&mut units, chars[i]);
        proof {
            assert(chars@.take(i + 1).drop_last() =~= chars@.take(i as int));
        }
        i = i + 1;
    }
    proof {
        assert(chars@.take(chars@.len() as int) =~= chars@);
    }
    units
}

/// The keyboard events that type `text`: for each of its UTF-16 units a
/// key press and a key release carrying that unit.
pub fn unicode_inputs(text: &str) -> (events: Vec<KeyEvent>)
    ensures
        events@ == key_strokes(utf16_of(text@)),
{
    let units = encode_utf16(text);
    let mut events: Vec<KeyEvent> = Vec::new();
    let mut i: usize = 0;
    while i < units.len()
        invariant
            i <= units@.len(),
            events@ == key_strokes(units@.take(i as int)),
        decreases units@.len() - i,
    {
        let unit = units[i];
        events.push(KeyEvent { unit, key_up: false });
        events.push(KeyEvent { unit, key_up: true });
        proof {
            assert(units@.take(i + 1).drop_last() =~= units@.take(i as int));
            assert(events@ =~= key_strokes(units@.take(i + 1)));
        }
        i = i + 1;
    }
    proof {
        assert(units@.take(units@.len() as int) =~= units@);
    }
    events
}

/// How a transcription gets typed.
#[derive(Debug, Clone, Copy, PartialEq, Eq, Structural)]
pub enum TyperPlan {
    /// Nothing to type.
    Nothing,
    /// Type through the platform's own keyboard injection.
    Native,
    /// Run the configured command and write the text to its input.
    Spawn,
}

/// The complaint about an empty typer command where the platform has no
/// keyboard injection of its own.
pub open spec fn empty_command_message() -> Seq<char> {
    "typer command is empty"@
}

/// Chooses how to type `text`: an empty text is not typed; with no
/// command the platform's keyboard injection types it where there is one
/// (`native_available`), else that is an error; with a command, the
/// command is run.
pub fn typer_plan(command: &[String], text: &str, native_available: bool) -> (res: Result<
    TyperPlan,
    String,
>)
    ensures
        text@.len() == 0 ==> res == Ok::<TyperPlan, String>(TyperPlan::Nothing),
        text@.len() > 0 && command@.len() == 0 && native_available ==> res == Ok::<
            TyperPlan,
            String,
        >(TyperPlan::Native),
        text@.len() > 0 && command@.len() == 0 && !native_available ==> (res matches Err(m)
            && m@ == empty_command_message()),
        text@.len() > 0 && command@.len() > 0 ==> res == Ok::<TyperPlan, String>(TyperPlan::Spawn),
{
    if text.is_empty() {
        return Ok(TyperPlan::Nothing);
    }
    if command.len() == 0 {
        if native_available {
            return Ok(TyperPlan::Native);
        }
        return Err(String::from_str("typer command is empty"));
    }
    Ok(TyperPlan::Spawn)
}

} // verus!
