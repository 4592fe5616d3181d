//! The halt path: what the kernel reports on the debug console when a fatal
//! condition stops the machine.
//!
//! The report is one line of ASCII text: `PANIC: `, the message of the
//! condition, and a line feed. A trap's cause, value and program counter are
//! printed in lower-case hexadecimal without leading zeros.

use vstd::prelude::*;
use vstd::string::*;
use crate::common_func::{console_putchar, putchar};
use crate::types::{Fatal, SbiCall};

verus! {

/// The bytes of an ASCII text.
pub open spec fn ascii(text: Seq<char>) -> Seq<u8> {
    Seq::new(text.len(), |i: int| text[i] as u8)
}

/// The character for one hexadecimal digit.
pub open spec fn hex_digit(d: nat) -> u8 {
    if d < 10 {
        ('0' as u8 + d) as u8
    } else {
        ('a' as u8 + d - 10) as u8
    }
}

/// `v` in hexadecimal, most significant digit first, without leading zeros.
pub open spec fn hex(v: nat) -> Seq<u8>
    decreases v,
{
    if v < 16 {
        seq![hex_digit(v)]
    } else {
        hex(v / 16).push(hex_digit(v % 16))
    }
}

/// The message that names a fatal condition.
pub open spec fn message(fatal: Fatal) -> Seq<u8> {
    match fatal {
        Fatal::OutOfMemory => ascii("out of memory"@),
        Fatal::NoFreeProcessSlots => ascii("no free process slots"@),
        Fatal::UnexpectedTrap { scause, stval, sepc } => ascii("unexpected trap scause="@) + hex(
            scause as nat,
        ) + ascii(", stval="@) + hex(stval as nat) + ascii(", sepc="@) + hex(sepc as nat),
    }
}

/// The line that reports a fatal condition.
pub open spec fn report(fatal: Fatal) -> Seq<u8> {
    ascii("PANIC: "@) + message(fatal) + ascii("\n"@)
}

/// Appends the bytes of the ASCII text `text` to `out`.
fn push_ascii(out: &mut Vec<u8>, text: &str)
    requires
        is_ascii(text),
    ensures
        final(out)@ == old(out)@ + ascii(text@),
{
    broadcast use is_ascii_spec_bytes;

    let bytes = text.as_bytes();
    out.extend_from_slice(bytes);
}

/// Appends `v` in hexadecimal to `out`.
fn push_hex(out: &mut Vec<u8>, v: u32)
    ensures
        final(out)@ == old(out)@ + hex(v as nat),
    decreases v,
{
    if v >= 16 {
        push_hex(out, v / 16);
    }
    let d: u8 = (v % 16) as u8;
    let digit: u8 = if d < 10 {
        '0' as u8 + d
    } else {
        'a' as u8 + (d - 10)
    };
    out.push(digit);
}

impl Fatal {
    /// The message that names the condition, as ASCII text.
    pub fn message(&self) -> (text: Vec<u8>)
        ensures
            text@ == message(*self),
    {
        let mut text: Vec<u8> = Vec::new();
        match *self {
            Fatal::OutOfMemory => {
                proof {
                    reveal_strlit("out of memory");
                }
                push_ascii(&mut text, "out of memory");
            },
            Fatal::NoFreeProcessSlots => {
                proof {
                    reveal_strlit("no free process slots");
                }
                push_ascii(&mut text, "no free process slots");
            },
            Fatal::UnexpectedTrap { scause, stval, sepc } => {
                proof {
                    reveal_strlit("unexpected trap scause=");
                    reveal_strlit(", stval=");
                    reveal_strlit(", sepc=");
                }
                push_ascii(&mut text, "unexpected trap scause=");
                push_hex(&mut text, scause);
                push_ascii(&mut text, ", stval=");
                push_hex(&mut text, stval);
                push_ascii(&mut text, ", sepc=");
                push_hex(&mut text, sepc);
            },
        }
        text
    }
}

/// The halt path. Returns the firmware calls that report `fatal` on the
/// debug console, in the order in which they are to be made: one call for
/// each byte of the line `PANIC: <message>`, the line feed included. Once
/// they are made the machine stays halted.
pub fn panic(fatal: &Fatal) -> (calls: Vec<SbiCall>)
    ensures
        calls@ == report(*fatal).map_values(|byte: u8| console_putchar(byte)),
{
    let mut line: Vec<u8> = Vec::new();
    proof {
        reveal_strlit("PANIC: ");
        reveal_strlit("\n");
    }
    push_ascii(&mut line, "PANIC: ");
    let mut text = fatal.message();
    line.append(&mut text);
    push_ascii(&mut line, "\n");
    let mut calls: Vec<SbiCall> = Vec::new();
    let mut i: usize = 0;
    while i < line.len()
        invariant
            i <= line@.len(),
            line@ == report(*fatal),
            calls@ == line@.take(i as int).map_values(|byte: u8| console_putchar(byte)),
        decreases line@.len() - i,
    {
        calls.push(putchar(line[i]));
        assert(line@.take(i + 1).map_values(|byte: u8| console_putchar(byte)) == line@.take(
            i as int,
        ).map_values(|byte: u8| console_putchar(byte)).push(console_putchar(line@[i as int])));
        i += 1;
    }
    assert(line@.take(i as int) == line@);
    calls
}

} // verus!
