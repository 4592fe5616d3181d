//! The firmware call convention, the console call and the byte fill that the
//! rest of the kernel builds on.

use vstd::prelude::*;
use crate::types::SbiCall;

verus! {

/// The extension id of the firmware's console output.
pub const CONSOLE_PUTCHAR_EID: isize = 1;

/// The firmware call that writes `ch` to the debug console.
pub open spec fn console_putchar(ch: u8) -> SbiCall {
    SbiCall {
        arg0: ch as isize,
        arg1: 0,
        arg2: 0,
        arg3: 0,
        arg4: 0,
        arg5: 0,
        fid: 0,
        eid: CONSOLE_PUTCHAR_EID,
    }
}

/// `mem` with the `len` bytes from position `at` on set to `c`.
pub open spec fn fill_bytes(mem: Seq<u8>, at: int, len: int, c: u8) -> Seq<u8> {
    Seq::new(
        mem.len(),
        |i: int|
            if at <= i < at + len {
                c
            } else {
                mem[i]
            },
    )
}

/// Lays out a firmware call in the argument registers: the six arguments go
/// in `a0` to `a5`, the function id in `a6` and the extension id in `a7`.
/// Trapping into the firmware with these registers is left to the caller,
/// who finds the error code in `a0` and the value in `a1` afterwards.
pub fn sbi_call(
    arg0: isize,
    arg1: isize,
    arg2: isize,
    arg3: isize,
    arg4: isize,
    arg5: isize,
    fid: isize,
    eid: isize,
) -> (call: SbiCall)
    ensures
        call == (SbiCall { arg0, arg1, arg2, arg3, arg4, arg5, fid, eid }),
{
    SbiCall { arg0, arg1, arg2, arg3, arg4, arg5, fid, eid }
}

/// Lays out the firmware call that writes the byte `ch` to the debug
/// console: the byte goes in `a0`, the extension id of the console in `a7`,
/// and every other argument register is zero.
pub fn putchar(ch: u8) -> (call: SbiCall)
    ensures
        call == console_putchar(ch),
{
    sbi_call(ch as isize, 0, 0, 0, 0, 0, 0, CONSOLE_PUTCHAR_EID)
}

/// Sets the `n` bytes of `mem` that start at position `buf` to `c` and leaves
/// every other byte as it was. Returns `buf`.
pub fn memset(mem: &mut Vec<u8>, buf: usize, c: u8, n: usize) -> (start: usize)
    requires
        buf + n <= old(mem)@.len(),
    ensures
        final(mem)@ == fill_bytes(old(mem)@, buf as int, n as int, c),
        start == buf,
{
    let ghost before = mem@;
    let mut i: usize = 0;
    while i < n
        invariant
            i <= n,
            buf + n <= before.len(),
            mem.len() == before.len(),
            mem@ == fill_bytes(before, buf as int, i as int, c),
        decreases n - i,
    {
        mem[buf + i] = c;
        i += 1;
    }
    buf
}

} // verus!
