//! Machine words, register files and the fixed stack-frame layouts shared by
//! the trap path, the context switch and the scheduler.

use vstd::prelude::*;

verus! {

/// A physical address.
pub type Paddr = usize;

/// A position on a kernel stack, counted in 32-bit words from the stack's base.
pub type Vaddr = usize;

/// Bytes in one physical page.
pub const PAGE_SIZE: usize = 4096;

/// Slots in the process table.
pub const PROCS_MAX: usize = 8;

/// 32-bit words in one kernel stack.
pub const STACK_WORDS: usize = 2048;

/// Words in a saved context: the return address and `s0` to `s11`.
pub const CONTEXT_WORDS: usize = 13;

/// Words in a trap frame: every general-purpose register but `zero`.
pub const TRAP_FRAME_WORDS: usize = 31;

/// One kernel stack. It grows downwards: the empty stack has its stack pointer
/// at `STACK_WORDS`, and pushing `n` words lowers the pointer by `n`.
pub type Stack = [u32; STACK_WORDS];

/// The three conditions that halt the machine. None can be recovered from.
#[derive(Clone, Copy, Debug, PartialEq, Eq, Structural)]
pub enum Fatal {
    /// The page allocator was asked for more than its region still holds.
    OutOfMemory,
    /// A process was to be created while every slot of the table was taken.
    NoFreeProcessSlots,
    /// A trap reached the dispatcher. The three values are the machine's own.
    UnexpectedTrap { scause: u32, stval: u32, sepc: u32 },
}

/// The argument registers of one firmware call: `a0` to `a5`, the function
/// id in `a6` and the extension id in `a7`.
#[derive(Clone, Copy, Debug, PartialEq, Eq, Structural)]
pub struct SbiCall {
    pub arg0: isize,
    pub arg1: isize,
    pub arg2: isize,
    pub arg3: isize,
    pub arg4: isize,
    pub arg5: isize,
    pub fid: isize,
    pub eid: isize,
}

/// The general-purpose registers of the hart, `x1` to `x31`, by their ABI
/// names. `sp` is a position on the stack that is in use (a `Vaddr`).
#[derive(Clone, Copy, Debug, Default, PartialEq, Eq, Structural)]
pub struct Registers {
    pub ra: u32,
    pub sp: u32,
    pub gp: u32,
    pub tp: u32,
    pub t0: u32,
    pub t1: u32,
    pub t2: u32,
    pub s0: u32,
    pub s1: u32,
    pub a0: u32,
    pub a1: u32,
    pub a2: u32,
    pub a3: u32,
    pub a4: u32,
    pub a5: u32,
    pub a6: u32,
    pub a7: u32,
    pub s2: u32,
    pub s3: u32,
    pub s4: u32,
    pub s5: u32,
    pub s6: u32,
    pub s7: u32,
    pub s8: u32,
    pub s9: u32,
    pub s10: u32,
    pub s11: u32,
    pub t3: u32,
    pub t4: u32,
    pub t5: u32,
    pub t6: u32,
}

/// The control and status registers that the trap path uses: the trap
/// vector, which is where the hart goes on a trap; the scratch register; and
/// the cause, the value and the program counter of the trap that was taken
/// last.
#[derive(Clone, Copy, Debug, Default, PartialEq, Eq, Structural)]
pub struct Csrs {
    pub stvec: u32,
    pub sscratch: u32,
    pub scause: u32,
    pub stval: u32,
    pub sepc: u32,
}

/// The registers as saved on a trap, in the order in which they lie on the
/// stack: the field at position `k` is the word `k` of the frame.
#[derive(Clone, Copy, Debug, Default, PartialEq, Eq, Structural)]
pub struct TrapFrame {
    pub ra: u32,
    pub gp: u32,
    pub tp: u32,
    pub t0: u32,
    pub t1: u32,
    pub t2: u32,
    pub t3: u32,
    pub t4: u32,
    pub t5: u32,
    pub t6: u32,
    pub a0: u32,
    pub a1: u32,
    pub a2: u32,
    pub a3: u32,
    pub a4: u32,
    pub a5: u32,
    pub a6: u32,
    pub a7: u32,
    pub s0: u32,
    pub s1: u32,
    pub s2: u32,
    pub s3: u32,
    pub s4: u32,
    pub s5: u32,
    pub s6: u32,
    pub s7: u32,
    pub s8: u32,
    pub s9: u32,
    pub s10: u32,
    pub s11: u32,
    pub sp: u32,
}

/// `stack` with `words` written from position `at` on, everything else kept.
pub open spec fn store_words(stack: Seq<u32>, at: int, words: Seq<u32>) -> Seq<u32> {
    Seq::new(
        stack.len(),
        |i: int|
            if at <= i < at + words.len() {
                words[i - at]
            } else {
                stack[i]
            },
    )
}

/// The `len` words of `stack` from position `at` on.
pub open spec fn load_words(stack: Seq<u32>, at: int, len: int) -> Seq<u32> {
    stack.subrange(at, at + len)
}

/// Writes `words` on `stack` from position `at` on, lowest position first.
pub fn write_words(stack: &mut Stack, at: Vaddr, words: &[u32])
    requires
        at + words@.len() <= STACK_WORDS,
    ensures
        final(stack)@ == store_words(old(stack)@, at as int, words@),
{
    let ghost before = stack@;
    let mut k: usize = 0;
    while k < words.len()
        invariant
            k <= words@.len(),
            at + words@.len() <= STACK_WORDS,
            stack@ == store_words(before, at as int, words@.take(k as int)),
        decreases words@.len() - k,
    {
        stack[at + k] = words[k];
        k += 1;
    }
    assert(words@.take(k as int) == words@);
}

impl Registers {
    /// There is room for `words` more words below the stack pointer, and the
    /// pointer lies on the stack.
    pub open spec fn has_room(self, words: int) -> bool {
        words <= self.sp <= STACK_WORDS
    }

    /// The snapshot that a trap takes of these registers.
    pub open spec fn trap_frame(self) -> TrapFrame {
        TrapFrame {
            ra: self.ra,
            gp: self.gp,
            tp: self.tp,
            t0: self.t0,
            t1: self.t1,
            t2: self.t2,
            t3: self.t3,
            t4: self.t4,
            t5: self.t5,
            t6: self.t6,
            a0: self.a0,
            a1: self.a1,
            a2: self.a2,
            a3: self.a3,
            a4: self.a4,
            a5: self.a5,
            a6: self.a6,
            a7: self.a7,
            s0: self.s0,
            s1: self.s1,
            s2: self.s2,
            s3: self.s3,
            s4: self.s4,
            s5: self.s5,
            s6: self.s6,
            s7: self.s7,
            s8: self.s8,
            s9: self.s9,
            s10: self.s10,
            s11: self.s11,
            sp: self.sp,
        }
    }

    /// The words of a saved context, in the order in which they lie on the
    /// stack: the return address, then `s0` to `s11`.
    pub open spec fn context(self) -> Seq<u32> {
        seq![
            self.ra,
            self.s0,
            self.s1,
            self.s2,
            self.s3,
            self.s4,
            self.s5,
            self.s6,
            self.s7,
            self.s8,
            self.s9,
            self.s10,
            self.s11,
        ]
    }

    /// These registers after a saved context `words` was popped from a stack
    /// whose pointer then stands at `sp`. Only the return address, `s0` to
    /// `s11` and the stack pointer change.
    pub open spec fn with_context(self, words: Seq<u32>, sp: u32) -> Registers {
        Registers {
            ra: words[0],
            s0: words[1],
            s1: words[2],
            s2: words[3],
            s3: words[4],
            s4: words[5],
            s5: words[6],
            s6: words[7],
            s7: words[8],
            s8: words[9],
            s9: words[10],
            s10: words[11],
            s11: words[12],
            sp,
            ..self
        }
    }
}

impl TrapFrame {
    /// The frame as it lies on the stack, lowest position first.
    pub open spec fn words(self) -> Seq<u32> {
        seq![
            self.ra,
            self.gp,
            self.tp,
            self.t0,
            self.t1,
            self.t2,
            self.t3,
            self.t4,
            self.t5,
            self.t6,
            self.a0,
            self.a1,
            self.a2,
            self.a3,
            self.a4,
            self.a5,
            self.a6,
            self.a7,
            self.s0,
            self.s1,
            self.s2,
            self.s3,
            self.s4,
            self.s5,
            self.s6,
            self.s7,
            self.s8,
            self.s9,
            self.s10,
            self.s11,
            self.sp,
        ]
    }

    /// The frame that `words` holds; `words` has `TRAP_FRAME_WORDS` entries.
    pub open spec fn from_words(words: Seq<u32>) -> TrapFrame {
        TrapFrame {
            ra: words[0],
            gp: words[1],
            tp: words[2],
            t0: words[3],
            t1: words[4],
            t2: words[5],
            t3: words[6],
            t4: words[7],
            t5: words[8],
            t6: words[9],
            a0: words[10],
            a1: words[11],
            a2: words[12],
            a3: words[13],
            a4: words[14],
            a5: words[15],
            a6: words[16],
            a7: words[17],
            s0: words[18],
            s1: words[19],
            s2: words[20],
            s3: words[21],
            s4: words[22],
            s5: words[23],
            s6: words[24],
            s7: words[25],
            s8: words[26],
            s9: words[27],
            s10: words[28],
            s11: words[29],
            sp: words[30],
        }
    }

    /// The register file that a return from the trap loads from this frame.
    pub open spec fn registers(self) -> Registers {
        Registers {
            ra: self.ra,
            sp: self.sp,
            gp: self.gp,
            tp: self.tp,
            t0: self.t0,
            t1: self.t1,
            t2: self.t2,
            s0: self.s0,
            s1: self.s1,
            a0: self.a0,
            a1: self.a1,
            a2: self.a2,
            a3: self.a3,
            a4: self.a4,
            a5: self.a5,
            a6: self.a6,
            a7: self.a7,
            s2: self.s2,
            s3: self.s3,
            s4: self.s4,
            s5: self.s5,
            s6: self.s6,
            s7: self.s7,
            s8: self.s8,
            s9: self.s9,
            s10: self.s10,
            s11: self.s11,
            t3: self.t3,
            t4: self.t4,
            t5: self.t5,
            t6: self.t6,
        }
    }
}

} // verus!
