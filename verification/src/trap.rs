//! The boot entry, which installs the trap vector, and the trap path: the
//! frame that a trap pushes on the stack in use, and the dispatcher.
//!
//! On a trap the hart parks the stack pointer in its scratch register, lowers
//! the pointer by one frame and stores every general-purpose register at a
//! fixed position of that frame, the parked pointer last. The dispatcher is
//! then called with the frame. A return from the trap loads every position
//! back, the stack pointer last.

use vstd::prelude::*;
use crate::common_func::{fill_bytes, memset};
use crate::types::{
    load_words, store_words, write_words, Csrs, Fatal, Registers, Stack, TrapFrame, Vaddr,
    STACK_WORDS, TRAP_FRAME_WORDS,
};

verus! {

/// The trap frame that lies on `stack` from position `at` on.
pub open spec fn frame_at(stack: Seq<u32>, at: int) -> TrapFrame {
    TrapFrame::from_words(load_words(stack, at, TRAP_FRAME_WORDS as int))
}

/// The stack after a trap was taken with registers `regs`: the frame lies
/// directly below the old stack pointer.
pub open spec fn stack_after_trap(stack: Seq<u32>, regs: Registers) -> Seq<u32> {
    store_words(stack, regs.sp - TRAP_FRAME_WORDS, regs.trap_frame().words())
}

/// The registers after a trap was taken: only the stack pointer has moved, to
/// the frame.
pub open spec fn registers_after_trap(regs: Registers) -> Registers {
    Registers { sp: (regs.sp - TRAP_FRAME_WORDS) as u32, ..regs }
}

/// Takes a trap: parks the stack pointer in the scratch register, pushes the
/// frame of `regs` on `stack` and leaves the stack pointer at the frame.
/// Returns the frame's position.
pub fn trap_entry(regs: &mut Registers, csrs: &mut Csrs, stack: &mut Stack) -> (at: Vaddr)
    requires
        old(regs).has_room(TRAP_FRAME_WORDS as int),
    ensures
        at == old(regs).sp - TRAP_FRAME_WORDS,
        final(stack)@ == stack_after_trap(old(stack)@, *old(regs)),
        *final(regs) == registers_after_trap(*old(regs)),
        *final(csrs) == (Csrs { sscratch: old(regs).sp, ..*old(csrs) }),
{
    csrs.sscratch = regs.sp;
    let at: usize = regs.sp as usize - TRAP_FRAME_WORDS;
    let frame: [u32; TRAP_FRAME_WORDS] = [
        regs.ra,
        regs.gp,
        regs.tp,
        regs.t0,
        regs.t1,
        regs.t2,
        regs.t3,
        regs.t4,
        regs.t5,
        regs.t6,
        regs.a0,
        regs.a1,
        regs.a2,
        regs.a3,
        regs.a4,
        regs.a5,
        regs.a6,
        regs.a7,
        regs.s0,
        regs.s1,
        regs.s2,
        regs.s3,
        regs.s4,
        regs.s5,
        regs.s6,
        regs.s7,
        regs.s8,
        regs.s9,
        regs.s10,
        regs.s11,
        csrs.sscratch,
    ];
    assert(frame@ == regs.trap_frame().words());
    write_words(stack, at, &frame);
    regs.sp = at as u32;
    at
}

/// Reads the trap frame that lies on `stack` from position `at` on.
pub fn load_trap_frame(stack: &Stack, at: Vaddr) -> (frame: TrapFrame)
    requires
        at + TRAP_FRAME_WORDS <= STACK_WORDS,
    ensures
        frame == frame_at(stack@, at as int),
{
    TrapFrame {
        ra: stack[at],
        gp: stack[at + 1],
        tp: stack[at + 2],
        t0: stack[at + 3],
        t1: stack[at + 4],
        t2: stack[at + 5],
        t3: stack[at + 6],
        t4: stack[at + 7],
        t5: stack[at + 8],
        t6: stack[at + 9],
        a0: stack[at + 10],
        a1: stack[at + 11],
        a2: stack[at + 12],
        a3: stack[at + 13],
        a4: stack[at + 14],
        a5: stack[at + 15],
        a6: stack[at + 16],
        a7: stack[at + 17],
        s0: stack[at + 18],
        s1: stack[at + 19],
        s2: stack[at + 20],
        s3: stack[at + 21],
        s4: stack[at + 22],
        s5: stack[at + 23],
        s6: stack[at + 24],
        s7: stack[at + 25],
        s8: stack[at + 26],
        s9: stack[at + 27],
        s10: stack[at + 28],
        s11: stack[at + 29],
        sp: stack[at + 30],
    }
}

/// Returns from a trap: loads every register from the frame at the stack
/// pointer, the stack pointer itself last. What the dispatcher changed in the
/// frame is what the registers then hold.
pub fn trap_return(regs: &mut Registers, stack: &Stack)
    requires
        old(regs).sp + TRAP_FRAME_WORDS <= STACK_WORDS,
    ensures
        *final(regs) == frame_at(stack@, old(regs).sp as int).registers(),
{
    let frame = load_trap_frame(stack, regs.sp as usize);
    regs.ra = frame.ra;
    regs.gp = frame.gp;
    regs.tp = frame.tp;
    regs.t0 = frame.t0;
    regs.t1 = frame.t1;
    regs.t2 = frame.t2;
    regs.t3 = frame.t3;
    regs.t4 = frame.t4;
    regs.t5 = frame.t5;
    regs.t6 = frame.t6;
    regs.a0 = frame.a0;
    regs.a1 = frame.a1;
    regs.a2 = frame.a2;
    regs.a3 = frame.a3;
    regs.a4 = frame.a4;
    regs.a5 = frame.a5;
    regs.a6 = frame.a6;
    regs.a7 = frame.a7;
    regs.s0 = frame.s0;
    regs.s1 = frame.s1;
    regs.s2 = frame.s2;
    regs.s3 = frame.s3;
    regs.s4 = frame.s4;
    regs.s5 = frame.s5;
    regs.s6 = frame.s6;
    regs.s7 = frame.s7;
    regs.s8 = frame.s8;
    regs.s9 = frame.s9;
    regs.s10 = frame.s10;
    regs.s11 = frame.s11;
    regs.sp = frame.sp;
}

/// The fatal condition that reports the trap recorded in `csrs`.
pub open spec fn unexpected_trap(csrs: Csrs) -> Fatal {
    Fatal::UnexpectedTrap { scause: csrs.scause, stval: csrs.stval, sepc: csrs.sepc }
}

/// The dispatcher. Every trap is fatal, whatever its cause: the result
/// carries the cause, the trap value and the faulting program counter exactly
/// as the machine holds them. The frame is not looked at.
pub fn handle_trap(_frame: &TrapFrame, csrs: &Csrs) -> (fatal: Fatal)
    ensures
        fatal == unexpected_trap(*csrs),
{
    Fatal::UnexpectedTrap { scause: csrs.scause, stval: csrs.stval, sepc: csrs.sepc }
}

/// The trap path, from entry to the dispatcher's verdict. It is where the
/// trap vector points, and it is entered only when the hart takes a trap:
/// the frame of `regs` is pushed on `stack` and handed to the dispatcher,
/// which halts the machine with the cause, the value and the program counter
/// that `csrs` holds. Nothing is touched after the dispatcher has decided.
pub fn kernel_entry(regs: &mut Registers, csrs: &mut Csrs, stack: &mut Stack) -> (fatal: Fatal)
    requires
        old(regs).has_room(TRAP_FRAME_WORDS as int),
    ensures
        final(stack)@ == stack_after_trap(old(stack)@, *old(regs)),
        *final(regs) == registers_after_trap(*old(regs)),
        *final(csrs) == (Csrs { sscratch: old(regs).sp, ..*old(csrs) }),
        fatal == unexpected_trap(*old(csrs)),
{
    let at = trap_entry(regs, csrs, stack);
    let frame = load_trap_frame(stack, at);
    handle_trap(&frame, csrs)
}

/// The kernel's entry once a stack is set up. Zeroes the uninitialised data
/// `bss` and installs `trap_vector`, the address of the trap path, as the
/// trap vector. No trap is taken and nothing else changes: the kernel goes
/// on to create and schedule processes.
pub fn kernel_main(bss: &mut Vec<u8>, csrs: &mut Csrs, trap_vector: u32)
    ensures
        final(bss)@ == fill_bytes(old(bss)@, 0, old(bss)@.len() as int, 0),
        *final(csrs) == (Csrs { stvec: trap_vector, ..*old(csrs) }),
{
    let len = bss.len();
    memset(bss, 0, 0, len);
    csrs.stvec = trap_vector;
}

/// The boot trampoline: points the stack pointer at the top of the boot
/// stack, which is empty then, and enters `kernel_main`.
pub fn boot(bss: &mut Vec<u8>, regs: &mut Registers, csrs: &mut Csrs, trap_vector: u32)
    ensures
        *final(regs) == (Registers { sp: STACK_WORDS as u32, ..*old(regs) }),
        final(bss)@ == fill_bytes(old(bss)@, 0, old(bss)@.len() as int, 0),
        *final(csrs) == (Csrs { stvec: trap_vector, ..*old(csrs) }),
{
    regs.sp = STACK_WORDS as u32;
    kernel_main(bss, csrs, trap_vector)
}

/// A trap frame and its words on the stack determine each other: the frame
/// has `TRAP_FRAME_WORDS` words, reading them back gives the frame, and the
/// registers loaded from the frame of `regs` are `regs`.
pub proof fn lemma_trap_frame_layout(regs: Registers, frame: TrapFrame)
    ensures
        frame.words().len() == TRAP_FRAME_WORDS,
        TrapFrame::from_words(frame.words()) == frame,
        regs.trap_frame().registers() == regs,
        frame.registers().trap_frame() == frame,
{
}

/// Taking a trap and returning from it at once restores every register,
/// the stack pointer included, whatever the stack held before.
pub proof fn lemma_trap_round_trip(stack: Seq<u32>, regs: Registers)
    requires
        stack.len() == STACK_WORDS,
        regs.has_room(TRAP_FRAME_WORDS as int),
    ensures
        frame_at(stack_after_trap(stack, regs), registers_after_trap(regs).sp as int).registers()
            == regs,
{
    let at = regs.sp - TRAP_FRAME_WORDS;
    let words = regs.trap_frame().words();
    assert(load_words(stack_after_trap(stack, regs), at, TRAP_FRAME_WORDS as int) =~= words);
}

} // verus!
