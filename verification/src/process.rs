//! The process table, process creation, the context switch and the
//! round-robin scheduler.
//!
//! Each process owns its kernel stack. A process that is not running keeps
//! its callee-saved registers in a saved context on that stack, and its `sp`
//! field says where the context lies. Creating a process writes such a
//! context by hand, so that the first switch into a process is no different
//! from any later one.

use vstd::prelude::*;
use crate::types::{
    load_words, store_words, write_words, Fatal, Registers, Stack, Vaddr, CONTEXT_WORDS,
    PROCS_MAX, STACK_WORDS,
};

verus! {

/// What a slot of the process table holds.
#[allow(non_camel_case_types)]
#[derive(Clone, Copy, Debug, PartialEq, Eq, Structural)]
pub enum State {
    /// Free: a new process may take the slot.
    UNUSED,
    /// Taken by a process that the scheduler may pick.
    RUNNABLE,
    /// The reserved slot 0, which stands for the kernel's own context: the
    /// kernel boots on this slot's stack.
    IDLE,
}

/// The mathematical value of a `Process`.
pub struct ProcessView {
    pub pid: nat,
    pub state: State,
    pub stack: Seq<u32>,
    pub sp: nat,
}

/// One slot of the process table.
#[derive(Clone, Copy, Debug)]
pub struct Process {
    pid: u32,
    state: State,
    stack: Stack,
    sp: Vaddr,
}

/// The mathematical value of a `ProcessManager`.
pub struct TableView {
    pub procs: Seq<ProcessView>,
    pub current: nat,
}

/// The process table and the index of the process that is running.
pub struct ProcessManager {
    procs: [Process; PROCS_MAX],
    current: usize,
}

/// The saved context of a process that has never run: it resumes at `entry`
/// with `s0` to `s11` zero.
pub open spec fn initial_context(entry: u32) -> Seq<u32> {
    Seq::new(
        CONTEXT_WORDS as nat,
        |k: int|
            if k == 0 {
                entry
            } else {
                0u32
            },
    )
}

/// The values of the processes in `procs`, slot by slot.
pub open spec fn views(procs: [Process; PROCS_MAX]) -> Seq<ProcessView> {
    Seq::new(PROCS_MAX as nat, |i: int| procs@[i]@)
}

/// The table and the registers after a switch from slot `prev` to slot
/// `next`: the context of `regs` is pushed on the stack of `prev` and its
/// position recorded there, then the context that `next` recorded is popped
/// into the registers. No other slot and no other register changes.
pub open spec fn switched(procs: Seq<ProcessView>, regs: Registers, prev: int, next: int) -> (
    Seq<ProcessView>,
    Registers,
) {
    let saved = procs.update(prev, procs[prev].suspended(regs));
    (saved, saved[next].resumed(regs))
}

impl ProcessView {
    /// The stack has its fixed size, a saved context fits between `sp` and
    /// the top of the stack, and the pid fits its field.
    pub open spec fn wf(self) -> bool {
        &&& self.stack.len() == STACK_WORDS
        &&& self.sp + CONTEXT_WORDS <= STACK_WORDS
        &&& self.pid <= u32::MAX
    }

    /// A slot that no process has taken yet.
    pub open spec fn unused() -> ProcessView {
        ProcessView {
            pid: 0,
            state: State::UNUSED,
            stack: Seq::new(STACK_WORDS as nat, |i: int| 0u32),
            sp: 0,
        }
    }

    /// This slot once a process with the given pid and entry address has
    /// taken it: the initial context lies at the top of the stack and `sp`
    /// points at it.
    pub open spec fn spawned(self, pid: nat, entry: u32) -> ProcessView {
        ProcessView {
            pid,
            state: State::RUNNABLE,
            stack: store_words(
                self.stack,
                STACK_WORDS - CONTEXT_WORDS,
                initial_context(entry),
            ),
            sp: (STACK_WORDS - CONTEXT_WORDS) as nat,
        }
    }

    /// This slot once the context of `regs` has been pushed on its stack.
    pub open spec fn suspended(self, regs: Registers) -> ProcessView {
        ProcessView {
            stack: store_words(self.stack, regs.sp - CONTEXT_WORDS, regs.context()),
            sp: (regs.sp - CONTEXT_WORDS) as nat,
            ..self
        }
    }

    /// The registers once the saved context of this slot has been popped.
    pub open spec fn resumed(self, regs: Registers) -> Registers {
        regs.with_context(
            load_words(self.stack, self.sp as int, CONTEXT_WORDS as int),
            (self.sp + CONTEXT_WORDS) as u32,
        )
    }
}

impl View for Process {
    type V = ProcessView;

    closed spec fn view(&self) -> ProcessView {
        ProcessView {
            pid: self.pid as nat,
            state: self.state,
            stack: self.stack@,
            sp: self.sp as nat,
        }
    }
}

impl Process {
    /// An unused slot: pid 0, a zeroed stack, `sp` at the stack's base.
    pub fn new() -> (p: Process)
        ensures
            p@ == ProcessView::unused(),
    {
        let p = Process { pid: 0, state: State::UNUSED, stack: [0u32; STACK_WORDS], sp: 0 };
        assert(p.stack@ =~= Seq::new(STACK_WORDS as nat, |i: int| 0u32));
        p
    }

    /// The process id: the index of the slot, once a process has taken it.
    pub fn pid(&self) -> (pid: u32)
        ensures
            pid == self@.pid,
    {
        self.pid
    }

    /// What the slot holds.
    pub fn state(&self) -> (state: State)
        ensures
            state == self@.state,
    {
        self.state
    }

    /// Where the saved context lies on the stack. Of the running process
    /// this is the position at which it was last resumed.
    pub fn sp(&self) -> (sp: Vaddr)
        ensures
            sp == self@.sp,
    {
        self.sp
    }

    /// The kernel stack of the process.
    pub fn stack(&self) -> (stack: &Stack)
        ensures
            stack@ == self@.stack,
    {
        &self.stack
    }

    /// Suspends the process: pushes the return address and `s0` to `s11` of
    /// `regs` on its stack, below the stack pointer of `regs`, and records
    /// where they lie.
    pub fn save_context(&mut self, regs: &Registers)
        requires
            regs.has_room(CONTEXT_WORDS as int),
        ensures
            final(self)@ == old(self)@.suspended(*regs),
    {
        let at: usize = regs.sp as usize - CONTEXT_WORDS;
        let context: [u32; CONTEXT_WORDS] = [
            regs.ra,
            regs.s0,
            regs.s1,
            regs.s2,
            regs.s3,
            regs.s4,
            regs.s5,
            regs.s6,
            regs.s7,
            regs.s8,
            regs.s9,
            regs.s10,
            regs.s11,
        ];
        assert(context@ == regs.context());
        write_words(&mut self.stack, at, &context);
        self.sp = at;
    }

    /// Resumes the process: pops the return address and `s0` to `s11` from
    /// the context that it recorded and leaves the stack pointer above it.
    /// No other register changes.
    pub fn restore_context(&self, regs: &mut Registers)
        requires
            self@.wf(),
        ensures
            *final(regs) == self@.resumed(*old(regs)),
    {
        let at = self.sp;
        regs.ra = self.stack[at];
        regs.s0 = self.stack[at + 1];
        regs.s1 = self.stack[at + 2];
        regs.s2 = self.stack[at + 3];
        regs.s3 = self.stack[at + 4];
        regs.s4 = self.stack[at + 5];
        regs.s5 = self.stack[at + 6];
        regs.s6 = self.stack[at + 7];
        regs.s7 = self.stack[at + 8];
        regs.s8 = self.stack[at + 9];
        regs.s9 = self.stack[at + 10];
        regs.s10 = self.stack[at + 11];
        regs.s11 = self.stack[at + 12];
        regs.sp = (at + CONTEXT_WORDS) as u32;
    }
}

/// The context switch. Saves the running context, which is that of slot
/// `prev`, and resumes slot `next`.
pub fn switch_context(
    regs: &mut Registers,
    procs: &mut [Process; PROCS_MAX],
    prev: usize,
    next: usize,
)
    requires
        prev < PROCS_MAX,
        next < PROCS_MAX,
        old(regs).has_room(CONTEXT_WORDS as int),
        views(*old(procs))[next as int].wf(),
    ensures
        (views(*final(procs)), *final(regs)) == switched(
            views(*old(procs)),
            *old(regs),
            prev as int,
            next as int,
        ),
{
    procs[prev].save_context(regs);
    procs[next].restore_context(regs);
}

impl TableView {
    /// The invariant of the process table: every slot is well formed; slot 0
    /// is the idle slot and no other is; a runnable slot's pid is its index;
    /// the running process is the idle slot or a runnable one.
    pub open spec fn wf(self) -> bool {
        &&& self.schedulable()
        &&& forall|i: int| 0 <= i < PROCS_MAX ==> (#[trigger] self.procs[i]).wf()
        &&& self.procs[0].state == State::IDLE
        &&& self.procs[0].pid == 0
        &&& forall|i: int| 1 <= i < PROCS_MAX ==> (#[trigger] self.procs[i]).state != State::IDLE
        &&& forall|i: int|
            0 <= i < PROCS_MAX && (#[trigger] self.procs[i]).state == State::RUNNABLE
                ==> self.procs[i].pid == i
    }

    /// The part of the invariant that scheduling rests on: the table has its
    /// fixed size, and the running slot is slot 0 or a runnable one.
    pub open spec fn schedulable(self) -> bool {
        &&& self.procs.len() == PROCS_MAX
        &&& self.current < PROCS_MAX
        &&& self.current == 0 || self.procs[self.current as int].state == State::RUNNABLE
    }

    /// The table before any process is created: slot 0 idle and running,
    /// every other slot unused.
    pub open spec fn fresh() -> TableView {
        TableView {
            procs: Seq::new(
                PROCS_MAX as nat,
                |i: int|
                    if i == 0 {
                        ProcessView { state: State::IDLE, ..ProcessView::unused() }
                    } else {
                        ProcessView::unused()
                    },
            ),
            current: 0,
        }
    }

    /// Slot `i` is unused and no slot before it is.
    pub open spec fn is_first_unused(self, i: int) -> bool {
        &&& 0 <= i < PROCS_MAX
        &&& self.procs[i].state == State::UNUSED
        &&& forall|j: int| 0 <= j < i ==> (#[trigger] self.procs[j]).state != State::UNUSED
    }

    /// Some slot is unused.
    pub open spec fn has_unused(self) -> bool {
        exists|i: int| 0 <= i < PROCS_MAX && (#[trigger] self.procs[i]).state == State::UNUSED
    }

    /// The unused slot of least index, where there is one.
    pub open spec fn first_unused(self) -> int {
        choose|i: int| self.is_first_unused(i)
    }

    /// The table after a process with entry address `entry` was created: it
    /// takes the unused slot of least index, and gets that index as its pid.
    /// A table without an unused slot stays as it is.
    pub open spec fn created(self, entry: u32) -> TableView {
        if self.has_unused() {
            let i = self.first_unused();
            TableView {
                procs: self.procs.update(i, self.procs[i].spawned(i as nat, entry)),
                ..self
            }
        } else {
            self
        }
    }

    /// This table with `stack` as the stack of the running process.
    pub open spec fn with_running_stack(self, stack: Seq<u32>) -> TableView {
        TableView {
            procs: self.procs.update(
                self.current as int,
                ProcessView { stack, ..self.procs[self.current as int] },
            ),
            ..self
        }
    }

    /// The slot that lies `k` places after the running one, going round the
    /// table.
    pub open spec fn rotation(self, k: int) -> int {
        (self.current + k) % (PROCS_MAX as int)
    }

    /// The slot `k` places after the running one is runnable, and none of
    /// the slots before it in the rotation is. With `k == PROCS_MAX` the
    /// rotation is back at the running slot itself.
    pub open spec fn is_first_runnable(self, k: int) -> bool {
        &&& 1 <= k <= PROCS_MAX
        &&& self.procs[self.rotation(k)].state == State::RUNNABLE
        &&& forall|j: int|
            1 <= j < k ==> (#[trigger] self.procs[self.rotation(j)]).state != State::RUNNABLE
    }

    /// The slot that runs next: the first runnable slot in the rotation that
    /// starts just after the running one and ends with it; slot 0 where no
    /// slot is runnable.
    pub open spec fn next_runnable(self) -> int {
        if exists|k: int| self.is_first_runnable(k) {
            self.rotation(choose|k: int| self.is_first_runnable(k))
        } else {
            0
        }
    }

    /// The table and the registers after the running process yields. Where
    /// the next slot is the running one, nothing changes. Otherwise the next
    /// slot becomes the running one and the context is switched to it.
    pub open spec fn yielded(self, regs: Registers) -> (TableView, Registers) {
        let next = self.next_runnable();
        if next == self.current {
            (self, regs)
        } else {
            let (procs, resumed) = switched(self.procs, regs, self.current as int, next);
            (TableView { procs, current: next as nat }, resumed)
        }
    }
}

impl View for ProcessManager {
    type V = TableView;

    closed spec fn view(&self) -> TableView {
        TableView { procs: views(self.procs), current: self.current as nat }
    }
}

impl ProcessManager {
    /// The invariant of the table, on its value.
    pub open spec fn wf(&self) -> bool {
        self@.wf()
    }

    /// The table before any process is created.
    pub fn new() -> (pm: ProcessManager)
        ensures
            pm.wf(),
            pm@ == TableView::fresh(),
    {
        let mut pm = ProcessManager { procs: [Process::new(); PROCS_MAX], current: 0 };
        pm.procs[0].state = State::IDLE;
        assert(pm@.procs =~= TableView::fresh().procs);
        pm
    }

    /// The index of the slot that is running.
    pub fn current(&self) -> (current: usize)
        ensures
            current == self@.current,
    {
        self.current
    }

    /// The slots of the table, by index.
    pub fn procs(&self) -> (procs: &[Process; PROCS_MAX])
        ensures
            views(*procs) == self@.procs,
    {
        &self.procs
    }

    /// The kernel stack of the running process, for the process to use: what
    /// is written through the result is written to that stack and to nothing
    /// else.
    pub fn running_stack(&mut self) -> (stack: &mut Stack)
        requires
            old(self).wf(),
        ensures
            stack@ == old(self)@.procs[old(self)@.current as int].stack,
            final(self)@.current == old(self)@.current,
            final(self)@.procs == old(self)@.with_running_stack(final(stack)@).procs,
    {
        let current = self.current;
        &mut self.procs[current].stack
    }

    /// The unused slot of least index, if any.
    fn find_unused(&self) -> (found: Option<usize>)
        ensures
            found is None <==> !self@.has_unused(),
            found matches Some(i) ==> self@.is_first_unused(i as int),
    {
        let mut i: usize = 0;
        while i < PROCS_MAX
            invariant
                i <= PROCS_MAX,
                forall|j: int| 0 <= j < i ==> (#[trigger] self@.procs[j]).state != State::UNUSED,
            decreases PROCS_MAX - i,
        {
            if self.procs[i].state == State::UNUSED {
                assert(self@.procs[i as int].state == State::UNUSED);
                return Some(i);
            }
            i += 1;
        }
        None
    }

    /// Creates a process that starts at `entry`. It takes the first unused
    /// slot in index order and that slot's index as its pid, gets its initial
    /// context at the top of its stack, and becomes runnable. With no unused
    /// slot left the table stays as it is and the error is
    /// `Fatal::NoFreeProcessSlots`.
    pub fn create(&mut self, entry: u32) -> (result: Result<(), Fatal>)
        requires
            old(self).wf(),
        ensures
            final(self).wf(),
            final(self)@ == old(self)@.created(entry),
            result is Ok <==> old(self)@.has_unused(),
            result is Ok ==> old(self)@.is_first_unused(old(self)@.first_unused()),
            result is Err ==> result == Err::<(), Fatal>(Fatal::NoFreeProcessSlots),
    {
        match self.find_unused() {
            None => Err(Fatal::NoFreeProcessSlots),
            Some(i) => {
                proof {
                    old(self)@.lemma_first_unused_is_unique(i as int);
                }
                let context: [u32; CONTEXT_WORDS] = [entry, 0, 0, 0, 0, 0, 0, 0, 0, 0, 0, 0, 0];
                assert(context@ == initial_context(entry));
                write_words(&mut self.procs[i].stack, STACK_WORDS - CONTEXT_WORDS, &context);
                self.procs[i].pid = i as u32;
                self.procs[i].sp = STACK_WORDS - CONTEXT_WORDS;
                self.procs[i].state = State::RUNNABLE;
                assert(self@.procs =~= old(self)@.created(entry).procs);
                Ok(())
            },
        }
    }

    /// The slot that runs next.
    fn find_next(&self) -> (next: usize)
        requires
            self.wf(),
        ensures
            next == self@.next_runnable(),
            next < PROCS_MAX,
    {
        let mut i: usize = 0;
        while i < PROCS_MAX
            invariant
                i <= PROCS_MAX,
                self.wf(),
                forall|j: int|
                    1 <= j <= i ==> (#[trigger] self@.procs[self@.rotation(j)]).state
                        != State::RUNNABLE,
            decreases PROCS_MAX - i,
        {
            let idx = (self.current + i + 1) % PROCS_MAX;
            if self.procs[idx].state == State::RUNNABLE {
                proof {
                    self@.lemma_first_runnable_is_unique(i + 1);
                }
                return idx;
            }
            i += 1;
        }
        proof {
            self@.lemma_none_runnable();
        }
        0
    }

    /// Gives up the processor. The slots are scanned in the rotation that
    /// starts just after the running one and ends with it, and the first
    /// runnable one runs next. Where that is the running slot itself, nothing
    /// changes. Otherwise the running context is saved in the slot that was
    /// running and the context of the next slot is resumed.
    pub fn yield_proc(&mut self, regs: &mut Registers)
        requires
            old(self).wf(),
            old(self)@.next_runnable() != old(self)@.current ==> old(regs).has_room(
                CONTEXT_WORDS as int,
            ),
        ensures
            final(self).wf(),
            (final(self)@, *final(regs)) == old(self)@.yielded(*old(regs)),
    {
        let next = self.find_next();
        if next == self.current {
            return ;
        }
        let prev = self.current;
        self.current = next;
        switch_context(regs, &mut self.procs, prev, next);
        proof {
            old(self)@.lemma_next_runnable_is_runnable();
        }
    }
}

impl TableView {
    /// At most one slot is the first unused one.
    pub proof fn lemma_first_unused_is_unique(self, i: int)
        requires
            self.is_first_unused(i),
        ensures
            self.has_unused(),
            self.first_unused() == i,
    {
        let c = self.first_unused();
        assert(self.is_first_unused(c));
        if c < i {
            assert(self.procs[c].state != State::UNUSED);
        }
        if i < c {
            assert(self.procs[i].state != State::UNUSED);
        }
    }

    /// Where some slot is unused, `first_unused()` is the unused slot of
    /// least index. It is never slot 0 where that slot is the idle one, as
    /// in every well-formed table.
    pub proof fn lemma_first_unused_is_first(self)
        requires
            self.has_unused(),
        ensures
            self.is_first_unused(self.first_unused()),
            self.procs[0].state != State::UNUSED ==> self.first_unused() >= 1,
    {
        let i = choose|i: int|
            0 <= i < PROCS_MAX && (#[trigger] self.procs[i]).state == State::UNUSED;
        self.lemma_unused_slot_has_first(i);
    }

    /// Where some slot is unused, one of them is the first, and it comes no
    /// later.
    pub proof fn lemma_unused_slot_has_first(self, i: int)
        requires
            0 <= i < PROCS_MAX,
            self.procs[i].state == State::UNUSED,
        ensures
            exists|f: int| self.is_first_unused(f) && f <= i,
        decreases i,
    {
        if forall|j: int| 0 <= j < i ==> (#[trigger] self.procs[j]).state != State::UNUSED {
            assert(self.is_first_unused(i));
        } else {
            let j = choose|j: int| 0 <= j < i && (#[trigger] self.procs[j]).state == State::UNUSED;
            self.lemma_unused_slot_has_first(j);
        }
    }

    /// Creating a process changes the slot it takes and nothing else: the
    /// slot was unused, it is not slot 0, every other slot and the running
    /// index are as they were, and the table stays well formed.
    pub proof fn lemma_created_takes_an_unused_slot(self, entry: u32)
        requires
            self.wf(),
            self.has_unused(),
        ensures
            ({
                let slot = self.first_unused();
                &&& 1 <= slot < PROCS_MAX
                &&& self.procs[slot].state == State::UNUSED
                &&& self.created(entry).wf()
                &&& self.created(entry).current == self.current
                &&& self.created(entry).procs[slot] == self.procs[slot].spawned(slot as nat, entry)
                &&& forall|i: int|
                    0 <= i < PROCS_MAX && i != slot ==> #[trigger] self.created(entry).procs[i]
                        == self.procs[i]
            }),
    {
        self.lemma_first_unused_is_first();
    }

    /// At most one place of the rotation is the first runnable one, and it
    /// decides which slot runs next.
    pub proof fn lemma_first_runnable_is_unique(self, k: int)
        requires
            self.is_first_runnable(k),
        ensures
            self.next_runnable() == self.rotation(k),
    {
        let c = choose|c: int| self.is_first_runnable(c);
        assert(self.is_first_runnable(c));
        if c < k {
            assert(self.procs[self.rotation(c)].state != State::RUNNABLE);
        }
        if k < c {
            assert(self.procs[self.rotation(k)].state != State::RUNNABLE);
        }
    }

    /// Where no place of the rotation is runnable, slot 0 runs next.
    pub proof fn lemma_none_runnable(self)
        requires
            forall|j: int|
                1 <= j <= PROCS_MAX ==> (#[trigger] self.procs[self.rotation(j)]).state
                    != State::RUNNABLE,
        ensures
            self.next_runnable() == 0,
    {
        if exists|k: int| self.is_first_runnable(k) {
            let k = choose|k: int| self.is_first_runnable(k);
            assert(self.procs[self.rotation(k)].state != State::RUNNABLE);
        }
    }

    /// The slot that runs next is in the table, and it is runnable or the
    /// running slot 0.
    pub proof fn lemma_next_runnable_is_runnable(self)
        requires
            self.schedulable(),
        ensures
            0 <= self.next_runnable() < PROCS_MAX,
            self.procs[self.next_runnable()].state == State::RUNNABLE || (self.next_runnable() == 0
                && self.current == 0),
    {
        if self.current != 0 {
            assert(self.rotation(PROCS_MAX as int) == self.current);
            self.lemma_runnable_place_has_first(PROCS_MAX as int);
        }
    }

    /// Where some place of the rotation is runnable, one of them is the
    /// first, and it comes no later.
    pub proof fn lemma_runnable_place_has_first(self, k: int)
        requires
            1 <= k <= PROCS_MAX,
            self.procs[self.rotation(k)].state == State::RUNNABLE,
        ensures
            exists|f: int| self.is_first_runnable(f) && f <= k,
        decreases k,
    {
        if forall|j: int|
            1 <= j < k ==> (#[trigger] self.procs[self.rotation(j)]).state != State::RUNNABLE {
            assert(self.is_first_runnable(k));
        } else {
            let j = choose|j: int|
                1 <= j < k && (#[trigger] self.procs[self.rotation(j)]).state == State::RUNNABLE;
            self.lemma_runnable_place_has_first(j);
        }
    }
}

impl TableView {
    /// The table after one process was created for each entry address of
    /// `entries`, in that order, starting from the fresh table.
    pub open spec fn after_creations(entries: Seq<u32>) -> TableView
        decreases entries.len(),
    {
        if entries.len() == 0 {
            TableView::fresh()
        } else {
            TableView::after_creations(entries.drop_last()).created(entries.last())
        }
    }

    /// Pids follow the order of creation. Of the processes created from the
    /// fresh table, the one created as number `k` (counting from 1) sits in
    /// slot `k` with pid `k`: the reserved slot 0 is passed over and keeps
    /// pid 0, and the slots behind the last process are still unused. The
    /// table has room for `PROCS_MAX - 1` processes; while fewer exist, the
    /// next one takes the slot after the last.
    pub proof fn lemma_creation_order(entries: Seq<u32>)
        requires
            entries.len() < PROCS_MAX,
        ensures
            ({
                let table = TableView::after_creations(entries);
                &&& table.wf()
                &&& table.current == 0
                &&& table.procs[0] == TableView::fresh().procs[0]
                &&& forall|k: int|
                    1 <= k <= entries.len() ==> #[trigger] table.procs[k]
                        == ProcessView::unused().spawned(k as nat, entries[k - 1])
                &&& forall|k: int|
                    entries.len() < k < PROCS_MAX ==> #[trigger] table.procs[k]
                        == ProcessView::unused()
                &&& table.has_unused() <==> entries.len() < PROCS_MAX - 1
                &&& table.has_unused() ==> table.first_unused() == entries.len() + 1
            }),
        decreases entries.len(),
    {
        let table = TableView::after_creations(entries);
        let n = entries.len() as int;
        if n > 0 {
            TableView::lemma_creation_order(entries.drop_last());
            let before = TableView::after_creations(entries.drop_last());
            assert(before.procs[n] == ProcessView::unused());
        }
        if n + 1 < PROCS_MAX {
            assert(table.procs[n + 1] == ProcessView::unused());
            assert(table.is_first_unused(n + 1));
            table.lemma_first_unused_is_unique(n + 1);
        }
    }

    /// A yield with nothing else to run changes nothing. Where no slot but
    /// the running one is runnable, the table and every register, and so
    /// every `sp` field too, are after the yield what they were before.
    pub proof fn lemma_yield_alone_is_noop(self, regs: Registers)
        requires
            self.wf(),
            forall|i: int|
                0 <= i < PROCS_MAX && i != self.current ==> (#[trigger] self.procs[i]).state
                    != State::RUNNABLE,
        ensures
            self.yielded(regs) == (self, regs),
    {
        self.lemma_next_runnable_is_runnable();
    }

    /// A yield goes to the nearest runnable slot in the rotation and skips
    /// none. The slot that runs after the yield is the one that `k` places
    /// after the running one, for the least `k` from 1 to `PROCS_MAX` at
    /// which a runnable slot lies; where no slot is runnable, slot 0 goes
    /// on running.
    pub proof fn lemma_yield_is_round_robin(self, regs: Registers)
        requires
            self.schedulable(),
        ensures
            self.yielded(regs).0.current == self.next_runnable(),
            (exists|k: int|
                self.is_first_runnable(k) && self.next_runnable() == self.rotation(k)) || (
            self.next_runnable() == 0 && self.current == 0 && forall|i: int|
                0 <= i < PROCS_MAX ==> (#[trigger] self.procs[i]).state != State::RUNNABLE),
    {
        self.lemma_next_runnable_is_runnable();
        if exists|k: int| self.is_first_runnable(k) {
            let k = choose|k: int| self.is_first_runnable(k);
            self.lemma_first_runnable_is_unique(k);
        } else {
            assert forall|i: int| 0 <= i < PROCS_MAX implies (#[trigger] self.procs[i]).state
                != State::RUNNABLE by {
                if self.procs[i].state == State::RUNNABLE {
                    let d = if i > self.current {
                        i - self.current
                    } else {
                        i - self.current + PROCS_MAX
                    };
                    assert(self.rotation(d) == i);
                    self.lemma_runnable_place_has_first(d);
                }
            }
        }
    }

    /// A yield leaves the state and the pid of every slot as they were, and
    /// touches no stack and no `sp` field but those of the slot that was
    /// running.
    pub proof fn lemma_yield_keeps_slots(self, regs: Registers)
        requires
            self.schedulable(),
        ensures
            self.yielded(regs).0.schedulable(),
            self.yielded(regs).0.same_states(self),
            forall|i: int|
                0 <= i < PROCS_MAX ==> {
                    &&& (#[trigger] self.yielded(regs).0.procs[i]).pid == self.procs[i].pid
                    &&& i != self.current ==> self.yielded(regs).0.procs[i] == self.procs[i]
                },
    {
        self.lemma_next_runnable_is_runnable();
    }

    /// Slot by slot, `other` holds the same states as this table.
    pub open spec fn same_states(self, other: TableView) -> bool {
        &&& self.procs.len() == other.procs.len()
        &&& forall|i: int|
            0 <= i < self.procs.len() ==> (#[trigger] self.procs[i]).state == other.procs[i].state
    }

    /// This table with slot `c` running.
    pub open spec fn running(self, c: int) -> TableView {
        TableView { current: c as nat, ..self }
    }

    /// The slot that runs after `n` yields. A yield changes no state, so
    /// the states and the running slot decide every turn.
    pub open spec fn turn(self, n: nat) -> int
        decreases n,
    {
        if n == 0 {
            self.current as int
        } else {
            self.running(self.next_runnable()).turn((n - 1) as nat)
        }
    }

    /// The table and the registers after `n` yields in a row.
    pub open spec fn after_yields(self, regs: Registers, n: nat) -> (TableView, Registers)
        decreases n,
    {
        if n == 0 {
            (self, regs)
        } else {
            let (table, resumed) = self.yielded(regs);
            table.after_yields(resumed, (n - 1) as nat)
        }
    }

    /// Which slot runs next depends on the states and the running slot
    /// alone.
    pub proof fn lemma_next_runnable_depends_on_states(self, other: TableView)
        requires
            self.procs.len() == PROCS_MAX,
            self.current == other.current,
            self.same_states(other),
        ensures
            self.next_runnable() == other.next_runnable(),
    {
        assert forall|k: int| self.is_first_runnable(k) implies other.is_first_runnable(k) by {
            assert(self.procs[self.rotation(k)].state == other.procs[self.rotation(k)].state);
            assert forall|j: int| 1 <= j < k implies (#[trigger] other.procs[other.rotation(
                j,
            )]).state != State::RUNNABLE by {
                assert(self.procs[self.rotation(j)].state != State::RUNNABLE);
            }
        }
        assert forall|k: int| other.is_first_runnable(k) implies self.is_first_runnable(k) by {
            assert(self.procs[self.rotation(k)].state == other.procs[self.rotation(k)].state);
            assert forall|j: int| 1 <= j < k implies (#[trigger] self.procs[self.rotation(
                j,
            )]).state != State::RUNNABLE by {
                assert(other.procs[other.rotation(j)].state != State::RUNNABLE);
                assert(self.procs[self.rotation(j)].state == other.procs[self.rotation(j)].state);
            }
        }
        if exists|k: int| self.is_first_runnable(k) {
            let k = choose|k: int| self.is_first_runnable(k);
            self.lemma_first_runnable_is_unique(k);
            other.lemma_first_runnable_is_unique(k);
        }
    }

    /// The turns depend on the states and the running slot alone.
    pub proof fn lemma_turn_depends_on_states(self, other: TableView, n: nat)
        requires
            self.procs.len() == PROCS_MAX,
            self.current == other.current,
            self.same_states(other),
        ensures
            self.turn(n) == other.turn(n),
        decreases n,
    {
        if n > 0 {
            self.lemma_next_runnable_depends_on_states(other);
            let next = self.next_runnable();
            self.running(next).lemma_turn_depends_on_states(other.running(next), (n - 1) as nat);
        }
    }

    /// Yields take the turns: after `n` yields in a row the running slot is
    /// `turn(n)`, whatever the registers held, and every slot is in the
    /// state in which it was.
    pub proof fn lemma_yields_take_turns(self, regs: Registers, n: nat)
        requires
            self.schedulable(),
        ensures
            self.after_yields(regs, n).0.current == self.turn(n),
            self.after_yields(regs, n).0.same_states(self),
            self.after_yields(regs, n).0.schedulable(),
        decreases n,
    {
        if n > 0 {
            let (table, resumed) = self.yielded(regs);
            self.lemma_yield_keeps_slots(regs);
            self.lemma_yield_is_round_robin(regs);
            table.lemma_yields_take_turns(resumed, (n - 1) as nat);
            table.lemma_turn_depends_on_states(
                self.running(self.next_runnable()),
                (n - 1) as nat,
            );
        }
    }

    /// Going `f` places round the table and then `g` more is going `f + g`
    /// places.
    pub proof fn lemma_rotation_adds(self, f: int, g: int)
        requires
            0 <= f,
            0 <= g,
        ensures
            self.running(self.rotation(f)).rotation(g) == self.rotation(f + g),
    {
    }

    /// Where the slot `d` places after the running one is runnable, it runs
    /// after at most `d` yields.
    pub proof fn lemma_turn_reaches(self, d: int)
        requires
            self.schedulable(),
            1 <= d <= PROCS_MAX,
            self.procs[self.rotation(d)].state == State::RUNNABLE,
        ensures
            exists|n: nat| 1 <= n <= d && self.turn(n) == self.rotation(d),
        decreases d,
    {
        self.lemma_runnable_place_has_first(d);
        let f = choose|f: int| self.is_first_runnable(f) && f <= d;
        self.lemma_first_runnable_is_unique(f);
        let table = self.running(self.next_runnable());
        if f == d {
            assert(self.turn(1) == table.turn(0));
        } else {
            self.lemma_rotation_adds(f, d - f);
            table.lemma_turn_reaches(d - f);
            let n = choose|n: nat| 1 <= n <= d - f && table.turn(n) == table.rotation(d - f);
            assert(self.turn(n + 1) == table.turn(n));
        }
    }

    /// No runnable process starves: each runnable slot runs after at most
    /// `PROCS_MAX` yields, whichever slot is running now.
    pub proof fn lemma_every_runnable_gets_its_turn(self, slot: int)
        requires
            self.schedulable(),
            0 <= slot < PROCS_MAX,
            self.procs[slot].state == State::RUNNABLE,
        ensures
            exists|n: nat| 1 <= n <= PROCS_MAX && self.turn(n) == slot,
    {
        let d = if slot > self.current {
            slot - self.current
        } else {
            slot - self.current + PROCS_MAX
        };
        assert(self.rotation(d) == slot);
        self.lemma_turn_reaches(d);
    }
}

impl TableView {
    /// The number of runnable slots among the `d` slots that follow the
    /// running one in the rotation. With `d == PROCS_MAX` the rotation has
    /// gone once round the table, so this is the number of runnable slots.
    pub open spec fn runnable_within(self, d: int) -> nat
        decreases d,
    {
        if d <= 0 {
            0
        } else {
            self.runnable_within(d - 1) + if self.procs[self.rotation(d)].state
                == State::RUNNABLE {
                1nat
            } else {
                0nat
            }
        }
    }

    /// The count grows with the stretch of the rotation, by at most one for
    /// each place.
    pub proof fn lemma_runnable_within_grows(self, c: int, d: int)
        requires
            0 <= c <= d,
        ensures
            self.runnable_within(c) <= self.runnable_within(d) <= self.runnable_within(c) + (d
                - c),
        decreases d - c,
    {
        if c < d {
            self.lemma_runnable_within_grows(c, d - 1);
        }
    }

    /// Up to the first runnable place of the rotation the count is zero, and
    /// at that place it is one.
    pub proof fn lemma_runnable_within_first(self, f: int, j: int)
        requires
            self.is_first_runnable(f),
            0 <= j <= f,
        ensures
            self.runnable_within(j) == if j == f {
                1nat
            } else {
                0nat
            },
        decreases j,
    {
        if j > 0 {
            self.lemma_runnable_within_first(f, j - 1);
            if j < f {
                assert(self.procs[self.rotation(j)].state != State::RUNNABLE);
            }
        }
    }

    /// Counting from the slot `f` places on: the runnable slots among the
    /// next `g` are those among the first `f + g` less those among the first
    /// `f`.
    pub proof fn lemma_runnable_within_shifts(self, f: int, g: int)
        requires
            0 <= f,
            0 <= g,
        ensures
            self.running(self.rotation(f)).runnable_within(g) == self.runnable_within(f + g)
                - self.runnable_within(f),
        decreases g,
    {
        if g > 0 {
            self.lemma_runnable_within_shifts(f, g - 1);
            self.lemma_rotation_adds(f, g);
        }
    }

    /// The runnable slots run in the order of the rotation: the slot `d`
    /// places after the running one, where it is runnable, runs after as
    /// many yields as there are runnable slots from the first place up to
    /// it.
    pub proof fn lemma_nth_runnable_runs_nth(self, d: int)
        requires
            self.schedulable(),
            1 <= d <= PROCS_MAX,
            self.procs[self.rotation(d)].state == State::RUNNABLE,
        ensures
            self.runnable_within(d) >= 1,
            self.turn(self.runnable_within(d)) == self.rotation(d),
        decreases d,
    {
        self.lemma_runnable_place_has_first(d);
        let f = choose|f: int| self.is_first_runnable(f) && f <= d;
        self.lemma_first_runnable_is_unique(f);
        self.lemma_runnable_within_first(f, f);
        let table = self.running(self.next_runnable());
        if f == d {
            assert(self.turn(1) == table.turn(0));
        } else {
            self.lemma_rotation_adds(f, d - f);
            self.lemma_runnable_within_shifts(f, d - f);
            table.lemma_nth_runnable_runs_nth(d - f);
            let n = table.runnable_within(d - f);
            assert(self.runnable_within(d) == n + 1);
            assert(self.turn(n + 1) == table.turn(n));
        }
    }

    /// Every count from 1 to the count of a stretch is reached at a runnable
    /// place of that stretch.
    pub proof fn lemma_runnable_within_is_reached(self, d: int, n: nat)
        requires
            1 <= n <= self.runnable_within(d),
        ensures
            exists|c: int|
                1 <= c <= d && self.procs[self.rotation(c)].state == State::RUNNABLE
                    && #[trigger] self.runnable_within(c) == n,
        decreases d,
    {
        if self.procs[self.rotation(d)].state == State::RUNNABLE && self.runnable_within(d) == n {
        } else {
            self.lemma_runnable_within_is_reached(d - 1, n);
        }
    }

    /// Two places of one round that lead to the same slot are the same
    /// place.
    pub proof fn lemma_rotation_is_injective(self, c: int, d: int)
        requires
            1 <= c <= PROCS_MAX,
            1 <= d <= PROCS_MAX,
            self.rotation(c) == self.rotation(d),
        ensures
            c == d,
    {
    }

    /// The runnable slots of the table.
    pub open spec fn runnable_slots(self) -> Set<int> {
        Set::new(|slot: int| 0 <= slot < PROCS_MAX && self.procs[slot].state == State::RUNNABLE)
    }

    /// The runnable slots among the `d` slots that follow the running one
    /// in the rotation.
    pub open spec fn runnable_slots_within(self, d: int) -> Set<int> {
        Set::new(
            |slot: int|
                self.procs[slot].state == State::RUNNABLE && exists|c: int|
                    1 <= c <= d && #[trigger] self.rotation(c) == slot,
        )
    }

    /// `runnable_within` counts the slots of `runnable_slots_within`, and
    /// over one whole round those are all the runnable slots of the table.
    pub proof fn lemma_runnable_within_counts(self, d: int)
        requires
            self.current < PROCS_MAX,
            0 <= d <= PROCS_MAX,
        ensures
            self.runnable_slots_within(d).finite(),
            self.runnable_slots_within(d).len() == self.runnable_within(d),
            self.runnable_slots_within(PROCS_MAX as int) == self.runnable_slots(),
        decreases d,
    {
        if d == 0 {
            assert(self.runnable_slots_within(0) =~= Set::<int>::empty());
        } else {
            self.lemma_runnable_within_counts(d - 1);
            let slot = self.rotation(d);
            let before = self.runnable_slots_within(d - 1);
            if self.procs[slot].state == State::RUNNABLE {
                assert(!before.contains(slot)) by {
                    if before.contains(slot) {
                        let c = choose|c: int| 1 <= c <= d - 1 && #[trigger] self.rotation(c) == slot;
                        self.lemma_rotation_is_injective(c, d);
                    }
                }
                assert(self.runnable_slots_within(d) =~= before.insert(slot));
            } else {
                assert(self.runnable_slots_within(d) =~= before);
            }
        }
        assert(self.runnable_slots_within(PROCS_MAX as int) =~= self.runnable_slots()) by {
            assert forall|slot: int| self.runnable_slots().contains(slot) implies self.runnable_slots_within(
                PROCS_MAX as int,
            ).contains(slot) by {
                let c = if slot > self.current {
                    slot - self.current
                } else {
                    slot - self.current + PROCS_MAX
                };
                assert(self.rotation(c) == slot);
            }
        }
    }

    /// One round of yields visits every runnable slot once. Let the running
    /// slot be runnable, and let `m` be the number of runnable slots, which
    /// is `runnable_within(PROCS_MAX)`. Then
    /// the `m` yields that follow go through the runnable slots in the order
    /// of the rotation: each turn is a runnable slot, no slot has two turns,
    /// every runnable slot has one, and the last turn is the slot that was
    /// running at first.
    pub proof fn lemma_round_of_turns(self)
        requires
            self.schedulable(),
            self.procs[self.current as int].state == State::RUNNABLE,
        ensures
            self.runnable_within(PROCS_MAX as int) == self.runnable_slots().len(),
            1 <= self.runnable_within(PROCS_MAX as int) <= PROCS_MAX,
            self.turn(self.runnable_within(PROCS_MAX as int)) == self.current,
            forall|n: nat|
                1 <= n <= self.runnable_within(PROCS_MAX as int) ==> 0 <= #[trigger] self.turn(n)
                    < PROCS_MAX && self.procs[self.turn(n)].state == State::RUNNABLE,
            forall|i: nat, j: nat|
                1 <= i < j <= self.runnable_within(PROCS_MAX as int) ==> #[trigger] self.turn(i)
                    != #[trigger] self.turn(j),
            forall|slot: int|
                0 <= slot < PROCS_MAX && (#[trigger] self.procs[slot]).state == State::RUNNABLE
                    ==> exists|n: nat|
                    1 <= n <= self.runnable_within(PROCS_MAX as int) && self.turn(n) == slot,
    {
        let m = self.runnable_within(PROCS_MAX as int);
        self.lemma_runnable_within_counts(PROCS_MAX as int);
        assert(self.rotation(PROCS_MAX as int) == self.current);
        self.lemma_nth_runnable_runs_nth(PROCS_MAX as int);
        self.lemma_runnable_within_grows(0, PROCS_MAX as int);
        assert forall|n: nat| 1 <= n <= m implies 0 <= #[trigger] self.turn(n) < PROCS_MAX
            && self.procs[self.turn(n)].state == State::RUNNABLE by {
            self.lemma_runnable_within_is_reached(PROCS_MAX as int, n);
            let c = choose|c: int|
                1 <= c <= PROCS_MAX && self.procs[self.rotation(c)].state == State::RUNNABLE
                    && #[trigger] self.runnable_within(c) == n;
            self.lemma_nth_runnable_runs_nth(c);
        }
        assert forall|i: nat, j: nat| 1 <= i < j <= m implies #[trigger] self.turn(i)
            != #[trigger] self.turn(j) by {
            self.lemma_runnable_within_is_reached(PROCS_MAX as int, i);
            let c = choose|c: int|
                1 <= c <= PROCS_MAX && self.procs[self.rotation(c)].state == State::RUNNABLE
                    && #[trigger] self.runnable_within(c) == i;
            self.lemma_nth_runnable_runs_nth(c);
            self.lemma_runnable_within_is_reached(PROCS_MAX as int, j);
            let d = choose|d: int|
                1 <= d <= PROCS_MAX && self.procs[self.rotation(d)].state == State::RUNNABLE
                    && #[trigger] self.runnable_within(d) == j;
            self.lemma_nth_runnable_runs_nth(d);
            if self.turn(i) == self.turn(j) {
                self.lemma_rotation_is_injective(c, d);
            }
        }
        assert forall|slot: int|
            0 <= slot < PROCS_MAX && (#[trigger] self.procs[slot]).state
                == State::RUNNABLE implies exists|n: nat|
            1 <= n <= m && self.turn(n) == slot by {
            let d = if slot > self.current {
                slot - self.current
            } else {
                slot - self.current + PROCS_MAX
            };
            assert(self.rotation(d) == slot);
            self.lemma_nth_runnable_runs_nth(d);
            self.lemma_runnable_within_grows(d, PROCS_MAX as int);
            assert(self.turn(self.runnable_within(d)) == slot);
        }
    }

    /// One round of yields, on the table itself: with the running slot
    /// runnable and `m` runnable slots in all, the running slot after each of
    /// the next `m` calls of `yield_proc` is a runnable one, no slot is the
    /// running one after two of them, every runnable slot is after one, and
    /// after the last the slot that was running at first runs again. What
    /// the registers hold plays no part.
    pub proof fn lemma_round_of_yields(self, regs: Registers)
        requires
            self.schedulable(),
            self.procs[self.current as int].state == State::RUNNABLE,
        ensures
            self.runnable_within(PROCS_MAX as int) == self.runnable_slots().len(),
            1 <= self.runnable_within(PROCS_MAX as int) <= PROCS_MAX,
            self.after_yields(regs, self.runnable_within(PROCS_MAX as int)).0.current
                == self.current,
            forall|n: nat|
                1 <= n <= self.runnable_within(PROCS_MAX as int) ==> self.procs[(
                #[trigger] self.after_yields(regs, n)).0.current as int].state == State::RUNNABLE,
            forall|i: nat, j: nat|
                1 <= i < j <= self.runnable_within(PROCS_MAX as int) ==> (
                #[trigger] self.after_yields(regs, i)).0.current != (#[trigger] self.after_yields(
                    regs,
                    j,
                )).0.current,
            forall|slot: int|
                0 <= slot < PROCS_MAX && (#[trigger] self.procs[slot]).state == State::RUNNABLE
                    ==> exists|n: nat|
                    1 <= n <= self.runnable_within(PROCS_MAX as int) && self.after_yields(
                        regs,
                        n,
                    ).0.current == slot,
    {
        let m = self.runnable_within(PROCS_MAX as int);
        self.lemma_round_of_turns();
        self.lemma_yields_take_turns(regs, m);
        assert forall|n: nat| 1 <= n <= m implies self.procs[(#[trigger] self.after_yields(
            regs,
            n,
        )).0.current as int].state == State::RUNNABLE by {
            self.lemma_yields_take_turns(regs, n);
            assert(self.procs[self.turn(n)].state == State::RUNNABLE);
        }
        assert forall|i: nat, j: nat| 1 <= i < j <= m implies (#[trigger] self.after_yields(
            regs,
            i,
        )).0.current != (#[trigger] self.after_yields(regs, j)).0.current by {
            self.lemma_yields_take_turns(regs, i);
            self.lemma_yields_take_turns(regs, j);
            assert(self.turn(i) != self.turn(j));
        }
        assert forall|slot: int|
            0 <= slot < PROCS_MAX && (#[trigger] self.procs[slot]).state
                == State::RUNNABLE implies exists|n: nat|
            1 <= n <= m && self.after_yields(regs, n).0.current == slot by {
            let n = choose|n: nat| 1 <= n <= m && self.turn(n) == slot;
            self.lemma_yields_take_turns(regs, n);
        }
    }
}

/// A switch away and back restores the context. Let slot `a` run with
/// registers `regs` and switch to slot `b`, and let `b` later switch back
/// with registers `meanwhile`, whatever they hold. Then the return address,
/// `s0` to `s11` and the stack pointer are again those of `regs`, bit for
/// bit; every other register is as `b` left it.
pub proof fn lemma_switch_round_trip(
    procs: Seq<ProcessView>,
    regs: Registers,
    a: int,
    b: int,
    meanwhile: Registers,
)
    requires
        procs.len() == PROCS_MAX,
        0 <= a < PROCS_MAX,
        0 <= b < PROCS_MAX,
        a != b,
        procs[a].wf(),
        regs.has_room(CONTEXT_WORDS as int),
        meanwhile.has_room(CONTEXT_WORDS as int),
    ensures
        ({
            let away = switched(procs, regs, a, b);
            let back = switched(away.0, meanwhile, b, a);
            &&& back.1.context() == regs.context()
            &&& back.1.sp == regs.sp
            &&& back.1 == meanwhile.with_context(regs.context(), regs.sp)
            &&& back.0[a] == away.0[a]
        }),
{
    let away = switched(procs, regs, a, b);
    let at = regs.sp - CONTEXT_WORDS;
    assert(load_words(away.0[a].stack, at, CONTEXT_WORDS as int) =~= regs.context());
    let back = switched(away.0, meanwhile, b, a);
    assert(back.1.context() =~= regs.context());
}

/// The first switch into a process is like any later one: resuming a slot
/// that was just created enters the process at its entry address with `s0`
/// to `s11` zero and an empty stack.
pub proof fn lemma_first_resume(slot: ProcessView, pid: nat, entry: u32, regs: Registers)
    requires
        slot.stack.len() == STACK_WORDS,
    ensures
        slot.spawned(pid, entry).resumed(regs) == regs.with_context(
            initial_context(entry),
            STACK_WORDS as u32,
        ),
        slot.spawned(pid, entry).resumed(regs).ra == entry,
        slot.spawned(pid, entry).resumed(regs).sp == STACK_WORDS,
{
    let at = STACK_WORDS - CONTEXT_WORDS;
    assert(load_words(slot.spawned(pid, entry).stack, at, CONTEXT_WORDS as int) =~= initial_context(
        entry,
    ));
}

} // verus!
