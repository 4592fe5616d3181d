use kernel::process::{Process, ProcessManager, State};
use kernel::trap::{handle_trap, load_trap_frame, trap_entry};
use kernel::types::{Csrs, Fatal, Registers, CONTEXT_WORDS, PROCS_MAX, STACK_WORDS};

fn registers_at_top() -> Registers {
    Registers { sp: STACK_WORDS as u32, ..Registers::default() }
}

fn table_with(processes: usize) -> ProcessManager {
    let mut pm = ProcessManager::new();
    for k in 0..processes {
        assert_eq!(pm.create(0x8020_0000 + 0x100 * k as u32), Ok(()));
    }
    pm
}

#[test]
fn new_process_is_unused_and_zeroed() {
    let p = Process::new();
    assert_eq!(p.pid(), 0);
    assert_eq!(p.state(), State::UNUSED);
    assert_eq!(p.sp(), 0);
    assert!(p.stack().iter().all(|w| *w == 0));
}

#[test]
fn new_table_reserves_slot_zero() {
    let pm = ProcessManager::new();
    assert_eq!(pm.current(), 0);
    assert_eq!(pm.procs()[0].state(), State::IDLE);
    assert_eq!(pm.procs()[0].pid(), 0);
    for i in 1..PROCS_MAX {
        assert_eq!(pm.procs()[i].state(), State::UNUSED);
    }
}

#[test]
fn create_assigns_pids_in_creation_order() {
    let mut pm = ProcessManager::new();
    for k in 1..PROCS_MAX {
        assert_eq!(pm.create(0x1000 * k as u32), Ok(()));
        assert_eq!(pm.procs()[k].pid(), k as u32);
        assert_eq!(pm.procs()[k].state(), State::RUNNABLE);
        assert_eq!(pm.procs()[k].stack()[STACK_WORDS - CONTEXT_WORDS], 0x1000 * k as u32);
        for later in k + 1..PROCS_MAX {
            assert_eq!(pm.procs()[later].state(), State::UNUSED);
        }
    }
    assert_eq!(pm.procs()[0].state(), State::IDLE);
    assert_eq!(pm.procs()[0].pid(), 0);
    assert_eq!(pm.current(), 0);
}

#[test]
fn create_writes_the_initial_context() {
    let mut pm = ProcessManager::new();
    assert_eq!(pm.create(0xdead_beef), Ok(()));
    let p = &pm.procs()[1];
    assert_eq!(p.sp(), STACK_WORDS - CONTEXT_WORDS);
    assert_eq!(p.sp(), 2035);
    assert_eq!(p.stack()[2035], 0xdead_beef);
    for k in 2036..STACK_WORDS {
        assert_eq!(p.stack()[k], 0);
    }
    for k in 0..2035 {
        assert_eq!(p.stack()[k], 0);
    }
}

#[test]
fn create_fails_when_the_table_is_full() {
    let mut pm = table_with(PROCS_MAX - 1);
    let before: Vec<(u32, State, usize)> =
        pm.procs().iter().map(|p| (p.pid(), p.state(), p.sp())).collect();
    assert_eq!(pm.create(0x4444), Err(Fatal::NoFreeProcessSlots));
    let after: Vec<(u32, State, usize)> =
        pm.procs().iter().map(|p| (p.pid(), p.state(), p.sp())).collect();
    assert_eq!(before, after);
    for i in 1..PROCS_MAX {
        assert_ne!(pm.procs()[i].stack()[STACK_WORDS - CONTEXT_WORDS], 0x4444);
    }
    assert_eq!(pm.create(0x4444), Err(Fatal::NoFreeProcessSlots));
}

#[test]
fn first_yield_enters_the_first_process_at_its_entry() {
    let mut pm = ProcessManager::new();
    assert_eq!(pm.create(0x8020_0abc), Ok(()));
    let mut regs = Registers {
        ra: 0x11,
        s0: 0x22,
        s11: 0x33,
        a0: 0x44,
        t6: 0x55,
        ..registers_at_top()
    };
    pm.yield_proc(&mut regs);
    assert_eq!(pm.current(), 1);
    assert_eq!(regs.ra, 0x8020_0abc);
    assert_eq!(regs.s0, 0);
    assert_eq!(regs.s11, 0);
    assert_eq!(regs.sp, STACK_WORDS as u32);
    assert_eq!(regs.a0, 0x44);
    assert_eq!(regs.t6, 0x55);
    let idle = &pm.procs()[0];
    assert_eq!(idle.sp(), STACK_WORDS - CONTEXT_WORDS);
    assert_eq!(idle.stack()[2035], 0x11);
    assert_eq!(idle.stack()[2036], 0x22);
    assert_eq!(idle.stack()[2047], 0x33);
}

#[test]
fn round_robin_visits_runnable_slots_in_rotation() {
    let mut pm = table_with(3);
    let mut regs = registers_at_top();
    pm.yield_proc(&mut regs);
    assert_eq!(pm.current(), 1);
    let mut visited = Vec::new();
    for _ in 0..6 {
        pm.yield_proc(&mut regs);
        visited.push(pm.current());
    }
    assert_eq!(visited, vec![2, 3, 1, 2, 3, 1]);
}

#[test]
fn round_robin_resumes_each_process_where_it_left() {
    let mut pm = table_with(2);
    let mut regs = registers_at_top();
    pm.yield_proc(&mut regs);
    assert_eq!((pm.current(), regs.ra), (1, 0x8020_0000));
    regs.ra = 0x1111;
    regs.s5 = 0x15;
    regs.sp = 2000;
    pm.yield_proc(&mut regs);
    assert_eq!((pm.current(), regs.ra, regs.s5, regs.sp), (2, 0x8020_0100, 0, 2048));
    regs.ra = 0x2222;
    regs.s5 = 0x25;
    regs.sp = 1900;
    pm.yield_proc(&mut regs);
    assert_eq!((pm.current(), regs.ra, regs.s5, regs.sp), (1, 0x1111, 0x15, 2000));
    pm.yield_proc(&mut regs);
    assert_eq!((pm.current(), regs.ra, regs.s5, regs.sp), (2, 0x2222, 0x25, 1900));
}

#[test]
fn yield_with_no_process_is_a_no_op() {
    let mut pm = ProcessManager::new();
    let mut regs = Registers { ra: 7, s3: 9, sp: 100, ..Registers::default() };
    let before = regs;
    pm.yield_proc(&mut regs);
    assert_eq!(pm.current(), 0);
    assert_eq!(regs, before);
    for p in pm.procs().iter() {
        assert_eq!(p.sp(), 0);
        assert!(p.stack().iter().all(|w| *w == 0));
    }
}

#[test]
fn yield_of_the_only_runnable_process_is_a_no_op() {
    let mut pm = table_with(1);
    let mut regs = registers_at_top();
    pm.yield_proc(&mut regs);
    assert_eq!(pm.current(), 1);
    regs.ra = 0xaaaa;
    regs.s7 = 0xbbbb;
    regs.sp = 1500;
    let before = regs;
    let sps: Vec<usize> = pm.procs().iter().map(|p| p.sp()).collect();
    let stack = *pm.procs()[1].stack();
    pm.yield_proc(&mut regs);
    assert_eq!(pm.current(), 1);
    assert_eq!(regs, before);
    assert_eq!(sps, pm.procs().iter().map(|p| p.sp()).collect::<Vec<usize>>());
    assert_eq!(stack[..], pm.procs()[1].stack()[..]);
}

#[test]
fn yield_needs_no_room_when_nothing_is_switched() {
    let mut pm = ProcessManager::new();
    let mut regs = Registers { sp: 0, ..Registers::default() };
    pm.yield_proc(&mut regs);
    assert_eq!(pm.current(), 0);
    assert_eq!(regs.sp, 0);
}

#[test]
fn yield_wraps_round_the_end_of_the_table() {
    let mut pm = table_with(PROCS_MAX - 1);
    let mut regs = registers_at_top();
    let mut visited = Vec::new();
    for _ in 0..9 {
        pm.yield_proc(&mut regs);
        visited.push(pm.current());
    }
    assert_eq!(visited, vec![1, 2, 3, 4, 5, 6, 7, 1, 2]);
}

#[test]
fn every_runnable_process_runs_within_one_round() {
    for processes in 1..PROCS_MAX {
        for start in 0..processes {
            let mut pm = table_with(processes);
            let mut regs = registers_at_top();
            for _ in 0..start + 1 {
                pm.yield_proc(&mut regs);
            }
            let mut seen = vec![false; PROCS_MAX];
            for _ in 0..processes {
                pm.yield_proc(&mut regs);
                assert!(!seen[pm.current()]);
                seen[pm.current()] = true;
            }
            for slot in 1..PROCS_MAX {
                assert_eq!(seen[slot], slot <= processes);
            }
            assert!(!seen[0]);
        }
    }
}

#[test]
fn running_stack_is_the_stack_of_the_running_slot() {
    let mut pm = table_with(2);
    let mut regs = registers_at_top();
    pm.yield_proc(&mut regs);
    assert_eq!(pm.current(), 1);
    pm.running_stack()[100] = 0xfeed;
    assert_eq!(pm.procs()[1].stack()[100], 0xfeed);
    assert_eq!(pm.procs()[0].stack()[100], 0);
    assert_eq!(pm.procs()[2].stack()[100], 0);
    assert_eq!(pm.current(), 1);
    assert_eq!(pm.procs()[1].state(), State::RUNNABLE);
}

#[test]
fn a_trap_in_a_process_is_fatal_and_leaves_its_frame_on_its_stack() {
    let mut pm = table_with(2);
    let mut regs = registers_at_top();
    pm.yield_proc(&mut regs);
    regs.a0 = 0x1234;
    regs.sp = 2000;
    let mut csrs =
        Csrs { stvec: 0, sscratch: 0, scause: 5, stval: 0x4000_0000, sepc: 0x8020_0010 };
    let at = trap_entry(&mut regs, &mut csrs, pm.running_stack());
    let frame = load_trap_frame(pm.procs()[1].stack(), at);
    assert_eq!(at, 1969);
    assert_eq!((frame.a0, frame.sp, frame.ra), (0x1234, 2000, 0x8020_0000));
    assert_eq!(
        handle_trap(&frame, &csrs),
        Fatal::UnexpectedTrap { scause: 5, stval: 0x4000_0000, sepc: 0x8020_0010 }
    );
    assert_eq!(pm.current(), 1);
    assert!(pm.procs()[2].stack()[..2035].iter().all(|w| *w == 0));
}

#[test]
fn one_round_of_yields_ends_where_it_began() {
    for processes in 1..PROCS_MAX {
        for start in 1..processes + 1 {
            let mut pm = table_with(processes);
            let mut regs = registers_at_top();
            for _ in 0..start {
                pm.yield_proc(&mut regs);
            }
            assert_eq!(pm.current(), start);
            let mut turns = Vec::new();
            for _ in 0..processes {
                pm.yield_proc(&mut regs);
                turns.push(pm.current());
            }
            let expected: Vec<usize> =
                (1..processes + 1).map(|k| (start - 1 + k) % processes + 1).collect();
            assert_eq!(turns, expected);
            assert_eq!(turns[processes - 1], start);
        }
    }
}

#[test]
fn create_never_takes_slot_zero() {
    let mut pm = ProcessManager::new();
    for _ in 1..PROCS_MAX {
        assert_eq!(pm.create(0x9000), Ok(()));
        assert_eq!(pm.procs()[0].state(), State::IDLE);
        assert!(pm.procs()[0].stack().iter().all(|w| *w == 0));
    }
}
