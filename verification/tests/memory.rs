use kernel::common_func::{memset, putchar, sbi_call};
use kernel::page_alloc::{alloc_pages, PageAllocator};
use kernel::types::{write_words, Fatal, SbiCall, PAGE_SIZE, STACK_WORDS};

const FREE_RAM: usize = 0x8022_0000;

fn dirty_arena(pages: usize) -> PageAllocator {
    PageAllocator::new(FREE_RAM, vec![0xa5u8; pages * PAGE_SIZE])
}

#[test]
fn putchar_builds_the_console_call() {
    assert_eq!(
        putchar(b'A'),
        SbiCall { arg0: 65, arg1: 0, arg2: 0, arg3: 0, arg4: 0, arg5: 0, fid: 0, eid: 1 }
    );
    assert_eq!(putchar(0).arg0, 0);
    assert_eq!(putchar(255).arg0, 255);
    assert_eq!(putchar(b'\n').eid, 1);
}

#[test]
fn sbi_call_puts_each_argument_in_its_register() {
    assert_eq!(
        sbi_call(1, -2, 3, -4, 5, -6, 7, 8),
        SbiCall { arg0: 1, arg1: -2, arg2: 3, arg3: -4, arg4: 5, arg5: -6, fid: 7, eid: 8 }
    );
    assert_eq!(putchar(b'x'), sbi_call(120, 0, 0, 0, 0, 0, 0, 1));
}

#[test]
fn memset_fills_exactly_the_range() {
    let mut mem = vec![1u8, 2, 3, 4, 5, 6, 7, 8];
    assert_eq!(memset(&mut mem, 2, 0xff, 3), 2);
    assert_eq!(mem, vec![1, 2, 0xff, 0xff, 0xff, 6, 7, 8]);
}

#[test]
fn memset_of_nothing_changes_nothing() {
    let mut mem = vec![1u8, 2, 3];
    assert_eq!(memset(&mut mem, 3, 9, 0), 3);
    assert_eq!(mem, vec![1, 2, 3]);
    let mut empty: Vec<u8> = Vec::new();
    assert_eq!(memset(&mut empty, 0, 9, 0), 0);
    assert!(empty.is_empty());
}

#[test]
fn memset_of_the_whole_buffer() {
    let mut mem = vec![7u8; 100];
    memset(&mut mem, 0, 0, 100);
    assert_eq!(mem, vec![0u8; 100]);
}

#[test]
fn write_words_stores_lowest_position_first() {
    let mut stack = [0u32; STACK_WORDS];
    write_words(&mut stack, 10, &[1, 2, 3]);
    assert_eq!(stack[9..14], [0, 1, 2, 3, 0]);
    write_words(&mut stack, STACK_WORDS - 1, &[9]);
    assert_eq!(stack[STACK_WORDS - 1], 9);
    write_words(&mut stack, STACK_WORDS, &[]);
    assert_eq!(stack[10], 1);
}

#[test]
fn new_arena_has_its_cursor_at_the_start() {
    let arena = dirty_arena(2);
    assert_eq!(arena.free_ram(), FREE_RAM);
    assert_eq!(arena.free_ram_end(), FREE_RAM + 2 * PAGE_SIZE);
    assert_eq!(arena.next_paddr(), FREE_RAM);
    assert!(arena.ram().iter().all(|b| *b == 0xa5));
}

#[test]
fn successive_pages_are_one_page_apart() {
    let mut arena = dirty_arena(4);
    let first = alloc_pages(&mut arena, 1).unwrap();
    let second = alloc_pages(&mut arena, 1).unwrap();
    assert_eq!(first, FREE_RAM);
    assert_eq!(second - first, PAGE_SIZE);
    assert_eq!(second, 0x8022_1000);
    assert_eq!(arena.next_paddr(), FREE_RAM + 2 * PAGE_SIZE);
}

#[test]
fn allocated_pages_are_zeroed_and_nothing_else_is() {
    let mut arena = dirty_arena(4);
    let first = alloc_pages(&mut arena, 1).unwrap();
    assert!(arena.ram()[..PAGE_SIZE].iter().all(|b| *b == 0));
    assert!(arena.ram()[PAGE_SIZE..].iter().all(|b| *b == 0xa5));
    let second = alloc_pages(&mut arena, 2).unwrap();
    let from = second - FREE_RAM;
    assert_eq!(from, first - FREE_RAM + PAGE_SIZE);
    assert!(arena.ram()[from..from + 2 * PAGE_SIZE].iter().all(|b| *b == 0));
    assert!(arena.ram()[3 * PAGE_SIZE..].iter().all(|b| *b == 0xa5));
}

#[test]
fn allocation_of_several_pages_moves_the_cursor_by_all_of_them() {
    let mut arena = dirty_arena(8);
    assert_eq!(alloc_pages(&mut arena, 3), Ok(FREE_RAM));
    assert_eq!(alloc_pages(&mut arena, 5), Ok(FREE_RAM + 3 * 4096));
    assert_eq!(arena.next_paddr(), arena.free_ram_end());
}

#[test]
fn allocation_fails_only_when_it_would_cross_the_end() {
    let mut arena = dirty_arena(3);
    assert_eq!(alloc_pages(&mut arena, 1), Ok(FREE_RAM));
    assert_eq!(alloc_pages(&mut arena, 1), Ok(FREE_RAM + PAGE_SIZE));
    assert_eq!(alloc_pages(&mut arena, 2), Err(Fatal::OutOfMemory));
    assert_eq!(arena.next_paddr(), FREE_RAM + 2 * PAGE_SIZE);
    assert!(arena.ram()[2 * PAGE_SIZE..].iter().all(|b| *b == 0xa5));
    assert_eq!(alloc_pages(&mut arena, 1), Ok(FREE_RAM + 2 * PAGE_SIZE));
    assert_eq!(alloc_pages(&mut arena, 1), Err(Fatal::OutOfMemory));
    assert_eq!(alloc_pages(&mut arena, 1), Err(Fatal::OutOfMemory));
    assert_eq!(arena.next_paddr(), arena.free_ram_end());
}

#[test]
fn allocation_of_the_whole_region_succeeds() {
    let mut arena = dirty_arena(2);
    assert_eq!(alloc_pages(&mut arena, 2), Ok(FREE_RAM));
    assert!(arena.ram().iter().all(|b| *b == 0));
}

#[test]
fn huge_request_is_out_of_memory() {
    let mut arena = dirty_arena(1);
    assert_eq!(alloc_pages(&mut arena, u32::MAX), Err(Fatal::OutOfMemory));
    assert_eq!(alloc_pages(&mut arena, 0x10_0000), Err(Fatal::OutOfMemory));
    assert_eq!(arena.next_paddr(), FREE_RAM);
    assert!(arena.ram().iter().all(|b| *b == 0xa5));
}

#[test]
fn region_that_ends_inside_a_page_cannot_give_that_page() {
    let mut arena = PageAllocator::new(FREE_RAM, vec![1u8; PAGE_SIZE + 100]);
    assert_eq!(alloc_pages(&mut arena, 1), Ok(FREE_RAM));
    assert_eq!(alloc_pages(&mut arena, 1), Err(Fatal::OutOfMemory));
    assert!(arena.ram()[PAGE_SIZE..].iter().all(|b| *b == 1));
}

#[test]
fn allocation_of_no_page_returns_the_cursor() {
    let mut arena = dirty_arena(1);
    assert_eq!(alloc_pages(&mut arena, 0), Ok(FREE_RAM));
    assert_eq!(arena.next_paddr(), FREE_RAM);
    assert!(arena.ram().iter().all(|b| *b == 0xa5));
    assert_eq!(alloc_pages(&mut arena, 1), Ok(FREE_RAM));
    assert_eq!(alloc_pages(&mut arena, 0), Ok(FREE_RAM + PAGE_SIZE));
}

#[test]
fn region_at_address_zero() {
    let mut arena = PageAllocator::new(0, vec![3u8; 2 * PAGE_SIZE]);
    assert_eq!(alloc_pages(&mut arena, 0), Ok(0));
    assert_eq!(alloc_pages(&mut arena, 1), Ok(0));
    assert_eq!(alloc_pages(&mut arena, 1), Ok(PAGE_SIZE));
    assert_eq!(alloc_pages(&mut arena, 1), Err(Fatal::OutOfMemory));
}

#[test]
fn a_page_can_be_written_and_read_back() {
    let mut arena = dirty_arena(2);
    let page = alloc_pages(&mut arena, 1).unwrap();
    arena.write_byte(page, 0x11);
    arena.write_byte(page + PAGE_SIZE - 1, 0x22);
    assert_eq!(arena.read_byte(page), 0x11);
    assert_eq!(arena.read_byte(page + 1), 0);
    assert_eq!(arena.read_byte(page + PAGE_SIZE - 1), 0x22);
    assert_eq!(arena.read_byte(page + PAGE_SIZE), 0xa5);
    assert_eq!(arena.next_paddr(), FREE_RAM + PAGE_SIZE);
    assert_eq!(arena.ram()[0], 0x11);
    assert_eq!(arena.ram().iter().filter(|b| **b == 0).count(), PAGE_SIZE - 2);
}

#[test]
fn a_later_allocation_keeps_what_was_written() {
    let mut arena = dirty_arena(3);
    let first = alloc_pages(&mut arena, 1).unwrap();
    arena.write_byte(first + 7, 0x77);
    let second = alloc_pages(&mut arena, 2).unwrap();
    assert_eq!(second, first + PAGE_SIZE);
    assert_eq!(arena.read_byte(first + 7), 0x77);
    assert_eq!(arena.read_byte(first + 8), 0);
    arena.write_byte(second, 0x99);
    assert_eq!(alloc_pages(&mut arena, 1), Err(Fatal::OutOfMemory));
    assert_eq!(arena.read_byte(first + 7), 0x77);
    assert_eq!(arena.read_byte(second), 0x99);
}
