//! The physical page allocator: one cursor that only moves forward through a
//! reserved region of memory. Pages are handed out zeroed and never come
//! back.

use vstd::prelude::*;
use crate::common_func::{fill_bytes, memset};
use crate::types::{Fatal, Paddr, PAGE_SIZE};

verus! {

/// The mathematical value of a `PageAllocator`: the region `[start, end)`,
/// the bytes it holds, and the cursor `next`, the address that the next
/// allocation returns.
pub struct ArenaView {
    pub start: nat,
    pub end: nat,
    pub next: nat,
    pub ram: Seq<u8>,
}

/// The reserved region and the allocation cursor.
pub struct PageAllocator {
    free_ram: Paddr,
    ram: Vec<u8>,
    next_paddr: Paddr,
}

impl ArenaView {
    /// The cursor lies in the region, a whole number of pages from its
    /// start, and `ram` holds one byte for each address of the region.
    pub open spec fn wf(self) -> bool {
        &&& self.start <= self.next <= self.end
        &&& self.end <= usize::MAX
        &&& self.ram.len() == self.end - self.start
        &&& (self.next - self.start) % (PAGE_SIZE as int) == 0
    }

    /// The region still holds `n` pages.
    pub open spec fn fits(self, n: nat) -> bool {
        self.next + n * PAGE_SIZE <= self.end
    }

    /// The byte at address `paddr` of the region.
    pub open spec fn byte(self, paddr: int) -> u8 {
        self.ram[paddr - self.start]
    }

    /// The arena with `value` at address `paddr`, every other byte kept.
    pub open spec fn written(self, paddr: int, value: u8) -> ArenaView {
        ArenaView { ram: self.ram.update(paddr - self.start, value), ..self }
    }

    /// The arena after `n` pages were taken: the cursor has moved on by
    /// `n` pages and the bytes it passed are zero. An arena that does not
    /// hold `n` pages stays as it is.
    pub open spec fn allocated(self, n: nat) -> ArenaView {
        if self.fits(n) {
            ArenaView {
                next: (self.next + n * PAGE_SIZE) as nat,
                ram: fill_bytes(self.ram, self.next - self.start, (n * PAGE_SIZE) as int, 0),
                ..self
            }
        } else {
            self
        }
    }
}

impl View for PageAllocator {
    type V = ArenaView;

    closed spec fn view(&self) -> ArenaView {
        ArenaView {
            start: self.free_ram as nat,
            end: (self.free_ram + self.ram@.len()) as nat,
            next: if self.next_paddr == 0 {
                self.free_ram as nat
            } else {
                self.next_paddr as nat
            },
            ram: self.ram@,
        }
    }
}

impl PageAllocator {
    /// The invariant of the allocator, on its value.
    pub open spec fn wf(&self) -> bool {
        self@.wf()
    }

    /// An allocator for the region that starts at `free_ram` and holds the
    /// bytes `ram`. Nothing is allocated yet.
    pub fn new(free_ram: Paddr, ram: Vec<u8>) -> (arena: PageAllocator)
        requires
            free_ram + ram@.len() <= usize::MAX,
        ensures
            arena.wf(),
            arena@ == (ArenaView {
                start: free_ram as nat,
                end: (free_ram + ram@.len()) as nat,
                next: free_ram as nat,
                ram: ram@,
            }),
    {
        PageAllocator { free_ram, ram, next_paddr: 0 }
    }

    /// The first address of the region.
    pub fn free_ram(&self) -> (start: Paddr)
        ensures
            start == self@.start,
    {
        self.free_ram
    }

    /// The address just past the region.
    pub fn free_ram_end(&self) -> (end: Paddr)
        requires
            self.wf(),
        ensures
            end == self@.end,
    {
        self.free_ram + self.ram.len()
    }

    /// The cursor: the address that the next allocation returns.
    pub fn next_paddr(&self) -> (next: Paddr)
        ensures
            next == self@.next,
    {
        if self.next_paddr == 0 {
            self.free_ram
        } else {
            self.next_paddr
        }
    }

    /// The byte at address `paddr` of the region.
    pub fn read_byte(&self, paddr: Paddr) -> (value: u8)
        requires
            self.wf(),
            self@.start <= paddr < self@.end,
        ensures
            value == self@.byte(paddr as int),
    {
        self.ram[paddr - self.free_ram]
    }

    /// Writes `value` at address `paddr`, which lies in a page that was
    /// handed out. No other byte changes, and the cursor stays.
    pub fn write_byte(&mut self, paddr: Paddr, value: u8)
        requires
            old(self).wf(),
            old(self)@.start <= paddr < old(self)@.next,
        ensures
            final(self).wf(),
            final(self)@ == old(self)@.written(paddr as int, value),
    {
        let at = paddr - self.free_ram;
        self.ram[at] = value;
    }

    /// The bytes of the region, the one at address `free_ram` first.
    pub fn ram(&self) -> (ram: &Vec<u8>)
        ensures
            ram@ == self@.ram,
    {
        &self.ram
    }
}

/// Allocates `n` pages. The result is the cursor's address before the call;
/// the cursor moves on by `n * PAGE_SIZE` and every byte of the pages is set
/// to zero. Where the region does not hold `n` more pages, nothing changes
/// and the error is `Fatal::OutOfMemory`.
pub fn alloc_pages(arena: &mut PageAllocator, n: u32) -> (result: Result<Paddr, Fatal>)
    requires
        old(arena).wf(),
    ensures
        final(arena).wf(),
        final(arena)@ == old(arena)@.allocated(n as nat),
        result is Ok <==> old(arena)@.fits(n as nat),
        result matches Ok(paddr) ==> paddr == old(arena)@.next,
        result matches Err(fatal) ==> fatal == Fatal::OutOfMemory,
{
    let cursor: usize = if arena.next_paddr == 0 {
        arena.free_ram
    } else {
        arena.next_paddr
    };
    let left: usize = arena.free_ram + arena.ram.len() - cursor;
    let wanted: u64 = (n as u64) * (PAGE_SIZE as u64);
    if wanted > left as u64 {
        return Err(Fatal::OutOfMemory);
    }
    let bytes: usize = wanted as usize;
    memset(&mut arena.ram, cursor - arena.free_ram, 0, bytes);
    arena.next_paddr = cursor + bytes;
    Ok(cursor)
}

impl ArenaView {
    /// Allocations follow one another without gap or overlap. Of two
    /// allocations in a row, the second starts exactly where the first
    /// ends, so for single pages the two addresses differ by `PAGE_SIZE`
    /// and the two ranges are disjoint. After the second, every byte of its
    /// range is zero, and every byte of the first range is what it was
    /// before the second.
    pub proof fn lemma_successive_allocations(self, n1: nat, n2: nat)
        requires
            self.wf(),
            self.fits(n1),
            self.allocated(n1).fits(n2),
        ensures
            ({
                let first = self.next;
                let mid = self.allocated(n1);
                let second = mid.next;
                let last = mid.allocated(n2);
                &&& last.wf()
                &&& second == first + n1 * PAGE_SIZE
                &&& last.next == second + n2 * PAGE_SIZE
                &&& forall|addr: int|
                    second <= addr < second + n2 * PAGE_SIZE ==> #[trigger] last.byte(addr) == 0
                &&& forall|addr: int|
                    first <= addr < first + n1 * PAGE_SIZE ==> #[trigger] last.byte(addr)
                        == mid.byte(addr)
            }),
    {
        self.lemma_allocated_wf(n1);
        self.allocated(n1).lemma_allocated_wf(n2);
    }

    /// What is written to a page stays until it is written again: an
    /// allocation that follows changes no byte below the cursor.
    pub proof fn lemma_allocation_keeps_written_bytes(self, paddr: int, value: u8, n: nat)
        requires
            self.wf(),
            self.start <= paddr < self.next,
        ensures
            self.written(paddr, value).allocated(n).byte(paddr) == value,
            forall|other: int|
                self.start <= other < self.next && other != paddr ==> #[trigger] self.written(
                    paddr,
                    value,
                ).allocated(n).byte(other) == self.byte(other),
    {
    }

    /// An allocation keeps the arena well formed, never moves the cursor
    /// back, and keeps it page-aligned where the region starts on a page
    /// boundary.
    pub proof fn lemma_allocated_wf(self, n: nat)
        requires
            self.wf(),
        ensures
            self.allocated(n).wf(),
            self.allocated(n).next >= self.next,
            self.start % (PAGE_SIZE as nat) == 0 ==> self.next % (PAGE_SIZE as nat) == 0
                && self.allocated(n).next % (PAGE_SIZE as nat) == 0,
    {
    }
}

} // verus!
