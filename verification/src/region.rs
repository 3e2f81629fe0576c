//! The mathematical model of a two-ended bump region.
//!
//! ```text
//! [ bytes-used | avail-area | pages-used ]
//! |            | -->    <-- |            |
//! start       b_pos        p_pos       end
//! ```
//!
//! Byte allocations move `b_pos` up, page allocations move `p_pos` down, and
//! the two cursors never cross.
use crate::align::{align_down, align_up, at_least_one};
use vstd::arithmetic::power2::{is_pow2, pow2};
use vstd::prelude::*;

verus! {

/// What an allocator holds, as mathematical integers.
pub struct Region {
    /// The size of a page, fixed for the life of the allocator.
    pub page_size: int,
    /// The low bound of the managed range.
    pub start: int,
    /// The high bound of the managed range.
    pub end: int,
    /// The next free address for byte allocations.
    pub b_pos: int,
    /// The low end of the pages handed out so far.
    pub p_pos: int,
    /// The number of live byte allocations.
    pub count: int,
}

/// A request made of an allocator.
pub enum Request {
    /// A byte allocation of `size` bytes at an alignment of `align`.
    Alloc { size: int, align: int },
    /// The release of one byte allocation.
    Dealloc,
    /// A page allocation of `num_pages` pages at an alignment of two to the
    /// `align_pow2`.
    AllocPages { num_pages: int, align_pow2: int },
}

impl Region {
    /// The cursors are ordered inside the range, the range lies inside the
    /// address width, every live byte allocation took at least one byte, and
    /// the byte area is reclaimed whenever no allocation is live.
    pub open spec fn wf(self) -> bool {
        &&& 0 <= self.page_size <= usize::MAX
        &&& 0 <= self.start <= self.b_pos <= self.p_pos <= self.end <= usize::MAX
        &&& 0 <= self.count <= self.b_pos - self.start
        &&& self.count == 0 ==> self.b_pos == self.start
    }

    /// The region of a new allocator: nothing managed yet.
    pub open spec fn empty(page_size: int) -> Region {
        Region { page_size, start: 0, end: 0, b_pos: 0, p_pos: 0, count: 0 }
    }

    /// The region after it was set to manage `size` bytes from `base`.
    pub open spec fn init(self, base: int, size: int) -> Region {
        Region {
            page_size: self.page_size,
            start: base,
            end: base + size,
            b_pos: base,
            p_pos: base + size,
            count: 0,
        }
    }

    /// The number of bytes in the managed range.
    pub open spec fn total_bytes(self) -> int {
        self.end - self.start
    }

    /// The number of bytes in the byte area, from `start` to `b_pos`.
    pub open spec fn used_bytes(self) -> int {
        self.b_pos - self.start
    }

    /// The number of bytes between the byte area and the page area.
    pub open spec fn available_bytes(self) -> int {
        self.p_pos - self.b_pos
    }

    /// The number of whole pages in the managed range.
    pub open spec fn total_pages(self) -> int {
        (self.end - self.start) / self.page_size
    }

    /// The number of whole pages in the page area, from `p_pos` to `end`.
    pub open spec fn used_pages(self) -> int {
        (self.end - self.p_pos) / self.page_size
    }

    /// The number of whole pages between the byte area and the page area.
    pub open spec fn available_pages(self) -> int {
        (self.p_pos - self.b_pos) / self.page_size
    }

    /// The address that a byte allocation at `align` gets, if it is served.
    pub open spec fn alloc_addr(self, align: int) -> int {
        align_up(self.b_pos, align)
    }

    /// Whether a byte allocation can be served: rounding the cursor up stays
    /// inside the address width, and the block ends at or below `p_pos`.
    pub open spec fn alloc_fits(self, size: int, align: int) -> bool {
        &&& self.b_pos + at_least_one(align) - 1 <= usize::MAX
        &&& self.alloc_addr(align) + at_least_one(size) <= self.p_pos
    }

    /// The region after a byte allocation was served.
    pub open spec fn after_alloc(self, size: int, align: int) -> Region {
        Region {
            b_pos: self.alloc_addr(align) + at_least_one(size),
            count: self.count + 1,
            ..self
        }
    }

    /// The region after one byte allocation was released: one fewer is live,
    /// and with the last of them the whole byte area is reclaimed.
    pub open spec fn after_dealloc(self) -> Region {
        if self.count <= 1 {
            Region { b_pos: self.start, count: 0, ..self }
        } else {
            Region { count: self.count - 1, ..self }
        }
    }

    /// The alignment of a page allocation: the larger of the page size and
    /// two to the `align_pow2`, the exponent held below the address width.
    pub open spec fn page_align(self, align_pow2: int) -> int {
        let shift = if align_pow2 < usize::BITS - 1 {
            align_pow2
        } else {
            usize::BITS - 1
        };
        let requested = pow2(shift as nat) as int;
        if self.page_size > requested {
            self.page_size
        } else {
            requested
        }
    }

    /// The address that a page allocation gets, if it is served: `p_pos`
    /// rounded down, less the size of the pages.
    pub open spec fn pages_addr(self, num_pages: int, align_pow2: int) -> int {
        align_down(self.p_pos, self.page_align(align_pow2)) - num_pages * self.page_size
    }

    /// Whether a page allocation can be served: the block starts at or above
    /// `b_pos`.
    pub open spec fn pages_fit(self, num_pages: int, align_pow2: int) -> bool {
        self.b_pos <= self.pages_addr(num_pages, align_pow2)
    }

    /// The region after a page allocation was served.
    pub open spec fn after_alloc_pages(self, num_pages: int, align_pow2: int) -> Region {
        Region { p_pos: self.pages_addr(num_pages, align_pow2), ..self }
    }

    /// The alignment that a page allocation asks for: the larger of the page
    /// size and two to the `align_pow2`, the exponent taken as it is.
    pub open spec fn requested_align(page_size: int, align_pow2: int) -> int {
        if page_size > pow2(align_pow2 as nat) {
            page_size
        } else {
            pow2(align_pow2 as nat) as int
        }
    }

    /// Whether the page cursor and the end of the range are multiples of a
    /// page size that is a power of two.
    pub open spec fn on_page_grid(self) -> bool {
        &&& is_pow2(self.page_size)
        &&& self.end % self.page_size == 0
        &&& self.p_pos % self.page_size == 0
    }

    /// The region after `k` byte allocations were released.
    pub open spec fn dealloc_times(self, k: nat) -> Region
        decreases k,
    {
        if k == 0 {
            self
        } else {
            self.dealloc_times((k - 1) as nat).after_dealloc()
        }
    }

    /// The region after one request: a request that cannot be served leaves
    /// it as it was.
    pub open spec fn step(self, req: Request) -> Region {
        match req {
            Request::Alloc { size, align } => if self.alloc_fits(size, align) {
                self.after_alloc(size, align)
            } else {
                self
            },
            Request::Dealloc => self.after_dealloc(),
            Request::AllocPages { num_pages, align_pow2 } => if num_pages > 0 && self.pages_fit(
                num_pages,
                align_pow2,
            ) {
                self.after_alloc_pages(num_pages, align_pow2)
            } else {
                self
            },
        }
    }

    /// The region after a sequence of requests, served in order.
    pub open spec fn run(self, reqs: Seq<Request>) -> Region
        decreases reqs.len(),
    {
        if reqs.len() == 0 {
            self
        } else {
            self.run(reqs.drop_last()).step(reqs.last())
        }
    }

    /// The number of byte allocations that are served in the course of a
    /// sequence of requests.
    pub open spec fn served_allocs(self, reqs: Seq<Request>) -> nat
        decreases reqs.len(),
    {
        if reqs.len() == 0 {
            0
        } else {
            let before = self.run(reqs.drop_last());
            let served: nat = match reqs.last() {
                Request::Alloc { size, align } => if before.alloc_fits(size, align) {
                    1
                } else {
                    0
                },
                _ => 0,
            };
            self.served_allocs(reqs.drop_last()) + served
        }
    }
}

} // verus!
