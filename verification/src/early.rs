//! The early allocator: one address range served from both ends.
use crate::align::{
    align_down, align_up, at_least_one, lemma_align_down_bounds, lemma_align_up_bounds,
    lemma_mask_rounds_down,
};
use crate::region::Region;
use vstd::arithmetic::power2::is_pow2;
use vstd::bits::{lemma_usize_pow2_no_overflow, lemma_usize_shl_is_mul};
use vstd::prelude::*;

verus! {

/// Why an allocation was refused.
#[derive(Clone, Copy, Debug, PartialEq, Eq, Structural)]
pub enum AllocError {
    /// The request cannot be served from the space that is left.
    NoMemory,
    /// The request itself is malformed.
    InvalidParam,
}

/// An allocator for the time before the real byte and page allocators work.
///
/// It manages one range of addresses. Byte allocations are cut from the low
/// end upward, page allocations from the high end downward. The byte area is
/// given back as a whole when the last byte allocation is released; pages are
/// never given back.
pub struct EarlyAllocator<const PAGE_SIZE: usize> {
    start: usize,
    end: usize,
    b_pos: usize,
    p_pos: usize,
    count: usize,
}

impl<const PAGE_SIZE: usize> View for EarlyAllocator<PAGE_SIZE> {
    type V = Region;

    closed spec fn view(&self) -> Region {
        Region {
            page_size: PAGE_SIZE as int,
            start: self.start as int,
            end: self.end as int,
            b_pos: self.b_pos as int,
            p_pos: self.p_pos as int,
            count: self.count as int,
        }
    }
}

impl<const PAGE_SIZE: usize> EarlyAllocator<PAGE_SIZE> {
    #[verifier::type_invariant]
    closed spec fn inv(self) -> bool {
        self@.wf()
    }

    /// The page size of the model is the page size of the type.
    pub proof fn lemma_view_page_size(self)
        ensures
            self@.page_size == PAGE_SIZE,
    {
    }

    /// An allocator that manages nothing yet.
    pub fn new() -> (r: Self)
        ensures
            r@ == Region::empty(PAGE_SIZE as int),
            r@.wf(),
    {
        Self { start: 0, end: 0, b_pos: 0, p_pos: 0, count: 0 }
    }

    /// `addr` rounded down to `align`, an alignment of zero taken as one.
    pub fn align_down(addr: usize, align: usize) -> (r: usize)
        ensures
            r == align_down(addr as int, align as int),
            r <= addr,
    {
        let a: usize = if align < 1 { 1 } else { align };
        proof {
            lemma_align_down_bounds(addr as int, align as int);
            if is_pow2(a as int) {
                lemma_mask_rounds_down(addr, a);
            }
        }
        addr & !(a - 1)
    }

    /// `addr` rounded up to `align`, an alignment of zero taken as one.
    pub fn align_up(addr: usize, align: usize) -> (r: usize)
        requires
            addr + at_least_one(align as int) - 1 <= usize::MAX,
        ensures
            r == align_up(addr as int, align as int),
            addr <= r,
    {
        let a: usize = if align < 1 { 1 } else { align };
        proof {
            lemma_align_up_bounds(addr as int, align as int);
        }
        Self::align_down(addr + (a - 1), align)
    }

    /// Sets the allocator to manage `size` bytes from `start_vaddr`, and
    /// forgets whatever it managed before.
    pub fn init(&mut self, start_vaddr: usize, size: usize)
        requires
            start_vaddr + size <= usize::MAX,
        ensures
            final(self)@ == old(self)@.init(start_vaddr as int, size as int),
            final(self)@.wf(),
    {
        *self = Self {
            start: start_vaddr,
            end: start_vaddr + size,
            b_pos: start_vaddr,
            p_pos: start_vaddr + size,
            count: 0,
        };
    }

    /// The number of bytes in the managed range.
    pub fn total_bytes(&self) -> (r: usize)
        ensures
            r == self@.total_bytes(),
            self@.wf(),
    {
        proof {
            use_type_invariant(self);
        }
        self.end - self.start
    }

    /// Accepts and ignores more memory: the managed range cannot grow.
    pub fn add_memory(&mut self, _start_vaddr: usize, _size: usize) -> (r: Result<(), AllocError>)
        ensures
            r is Ok,
            final(self)@ == old(self)@,
            final(self)@.wf(),
    {
        proof {
            use_type_invariant(&*self);
        }
        Ok(())
    }

    /// Cuts `size` bytes at an alignment of `align` from the low end, a size
    /// or an alignment of zero taken as one.
    ///
    /// The block starts at the byte cursor rounded up to `align`. It is
    /// refused with `NoMemory`, and nothing changes, when it would end above
    /// the page area or outside the address width.
    pub fn alloc_bytes(&mut self, size: usize, align: usize) -> (r: Result<usize, AllocError>)
        ensures
            match r {
                Ok(addr) => {
                    &&& old(self)@.alloc_fits(size as int, align as int)
                    &&& addr == old(self)@.alloc_addr(align as int)
                    &&& final(self)@ == old(self)@.after_alloc(size as int, align as int)
                },
                Err(e) => {
                    &&& !old(self)@.alloc_fits(size as int, align as int)
                    &&& e == AllocError::NoMemory
                    &&& final(self)@ == old(self)@
                },
            },
            final(self)@.wf(),
    {
        proof {
            use_type_invariant(&*self);
        }
        let size: usize = if size < 1 { 1 } else { size };
        let a: usize = if align < 1 { 1 } else { align };
        if self.b_pos > usize::MAX - (a - 1) {
            return Err(AllocError::NoMemory);
        }
        let start = Self::align_up(self.b_pos, align);
        let end = match start.checked_add(size) {
            Some(end) => end,
            None => { return Err(AllocError::NoMemory); },
        };
        if end > self.p_pos {
            return Err(AllocError::NoMemory);
        }
        *self = Self {
            start: self.start,
            end: self.end,
            b_pos: end,
            p_pos: self.p_pos,
            count: self.count + 1,
        };
        Ok(start)
    }

    /// Releases one byte allocation. Neither argument is looked at: with the
    /// last live allocation the whole byte area is reclaimed, and a release
    /// with none live changes nothing.
    pub fn dealloc(&mut self, _pos: usize, _size: usize)
        ensures
            final(self)@ == old(self)@.after_dealloc(),
            final(self)@.wf(),
    {
        proof {
            use_type_invariant(&*self);
        }
        if self.count <= 1 {
            *self = Self {
                start: self.start,
                end: self.end,
                b_pos: self.start,
                p_pos: self.p_pos,
                count: 0,
            };
        } else {
            self.count -= 1;
        }
    }

    /// The number of bytes in the byte area.
    pub fn used_bytes(&self) -> (r: usize)
        ensures
            r == self@.used_bytes(),
            self@.wf(),
    {
        proof {
            use_type_invariant(self);
        }
        self.b_pos - self.start
    }

    /// The number of bytes between the byte area and the page area.
    pub fn available_bytes(&self) -> (r: usize)
        ensures
            r == self@.available_bytes(),
            self@.wf(),
    {
        proof {
            use_type_invariant(self);
        }
        self.p_pos - self.b_pos
    }

    /// The number of whole pages in the managed range.
    pub fn total_pages(&self) -> (r: usize)
        requires
            PAGE_SIZE > 0,
        ensures
            r == self@.total_pages(),
            self@.wf(),
    {
        proof {
            use_type_invariant(self);
        }
        (self.end - self.start) / PAGE_SIZE
    }

    /// Cuts `num_pages` pages from the high end, at an alignment of the
    /// larger of the page size and two to the `align_pow2`.
    ///
    /// The block ends at the page cursor rounded down to that alignment. A
    /// request for no pages is refused with `InvalidParam`; one whose block
    /// would start below the byte area, or below address zero, is refused
    /// with `NoMemory`. A refusal changes nothing.
    pub fn alloc_pages(&mut self, num_pages: usize, align_pow2: usize) -> (r: Result<
        usize,
        AllocError,
    >)
        ensures
            match r {
                Ok(addr) => {
                    &&& num_pages > 0
                    &&& old(self)@.pages_fit(num_pages as int, align_pow2 as int)
                    &&& addr == old(self)@.pages_addr(num_pages as int, align_pow2 as int)
                    &&& final(self)@ == old(self)@.after_alloc_pages(
                        num_pages as int,
                        align_pow2 as int,
                    )
                },
                Err(e) => {
                    &&& e == AllocError::InvalidParam <==> num_pages == 0
                    &&& e == AllocError::NoMemory <==> num_pages > 0
                    &&& num_pages > 0 ==> !old(self)@.pages_fit(
                        num_pages as int,
                        align_pow2 as int,
                    )
                    &&& final(self)@ == old(self)@
                },
            },
            final(self)@.wf(),
    {
        proof {
            use_type_invariant(&*self);
        }
        if num_pages == 0 {
            return Err(AllocError::InvalidParam);
        }
        let top_bit: usize = (usize::BITS - 1) as usize;
        let shift: usize = if align_pow2 < top_bit { align_pow2 } else { top_bit };
        proof {
            lemma_usize_pow2_no_overflow(shift as nat);
            lemma_usize_shl_is_mul(1usize, shift);
        }
        let requested: usize = 1usize << shift;
        let align: usize = if PAGE_SIZE > requested { PAGE_SIZE } else { requested };
        let end = Self::align_down(self.p_pos, align);
        assert(align == self@.page_align(align_pow2 as int));
        assert(at_least_one(align as int) == align);
        let size = match num_pages.checked_mul(PAGE_SIZE) {
            Some(size) => size,
            None => { return Err(AllocError::NoMemory); },
        };
        let start = match end.checked_sub(size) {
            Some(start) => start,
            None => { return Err(AllocError::NoMemory); },
        };
        if start < self.b_pos {
            return Err(AllocError::NoMemory);
        }
        self.p_pos = start;
        Ok(start)
    }

    /// Takes pages back, which this allocator never does: nothing changes.
    pub fn dealloc_pages(&mut self, _pos: usize, _num_pages: usize)
        ensures
            final(self)@ == old(self)@,
            final(self)@.wf(),
    {
        proof {
            use_type_invariant(&*self);
        }
    }

    /// The number of whole pages in the page area.
    pub fn used_pages(&self) -> (r: usize)
        requires
            PAGE_SIZE > 0,
        ensures
            r == self@.used_pages(),
            self@.wf(),
    {
        proof {
            use_type_invariant(self);
        }
        (self.end - self.p_pos) / PAGE_SIZE
    }

    /// The number of whole pages between the byte area and the page area.
    pub fn available_pages(&self) -> (r: usize)
        requires
            PAGE_SIZE > 0,
        ensures
            r == self@.available_pages(),
            self@.wf(),
    {
        proof {
            use_type_invariant(self);
        }
        (self.p_pos - self.b_pos) / PAGE_SIZE
    }
}

} // verus!
