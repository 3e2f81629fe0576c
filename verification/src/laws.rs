//! What holds of every region that the allocator can reach.
use crate::align::{
    align_down, align_up, at_least_one, lemma_align_down_bounds, lemma_align_down_multiple,
    lemma_align_up_bounds, lemma_align_up_multiple, lemma_pow2_exponent, lemma_pow2_is_pow2,
};
use crate::region::{Region, Request};
use vstd::arithmetic::div_mod::{
    lemma_fundamental_div_mod, lemma_mod_mod, lemma_mod_multiples_vanish, lemma_mod_pos_bound,
    lemma_mod_self_0, lemma_small_mod,
};
use vstd::arithmetic::mul::{lemma_mul_nonnegative, lemma_mul_strictly_positive};
use vstd::arithmetic::power2::{
    is_pow2, lemma_pow2_adds, lemma_pow2_pos, lemma_pow2_strictly_increases, pow2,
};
use vstd::layout::unsigned_int_max_values;
use vstd::prelude::*;

verus! {

/// A new allocator is well formed.
pub proof fn lemma_empty_wf(page_size: int)
    requires
        0 <= page_size <= usize::MAX,
    ensures
        Region::empty(page_size).wf(),
{
}

/// Setting the managed range to one that lies inside the address width gives
/// a well-formed region, whatever was managed before.
pub proof fn lemma_init_wf(s: Region, base: int, size: int)
    requires
        0 <= s.page_size <= usize::MAX,
        0 <= base,
        0 <= size,
        base + size <= usize::MAX,
    ensures
        s.init(base, size).wf(),
{
}

/// A byte allocation that is served starts at or above the byte cursor, at
/// or above the start of the range, and ends at or below the page cursor, so
/// that at least the bytes asked for lie between its address and `p_pos`.
pub proof fn lemma_alloc_inside(s: Region, size: int, align: int)
    requires
        s.wf(),
        s.alloc_fits(size, align),
    ensures
        s.start <= s.b_pos <= s.alloc_addr(align),
        s.alloc_addr(align) + size <= s.p_pos,
        s.alloc_addr(align) < s.after_alloc(size, align).b_pos <= s.p_pos,
{
    lemma_align_up_bounds(s.b_pos, align);
}

/// A byte allocation that is served at a power-of-two alignment gets an
/// address that is a multiple of the alignment.
pub proof fn lemma_alloc_aligned(s: Region, size: int, align: int)
    requires
        s.wf(),
        s.alloc_fits(size, align),
        is_pow2(at_least_one(align)),
    ensures
        s.alloc_addr(align) % at_least_one(align) == 0,
{
    lemma_align_up_multiple(s.b_pos, align);
}

/// At a power-of-two alignment that fits in an address, a byte allocation is
/// served exactly when the least multiple of the alignment at or above the
/// byte cursor, and the bytes asked for after it, end at or below `p_pos`.
pub proof fn lemma_alloc_fits_pow2(s: Region, size: int, align: int)
    requires
        s.wf(),
        is_pow2(at_least_one(align)),
        align <= usize::MAX,
    ensures
        s.alloc_fits(size, align) <==> align_up(s.b_pos, align) + at_least_one(size) <= s.p_pos,
{
    let a = at_least_one(align);
    let y = s.b_pos + a - 1;
    if y > usize::MAX {
        // the address width is a multiple of the alignment, so rounding
        // down cannot bring `y` back inside it
        let k = lemma_pow2_exponent(a);
        unsigned_int_max_values();
        lemma_pow2_adds(k, (usize::BITS - k) as nat);
        lemma_pow2_pos(k);
        lemma_fundamental_div_mod(y, a);
        let q = y / a;
        let w = pow2((usize::BITS - k) as nat) as int;
        lemma_mod_pos_bound(y, a);
        assert(q >= w) by (nonlinear_arith)
            requires
                a * q + a > a * w,
                a > 0,
        ;
        assert(a * q >= a * w) by (nonlinear_arith)
            requires
                q >= w,
                a > 0,
        ;
    }
}

/// Every request leaves a well-formed region well formed: in particular the
/// byte cursor never passes the page cursor.
pub proof fn lemma_step_wf(s: Region, req: Request)
    requires
        s.wf(),
    ensures
        s.step(req).wf(),
{
    match req {
        Request::Alloc { size, align } => {
            if s.alloc_fits(size, align) {
                lemma_alloc_inside(s, size, align);
            }
        },
        Request::Dealloc => {},
        Request::AllocPages { num_pages, align_pow2 } => {
            if num_pages > 0 && s.pages_fit(num_pages, align_pow2) {
                lemma_align_down_bounds(s.p_pos, s.page_align(align_pow2));
                lemma_mul_nonnegative(num_pages, s.page_size);
            }
        },
    }
}

/// Every sequence of requests leaves a well-formed region well formed.
pub proof fn lemma_run_wf(s: Region, reqs: Seq<Request>)
    requires
        s.wf(),
    ensures
        s.run(reqs).wf(),
    decreases reqs.len(),
{
    if reqs.len() > 0 {
        lemma_run_wf(s, reqs.drop_last());
        lemma_step_wf(s.run(reqs.drop_last()), reqs.last());
    }
}

/// A request that leaves a byte allocation live does not move the byte
/// cursor down.
pub proof fn lemma_step_b_pos(s: Region, req: Request)
    requires
        s.wf(),
        s.step(req).count > 0,
    ensures
        s.b_pos <= s.step(req).b_pos,
{
    match req {
        Request::Alloc { size, align } => {
            if s.alloc_fits(size, align) {
                lemma_alloc_inside(s, size, align);
            }
        },
        Request::Dealloc => {},
        Request::AllocPages { num_pages, align_pow2 } => {},
    }
}

/// The region after the first `k + 1` requests is the region after the first
/// `k`, one request later.
pub proof fn lemma_run_take(s: Region, reqs: Seq<Request>, k: int)
    requires
        0 <= k < reqs.len(),
    ensures
        s.run(reqs.take(k + 1)) == s.run(reqs.take(k)).step(reqs[k]),
{
    assert(reqs.take(k + 1).drop_last() =~= reqs.take(k));
}

/// While a byte allocation stays live, the byte cursor does not move down.
pub proof fn lemma_b_pos_grows(s: Region, reqs: Seq<Request>, i: int, j: int)
    requires
        s.wf(),
        0 <= i <= j <= reqs.len(),
        forall|k: int| i < k <= j ==> (#[trigger] s.run(reqs.take(k))).count > 0,
    ensures
        s.run(reqs.take(i)).b_pos <= s.run(reqs.take(j)).b_pos,
    decreases j - i,
{
    if i < j {
        lemma_b_pos_grows(s, reqs, i, j - 1);
        lemma_run_wf(s, reqs.take(j - 1));
        lemma_run_take(s, reqs, j - 1);
        lemma_step_b_pos(s.run(reqs.take(j - 1)), reqs[j - 1]);
    }
}

/// Of two byte allocations that are served in the course of a sequence of
/// requests, with no moment between them at which no allocation is live, the
/// later one gets the higher address.
pub proof fn lemma_byte_addresses_increase(s: Region, reqs: Seq<Request>, i: int, j: int)
    requires
        s.wf(),
        0 <= i < j < reqs.len(),
        reqs[i] is Alloc,
        reqs[j] is Alloc,
        s.run(reqs.take(i)).alloc_fits(reqs[i]->Alloc_size, reqs[i]->Alloc_align),
        s.run(reqs.take(j)).alloc_fits(reqs[j]->Alloc_size, reqs[j]->Alloc_align),
        forall|k: int| i < k <= j ==> (#[trigger] s.run(reqs.take(k))).count > 0,
    ensures
        s.run(reqs.take(i)).alloc_addr(reqs[i]->Alloc_align) < s.run(reqs.take(j)).alloc_addr(
            reqs[j]->Alloc_align,
        ),
{
    let before_i = s.run(reqs.take(i));
    let before_j = s.run(reqs.take(j));
    lemma_run_wf(s, reqs.take(i));
    lemma_run_wf(s, reqs.take(j));
    lemma_run_take(s, reqs, i);
    lemma_alloc_inside(before_i, reqs[i]->Alloc_size, reqs[i]->Alloc_align);
    lemma_b_pos_grows(s, reqs, i + 1, j);
    lemma_alloc_inside(before_j, reqs[j]->Alloc_size, reqs[j]->Alloc_align);
}

/// With no byte allocation live, the next one that is served starts at the
/// start of the range rounded up to its alignment: for a power-of-two
/// alignment, at the start itself exactly where the start is a multiple of
/// the alignment.
pub proof fn lemma_alloc_after_reclaim(s: Region, size: int, align: int)
    requires
        s.wf(),
        s.count == 0,
        s.alloc_fits(size, align),
    ensures
        s.alloc_addr(align) == align_up(s.start, align),
        is_pow2(at_least_one(align)) ==> (s.alloc_addr(align) == s.start <==> s.start
            % at_least_one(align) == 0),
{
    let a = at_least_one(align);
    if is_pow2(a) {
        lemma_align_up_multiple(s.start, align);
    }
    if is_pow2(a) && s.start % a == 0 {
        lemma_align_up_bounds(s.start, align);
        lemma_align_up_multiple(s.start, align);
        lemma_fundamental_div_mod(s.start, a);
        lemma_fundamental_div_mod(align_up(s.start, align), a);
        let q0 = s.start / a;
        let q1 = align_up(s.start, align) / a;
        assert(a * q1 - a * q0 == a * (q1 - q0)) by (nonlinear_arith);
        assert(q1 == q0) by (nonlinear_arith)
            requires
                0 <= a * (q1 - q0) < a,
        ;
    }
}

/// A power-of-two page size divides the alignment of every page allocation,
/// which is itself a power of two.
pub proof fn lemma_page_align(s: Region, align_pow2: int)
    requires
        s.wf(),
        is_pow2(s.page_size),
        0 <= align_pow2,
    ensures
        is_pow2(s.page_align(align_pow2)),
        s.page_size <= s.page_align(align_pow2),
        s.page_align(align_pow2) % s.page_size == 0,
        align_pow2 < usize::BITS ==> s.page_align(align_pow2) == Region::requested_align(
            s.page_size,
            align_pow2,
        ),
{
    let p = s.page_size;
    let shift: nat = if align_pow2 < usize::BITS - 1 {
        align_pow2 as nat
    } else {
        (usize::BITS - 1) as nat
    };
    let j = lemma_pow2_exponent(p);
    lemma_pow2_pos(j);
    lemma_pow2_is_pow2(shift);
    if p > pow2(shift) {
        lemma_mod_self_0(p);
    } else {
        if j > shift {
            lemma_pow2_strictly_increases(shift, j);
        }
        lemma_pow2_adds(j, (shift - j) as nat);
        lemma_pow2_pos((shift - j) as nat);
        lemma_mod_multiples_vanish(pow2((shift - j) as nat) as int, 0, p);
        assert(p * pow2((shift - j) as nat) == pow2(j) * pow2((shift - j) as nat));
        lemma_small_mod(0, p as nat);
    }
}

/// With a power-of-two page size, a page allocation that is served gets an
/// address that is a multiple of the page size, and its block ends at a
/// multiple of its alignment.
pub proof fn lemma_pages_addr_page_aligned(s: Region, num_pages: int, align_pow2: int)
    requires
        s.wf(),
        is_pow2(s.page_size),
        num_pages > 0,
        0 <= align_pow2,
        s.pages_fit(num_pages, align_pow2),
    ensures
        s.pages_addr(num_pages, align_pow2) % s.page_size == 0,
        (s.pages_addr(num_pages, align_pow2) + num_pages * s.page_size) % s.page_align(align_pow2)
            == 0,
{
    let p = s.page_size;
    let a = s.page_align(align_pow2);
    let e = align_down(s.p_pos, a);
    lemma_page_align(s, align_pow2);
    let j = lemma_pow2_exponent(p);
    lemma_pow2_pos(j);
    lemma_align_down_multiple(s.p_pos, a);
    // e is a multiple of a, and a of p
    lemma_fundamental_div_mod(a, p);
    let r = a / p;
    assert(r > 0) by (nonlinear_arith)
        requires
            a == p * r,
            a > 0,
            p > 0,
    ;
    lemma_mod_mod(e, p, r);
    lemma_small_mod(0, p as nat);
    assert(e % p == 0);
    lemma_mod_multiples_vanish(-num_pages, e, p);
    assert(p * (-num_pages) + e == e - num_pages * p) by (nonlinear_arith);
}

/// With a power-of-two page size, a page allocation that is served gets an
/// address that is a multiple of the larger of the page size and two to the
/// `align_pow2`, provided that the size of the pages is such a multiple.
///
/// Below the address width that proviso is also necessary. At or above it,
/// two to the `align_pow2` lies above every address, and only address zero
/// is a multiple of it.
pub proof fn lemma_pages_addr_aligned(s: Region, num_pages: int, align_pow2: int)
    requires
        s.wf(),
        is_pow2(s.page_size),
        num_pages > 0,
        0 <= align_pow2,
        s.pages_fit(num_pages, align_pow2),
    ensures
        (num_pages * s.page_size) % Region::requested_align(s.page_size, align_pow2) == 0
            ==> s.pages_addr(num_pages, align_pow2) % Region::requested_align(
            s.page_size,
            align_pow2,
        ) == 0,
        align_pow2 < usize::BITS ==> (s.pages_addr(num_pages, align_pow2)
            % Region::requested_align(s.page_size, align_pow2) == 0 <==> (num_pages * s.page_size)
            % Region::requested_align(s.page_size, align_pow2) == 0),
        align_pow2 >= usize::BITS ==> (s.pages_addr(num_pages, align_pow2)
            % Region::requested_align(s.page_size, align_pow2) == 0 <==> s.pages_addr(
            num_pages,
            align_pow2,
        ) == 0),
{
    let p = s.page_size;
    let m = Region::requested_align(p, align_pow2);
    let a = s.page_align(align_pow2);
    let e = align_down(s.p_pos, a);
    let size = num_pages * p;
    let addr = s.pages_addr(num_pages, align_pow2);
    lemma_page_align(s, align_pow2);
    let j = lemma_pow2_exponent(p);
    lemma_pow2_pos(j);
    lemma_pow2_pos(align_pow2 as nat);
    lemma_mul_strictly_positive(num_pages, p);
    lemma_align_down_bounds(s.p_pos, a);
    if align_pow2 < usize::BITS {
        assert(m == a);
        lemma_align_down_multiple(s.p_pos, a);
        lemma_fundamental_div_mod(e, m);
        if size % m == 0 {
            lemma_fundamental_div_mod(size, m);
            let t = size / m;
            lemma_mod_multiples_vanish(-t, e, m);
            assert(m * (-t) + e == e - m * t) by (nonlinear_arith);
        }
        if addr % m == 0 {
            lemma_fundamental_div_mod(addr, m);
            let t = addr / m;
            lemma_mod_multiples_vanish(-t, e, m);
            assert(m * (-t) + e == e - m * t) by (nonlinear_arith);
        }
    } else {
        unsigned_int_max_values();
        if align_pow2 > usize::BITS {
            lemma_pow2_strictly_increases(usize::BITS as nat, align_pow2 as nat);
        }
        lemma_small_mod(size as nat, m as nat);
        lemma_small_mod(addr as nat, m as nat);
    }
}

/// Releasing `k` byte allocations takes `k` from the number that is live,
/// down to zero and no further; the byte area is reclaimed as soon as the
/// number is zero, and stays untouched until then.
pub proof fn lemma_dealloc_times(s: Region, k: nat)
    requires
        s.wf(),
    ensures
        s.dealloc_times(k).wf(),
        k < s.count ==> s.dealloc_times(k) == (Region { count: s.count - k, ..s }),
        k >= s.count ==> s.dealloc_times(k) == (Region { count: 0, b_pos: s.start, ..s }),
        k >= s.count ==> s.dealloc_times(k).used_bytes() == 0,
    decreases k,
{
    if k > 0 {
        lemma_dealloc_times(s, (k - 1) as nat);
    }
}

/// Serving a sequence of requests that releases nothing adds to the number
/// of live byte allocations one for each byte allocation that is served.
pub proof fn lemma_run_counts_allocs(s: Region, reqs: Seq<Request>)
    requires
        s.wf(),
        forall|k: int| 0 <= k < reqs.len() ==> !(#[trigger] reqs[k] is Dealloc),
    ensures
        s.run(reqs).count == s.count + s.served_allocs(reqs),
    decreases reqs.len(),
{
    if reqs.len() > 0 {
        lemma_run_counts_allocs(s, reqs.drop_last());
    }
}

/// After a sequence of requests that releases nothing, releasing as many
/// byte allocations as are live, those served in the sequence among them,
/// empties the byte area; releasing more changes nothing further.
pub proof fn lemma_release_all_reclaims(s: Region, reqs: Seq<Request>, k: nat)
    requires
        s.wf(),
        forall|i: int| 0 <= i < reqs.len() ==> !(#[trigger] reqs[i] is Dealloc),
        k >= s.count + s.served_allocs(reqs),
    ensures
        s.run(reqs).dealloc_times(k).used_bytes() == 0,
        s.run(reqs).dealloc_times(k).count == 0,
        s.run(reqs).dealloc_times(k).b_pos == s.start,
        s.run(reqs).dealloc_times(k + 1) == s.run(reqs).dealloc_times(k),
{
    lemma_run_wf(s, reqs);
    lemma_run_counts_allocs(s, reqs);
    lemma_run_keeps_range(s, reqs);
    lemma_dealloc_times(s.run(reqs), k);
    lemma_dealloc_times(s.run(reqs), k + 1);
}

/// No request changes the bounds of the managed range or the page size.
pub proof fn lemma_run_keeps_range(s: Region, reqs: Seq<Request>)
    ensures
        s.run(reqs).start == s.start,
        s.run(reqs).end == s.end,
        s.run(reqs).page_size == s.page_size,
    decreases reqs.len(),
{
    if reqs.len() > 0 {
        lemma_run_keeps_range(s, reqs.drop_last());
    }
}

/// The bytes in use, the bytes available and the page area add up to the
/// whole range. The pages in use account for all of the page area exactly
/// where it is a whole number of pages, and for less of it elsewhere.
pub proof fn lemma_partition(s: Region)
    requires
        s.wf(),
    ensures
        s.available_bytes() + s.used_bytes() + (s.end - s.p_pos) == s.total_bytes(),
        s.page_size > 0 ==> s.used_pages() * s.page_size <= s.end - s.p_pos,
        s.page_size > 0 ==> ((s.end - s.p_pos) % s.page_size == 0 <==> s.available_bytes()
            + s.used_bytes() + s.used_pages() * s.page_size == s.total_bytes()),
{
    if s.page_size > 0 {
        lemma_fundamental_div_mod(s.end - s.p_pos, s.page_size);
        assert(s.used_pages() * s.page_size == s.page_size * ((s.end - s.p_pos) / s.page_size))
            by (nonlinear_arith);
    }
}

/// A region on the page grid has a page area of a whole number of pages.
pub proof fn lemma_page_grid_whole_pages(s: Region)
    requires
        s.wf(),
        s.on_page_grid(),
    ensures
        s.page_size > 0,
        (s.end - s.p_pos) % s.page_size == 0,
{
    let p = s.page_size;
    let j = lemma_pow2_exponent(p);
    lemma_pow2_pos(j);
    lemma_fundamental_div_mod(s.p_pos, p);
    let t = s.p_pos / p;
    lemma_mod_multiples_vanish(-t, s.end, p);
    assert(p * (-t) + s.end == s.end - p * t) by (nonlinear_arith);
}

/// A range that ends at a multiple of a power-of-two page size starts out on
/// the page grid.
pub proof fn lemma_init_on_page_grid(s: Region, base: int, size: int)
    requires
        is_pow2(s.page_size),
        (base + size) % s.page_size == 0,
    ensures
        s.init(base, size).on_page_grid(),
{
}

/// Every request keeps a region on the page grid.
pub proof fn lemma_step_on_page_grid(s: Region, req: Request)
    requires
        s.wf(),
        s.on_page_grid(),
        req is AllocPages ==> req->align_pow2 >= 0,
    ensures
        s.step(req).on_page_grid(),
{
    match req {
        Request::AllocPages { num_pages, align_pow2 } => {
            if num_pages > 0 && s.pages_fit(num_pages, align_pow2) {
                lemma_pages_addr_page_aligned(s, num_pages, align_pow2);
            }
        },
        _ => {},
    }
}

/// At every moment in the life of a region that starts out on the page grid,
/// the bytes in use, the bytes available and the pages in use add up to the
/// whole range.
pub proof fn lemma_run_partition(s: Region, reqs: Seq<Request>)
    requires
        s.wf(),
        s.on_page_grid(),
        forall|k: int|
            0 <= k < reqs.len() && (#[trigger] reqs[k]) is AllocPages ==> reqs[k]->align_pow2 >= 0,
    ensures
        s.run(reqs).wf(),
        s.run(reqs).on_page_grid(),
        s.run(reqs).available_bytes() + s.run(reqs).used_bytes() + s.run(reqs).used_pages()
            * s.page_size == s.run(reqs).total_bytes(),
    decreases reqs.len(),
{
    lemma_run_wf(s, reqs);
    lemma_run_keeps_range(s, reqs);
    if reqs.len() > 0 {
        lemma_run_partition(s, reqs.drop_last());
        lemma_step_on_page_grid(s.run(reqs.drop_last()), reqs.last());
    }
    lemma_page_grid_whole_pages(s.run(reqs));
    lemma_partition(s.run(reqs));
}

} // verus!
