//! Bump allocator: hands out consecutive, aligned pieces of one heap region
//! by advancing a single `next` pointer; individual pieces are never freed,
//! only the whole heap at once by `reset`. The atomic that shares `next`
//! between threads belongs to the caller; every decision on it is made
//! here.

use vstd::prelude::*;

verus! {

/// The smallest multiple of `align` that is at least `addr`.
pub open spec fn align_up(addr: int, align: int) -> int {
    if addr % align == 0 {
        addr
    } else {
        addr - addr % align + align
    }
}

/// Where the piece would start and where `next` would move to, when a
/// request of `size` bytes aligned to `align` is served while `next` is
/// `current`; `None` when it does not fit below `heap_end`. The end is
/// computed with saturation at `usize::MAX`, as the allocator does.
pub open spec fn bump_fit(current: usize, heap_end: usize, size: usize, align: usize) -> Option<
    (int, int),
> {
    let aligned = align_up(current as int, align as int);
    let end = if aligned + size > usize::MAX {
        usize::MAX as int
    } else {
        aligned + size
    };
    if aligned > usize::MAX || end > heap_end {
        None
    } else {
        Some((aligned, end))
    }
}

/// Serve a request of `size` bytes aligned to `align` from `current`:
/// returns the aligned start and the new value of `next`, or `None` when the
/// piece does not fit below `heap_end`.
pub fn bump_step(current: usize, heap_end: usize, size: usize, align: usize) -> (r: Option<
    (usize, usize),
>)
    requires
        align > 0,
    ensures
        match r {
            Some((a, e)) => bump_fit(current, heap_end, size, align) == Some((a as int, e as int)),
            None => bump_fit(current, heap_end, size, align) is None,
        },
{
    let rem = current % align;
    let aligned = if rem == 0 {
        current
    } else {
        match current.checked_add(align - rem) {
            Some(a) => a,
            None => {
                return None;
            },
        }
    };
    let end = aligned.saturating_add(size);
    if end > heap_end {
        None
    } else {
        Some((aligned, end))
    }
}

/// `align_up` gives a multiple of `align` no smaller than `addr` and less
/// than `align` above it.
pub proof fn lemma_align_up(addr: int, align: int)
    requires
        addr >= 0,
        align > 0,
    ensures
        align_up(addr, align) % align == 0,
        addr <= align_up(addr, align) < addr + align,
{
    vstd::arithmetic::div_mod::lemma_fundamental_div_mod(addr, align);
    let q = addr / align;
    let r = addr % align;
    if r != 0 {
        assert(align_up(addr, align) == (q + 1) * align) by (nonlinear_arith)
            requires
                addr == align * q + r,
                align_up(addr, align) == addr - r + align,
        ;
        vstd::arithmetic::div_mod::lemma_mod_multiples_basic(q + 1, align);
    } else {
        assert(addr == q * align) by (nonlinear_arith)
            requires
                addr == align * q + r,
                r == 0,
        ;
        vstd::arithmetic::div_mod::lemma_mod_multiples_basic(q, align);
    }
}

/// A piece that fits starts at an address aligned as asked, not below
/// `next` and less than `align` above it, and `next` moves to its end, or
/// to `usize::MAX` when the end would pass the address space.
pub proof fn law_fit_is_aligned(current: usize, heap_end: usize, size: usize, align: usize)
    requires
        align > 0,
        bump_fit(current, heap_end, size, align) is Some,
    ensures
        ({
            let (a, e) = bump_fit(current, heap_end, size, align).unwrap();
            &&& a % (align as int) == 0
            &&& current <= a < current + align
            &&& e <= heap_end
            &&& e == a + size || (e == usize::MAX && a + size > usize::MAX)
        }),
{
    lemma_align_up(current as int, align as int);
}

/// A request is granted whenever it fits: if some address aligned as asked,
/// not below `next`, leaves room for `size` bytes below `heap_end`, the piece
/// is handed out, it starts at the lowest such address (at or below every
/// one), and `next` moves to its end.
pub proof fn law_fits_whenever_room(
    current: usize,
    heap_end: usize,
    size: usize,
    align: usize,
    x: int,
)
    requires
        align > 0,
        x % (align as int) == 0,
        current <= x,
        x + size <= heap_end,
    ensures
        bump_fit(current, heap_end, size, align) is Some,
        ({
            let (a, e) = bump_fit(current, heap_end, size, align).unwrap();
            &&& a % (align as int) == 0
            &&& current <= a <= x
            &&& e == a + size
        }),
{
    let al = align as int;
    let a = align_up(current as int, al);
    lemma_align_up(current as int, al);
    vstd::arithmetic::div_mod::lemma_fundamental_div_mod(a, al);
    vstd::arithmetic::div_mod::lemma_fundamental_div_mod(x, al);
    let qa = a / al;
    let qx = x / al;
    if x < a {
        assert(false) by (nonlinear_arith)
            requires
                a == al * qa,
                x == al * qx,
                x < a,
                a < x + al,
                al > 0,
        {
            if qa <= qx {
                assert(al * qa <= al * qx);
            } else {
                assert(al * qa >= al * (qx + 1));
            }
        }
    }
}

/// Two allocations served one after the other do not overlap: the second
/// starts at or after the point where the first moved `next`, which is the
/// first one's end unless that end passed the address space.
pub proof fn law_successive_pieces_disjoint(
    current: usize,
    heap_end: usize,
    size1: usize,
    align1: usize,
    size2: usize,
    align2: usize,
)
    requires
        align1 > 0,
        align2 > 0,
        bump_fit(current, heap_end, size1, align1) is Some,
        bump_fit(
            bump_fit(current, heap_end, size1, align1).unwrap().1 as usize,
            heap_end,
            size2,
            align2,
        ) is Some,
    ensures
        ({
            let (a1, e1) = bump_fit(current, heap_end, size1, align1).unwrap();
            let (a2, e2) = bump_fit(e1 as usize, heap_end, size2, align2).unwrap();
            &&& e1 <= a2
            &&& a1 + size1 <= usize::MAX ==> a1 + size1 <= a2
        }),
{
    law_fit_is_aligned(current, heap_end, size1, align1);
    let e1 = bump_fit(current, heap_end, size1, align1).unwrap().1;
    law_fit_is_aligned(e1 as usize, heap_end, size2, align2);
}

/// A request larger than the room between `next` and the end of the heap is
/// refused (when the heap does not reach the top of the address space,
/// where the end saturates).
pub proof fn law_too_large_refused(current: usize, heap_end: usize, size: usize, align: usize)
    requires
        align > 0,
        current + size > heap_end,
        heap_end < usize::MAX,
    ensures
        bump_fit(current, heap_end, size, align) is None,
{
    lemma_align_up(current as int, align as int);
}

/// Without an alignment demand a request fits exactly when it fits in the
/// room between `next` and the end of the heap (below the top of the address
/// space), and `next` moves by its size.
pub proof fn law_unaligned_fit(current: usize, heap_end: usize, size: usize)
    requires
        heap_end < usize::MAX,
    ensures
        bump_fit(current, heap_end, size, 1) is Some <==> current + size <= heap_end,
        current + size <= heap_end ==> bump_fit(current, heap_end, size, 1) == Some(
            (current as int, current + size),
        ),
{
    lemma_align_up(current as int, 1);
}

/// The allocator as a value: the heap's bounds and the `next` pointer.
/// Shared between threads, `next` lives in an atomic and each successful
/// compare-exchange on it is one `allocate` step.
pub struct BumpAllocator {
    heap_start: usize,
    heap_end: usize,
    next: usize,
}

impl BumpAllocator {
    pub closed spec fn start(&self) -> usize {
        self.heap_start
    }

    pub closed spec fn end(&self) -> usize {
        self.heap_end
    }

    /// Where the next piece will be looked for.
    pub closed spec fn next(&self) -> usize {
        self.next
    }

    /// Create an allocator over `heap_start..heap_end`; the whole region is
    /// free.
    pub fn new(heap_start: usize, heap_end: usize) -> (a: Self)
        ensures
            a.start() == heap_start,
            a.end() == heap_end,
            a.next() == heap_start,
    {
        BumpAllocator { heap_start, heap_end, next: heap_start }
    }

    /// Free everything at once: the next allocation starts at the beginning
    /// of the heap again.
    pub fn reset(&mut self)
        ensures
            final(self).next() == old(self).start(),
            final(self).start() == old(self).start(),
            final(self).end() == old(self).end(),
    {
        self.next = self.heap_start;
    }

    /// Allocate `size` bytes aligned to `align`: the piece starts at `next`
    /// rounded up to `align` and `next` moves to its end; 0 (a null
    /// pointer) when it does not fit, and then nothing changes.
    pub fn allocate(&mut self, size: usize, align: usize) -> (p: usize)
        requires
            align > 0,
        ensures
            final(self).start() == old(self).start(),
            final(self).end() == old(self).end(),
            match bump_fit(old(self).next(), old(self).end(), size, align) {
                Some((a, e)) => p == a && final(self).next() == e,
                None => p == 0 && final(self).next() == old(self).next(),
            },
    {
        match bump_step(self.next, self.heap_end, size, align) {
            Some((aligned, end)) => {
                self.next = end;
                aligned
            },
            None => 0,
        }
    }

    /// The heap's bounds and `next`, to be placed in an atomic when the
    /// allocator is shared between threads.
    pub fn into_parts(self) -> (r: (usize, usize, usize))
        ensures
            r == (self.start(), self.end(), self.next()),
    {
        (self.heap_start, self.heap_end, self.next)
    }
}

/// Where `next` stands after serving `requests` (pairs of size and
/// alignment) one after the other, starting from `from`.
pub open spec fn next_after(heap_end: usize, from: usize, requests: Seq<(usize, usize)>) -> usize
    decreases requests.len(),
{
    if requests.len() == 0 {
        from
    } else {
        let n = next_after(heap_end, from, requests.drop_last());
        let (size, align) = requests.last();
        match bump_fit(n, heap_end, size, align) {
            Some((a, e)) => e as usize,
            None => n,
        }
    }
}

/// Every request asks for a non-zero alignment.
pub open spec fn aligned_requests(requests: Seq<(usize, usize)>) -> bool {
    forall|i: int| 0 <= i < requests.len() ==> #[trigger] requests[i].1 > 0
}

/// `next` never moves backwards while requests are served.
pub proof fn lemma_next_grows(
    heap_end: usize,
    from: usize,
    requests: Seq<(usize, usize)>,
    k: int,
    m: int,
)
    requires
        aligned_requests(requests),
        0 <= k <= m <= requests.len(),
    ensures
        next_after(heap_end, from, requests.take(k)) <= next_after(heap_end, from, requests.take(m)),
    decreases m - k,
{
    if k < m {
        lemma_next_grows(heap_end, from, requests, k, m - 1);
        let before = requests.take(m - 1);
        assert(requests.take(m).drop_last() =~= before);
        assert(requests.take(m).last() == requests[m - 1]);
        let n = next_after(heap_end, from, before);
        let (size, align) = requests[m - 1];
        assert(align > 0);
        if bump_fit(n, heap_end, size, align) is Some {
            law_fit_is_aligned(n, heap_end, size, align);
        }
    }
}

/// Any two pieces handed out by a sequence of allocations with no reset in
/// between are disjoint: a later piece starts at or after the end of an
/// earlier one (when that end lies within the address space).
pub proof fn law_granted_pieces_disjoint(
    heap_end: usize,
    from: usize,
    requests: Seq<(usize, usize)>,
    i: int,
    j: int,
)
    requires
        aligned_requests(requests),
        0 <= i < j < requests.len(),
        bump_fit(
            next_after(heap_end, from, requests.take(i)),
            heap_end,
            requests[i].0,
            requests[i].1,
        ) is Some,
        bump_fit(
            next_after(heap_end, from, requests.take(j)),
            heap_end,
            requests[j].0,
            requests[j].1,
        ) is Some,
    ensures
        ({
            let ai = bump_fit(
                next_after(heap_end, from, requests.take(i)),
                heap_end,
                requests[i].0,
                requests[i].1,
            ).unwrap().0;
            let aj = bump_fit(
                next_after(heap_end, from, requests.take(j)),
                heap_end,
                requests[j].0,
                requests[j].1,
            ).unwrap().0;
            ai + requests[i].0 <= usize::MAX ==> ai + requests[i].0 <= aj
        }),
{
    let ni = next_after(heap_end, from, requests.take(i));
    let nj = next_after(heap_end, from, requests.take(j));
    assert(requests[i].1 > 0);
    assert(requests[j].1 > 0);
    law_fit_is_aligned(ni, heap_end, requests[i].0, requests[i].1);
    law_fit_is_aligned(nj, heap_end, requests[j].0, requests[j].1);
    assert(requests.take(i + 1).drop_last() =~= requests.take(i));
    assert(requests.take(i + 1).last() == requests[i]);
    lemma_next_grows(heap_end, from, requests, i + 1, j);
}

} // verus!
