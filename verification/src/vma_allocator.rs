//! Allocator used to split an address space domain into virtual memory areas.
//!
//! The allocator keeps the free virtual space of one address space as an
//! ordered set of disjoint, page-aligned intervals, and remembers (as ghost
//! state) every range it has handed out and not yet received back. Together
//! these form a partition of the managed space: no address is simultaneously
//! free and owned, and the managed total is conserved by every operation.

use vstd::prelude::*;

use vstd::pervasive::VecAdditionalExecFns;

use crate::addr::{is_page_multiple, lemma_page_multiple_add, VirtAddr, PAGE_SIZE};

verus! {

/// Two half-open ranges `(start, len)` do not intersect.
pub open spec fn range_disjoint(a: (usize, usize), b: (usize, usize)) -> bool {
    a.0 + a.1 <= b.0 || b.0 + b.1 <= a.0
}

/// A well-formed range: non-null, page-aligned, non-empty and within the
/// address space.
pub open spec fn range_wf(r: (usize, usize)) -> bool {
    &&& r.0 > 0
    &&& is_page_multiple(r.0)
    &&& is_page_multiple(r.1)
    &&& r.1 > 0
    &&& r.0 + r.1 <= usize::MAX
}

/// True when some interval of `f` contains the address `p`.
pub open spec fn free_covers(f: Seq<(usize, usize)>, p: usize) -> bool {
    exists|i: int| 0 <= i < f.len() && (#[trigger] f[i]).0 <= p < f[i].0 + f[i].1
}

/// Total number of bytes covered by a sequence of ranges.
pub open spec fn sum_lens(s: Seq<(usize, usize)>) -> int
    decreases s.len(),
{
    if s.len() == 0 {
        0
    } else {
        sum_lens(s.drop_last()) + s.last().1
    }
}

proof fn lemma_sum_lens_push(s: Seq<(usize, usize)>, v: (usize, usize))
    ensures
        sum_lens(s.push(v)) == sum_lens(s) + v.1,
{
    assert(s.push(v).drop_last() =~= s);
}

proof fn lemma_sum_lens_remove(s: Seq<(usize, usize)>, i: int)
    requires
        0 <= i < s.len(),
    ensures
        sum_lens(s.remove(i)) == sum_lens(s) - s[i].1,
    decreases s.len(),
{
    if i == s.len() - 1 {
        assert(s.remove(i) =~= s.drop_last());
    } else {
        assert(s.remove(i).drop_last() =~= s.drop_last().remove(i));
        assert(s.remove(i).last() == s.last());
        lemma_sum_lens_remove(s.drop_last(), i);
    }
}

proof fn lemma_sum_lens_update(s: Seq<(usize, usize)>, i: int, v: (usize, usize))
    requires
        0 <= i < s.len(),
    ensures
        sum_lens(s.update(i, v)) == sum_lens(s) - s[i].1 + v.1,
    decreases s.len(),
{
    if i == s.len() - 1 {
        assert(s.update(i, v).drop_last() =~= s.drop_last());
    } else {
        assert(s.update(i, v).drop_last() =~= s.drop_last().update(i, v));
        assert(s.update(i, v).last() == s.last());
        lemma_sum_lens_update(s.drop_last(), i, v);
    }
}

proof fn lemma_sum_lens_insert(s: Seq<(usize, usize)>, i: int, v: (usize, usize))
    requires
        0 <= i <= s.len(),
    ensures
        sum_lens(s.insert(i, v)) == sum_lens(s) + v.1,
    decreases s.len(),
{
    if i == s.len() {
        assert(s.insert(i, v) =~= s.push(v));
        lemma_sum_lens_push(s, v);
    } else {
        assert(s.insert(i, v).drop_last() =~= s.drop_last().insert(i, v));
        assert(s.insert(i, v).last() == s.last());
        lemma_sum_lens_insert(s.drop_last(), i, v);
    }
}

/// How returning the range `r` reshapes the free sequence `f0` into `f1`:
/// `r` fills the gap at position `i`, merging with the interval before it
/// and/or after it when they abut. The result is again strictly separated
/// (maximal intervals), and it covers exactly the old addresses plus `r`.
#[verifier::rlimit(100)]
proof fn lemma_insert_free_shape(
    f0: Seq<(usize, usize)>,
    f1: Seq<(usize, usize)>,
    r: (usize, usize),
    i: int,
    merge_prev: bool,
    merge_next: bool,
)
    requires
        0 <= i <= f0.len(),
        range_wf(r),
        forall|j: int| 0 <= j < f0.len() ==> range_wf(#[trigger] f0[j]),
        forall|p: int, q: int|
            0 <= p < q < f0.len() ==> (#[trigger] f0[p]).0 + f0[p].1 < (#[trigger] f0[q]).0,
        forall|j: int| 0 <= j < i ==> (#[trigger] f0[j]).0 + f0[j].1 <= r.0,
        forall|j: int| i <= j < f0.len() ==> r.0 + r.1 <= (#[trigger] f0[j]).0,
        merge_prev <==> (i > 0 && f0[i - 1].0 + f0[i - 1].1 == r.0),
        merge_next <==> (i < f0.len() && r.0 + r.1 == f0[i].0),
        f1 == (if merge_prev && merge_next {
            f0.update(i - 1, (f0[i - 1].0, (f0[i - 1].1 + r.1 + f0[i].1) as usize)).remove(i)
        } else if merge_prev {
            f0.update(i - 1, (f0[i - 1].0, (f0[i - 1].1 + r.1) as usize))
        } else if merge_next {
            f0.update(i, (r.0, (r.1 + f0[i].1) as usize))
        } else {
            f0.insert(i, r)
        }),
    ensures
        forall|p: int, q: int|
            0 <= p < q < f1.len() ==> (#[trigger] f1[p]).0 + f1[p].1 < (#[trigger] f1[q]).0,
        forall|x: usize| free_covers(f1, x) <==> (free_covers(f0, x) || (r.0 <= x < r.0 + r.1)),
{
    // The reshaped sequence has three zones: an unchanged prefix, one
    // merged interval at position `lo`, and a shifted unchanged suffix.
    let lo: int = if merge_prev {
        i - 1
    } else {
        i
    };
    let skip: int = if merge_next {
        i + 1
    } else {
        i
    };
    let m_start: int = if merge_prev {
        f0[i - 1].0 as int
    } else {
        r.0 as int
    };
    let m_end: int = if merge_next {
        f0[i].0 + f0[i].1
    } else {
        r.0 + r.1
    };
    assert(f1.len() == f0.len() + 1 - (skip - lo));
    assert(forall|k: int| 0 <= k < lo ==> #[trigger] f1[k] == f0[k]);
    assert(f1[lo].0 == m_start && f1[lo].0 + f1[lo].1 == m_end);
    assert(forall|k: int| lo < k < f1.len() ==> #[trigger] f1[k] == f0[k + skip - lo - 1]);
    assert(m_start <= r.0 && r.0 + r.1 <= m_end);
    assert forall|p: int, q: int|
        0 <= p < q < f1.len() implies (#[trigger] f1[p]).0 + f1[p].1 < (#[trigger] f1[q]).0 by {
        if p < lo && q < lo {
        } else if p < lo && q == lo {
            if merge_prev {
                assert(f0[p].0 + f0[p].1 < f0[i - 1].0);
            } else if p == i - 1 {
                // the interval just before the gap does not abut the range
                assert(f0[p].0 + f0[p].1 != r.0);
            } else {
                assert(f0[p].0 + f0[p].1 < f0[i - 1].0);
                assert(f0[i - 1].0 + f0[i - 1].1 <= r.0);
            }
        } else if p == lo {
            let qo = q + skip - lo - 1;
            assert(f1[q] == f0[qo]);
            if merge_next {
                assert(f0[i].0 + f0[i].1 < f0[qo].0);
            } else {
                assert(r.0 + r.1 <= f0[qo].0);
                assert(r.0 + r.1 != f0[qo].0 || qo > i);
                if qo > i {
                    assert(r.0 + r.1 <= f0[i as int].0 < f0[i as int].0 + f0[i as int].1 < f0[
                        qo].0);
                }
            }
        } else if p < lo && q > lo {
            let qo = q + skip - lo - 1;
            assert(f1[q] == f0[qo]);
        } else {
            let po = p + skip - lo - 1;
            let qo = q + skip - lo - 1;
            assert(f1[p] == f0[po] && f1[q] == f0[qo]);
        }
    }
    assert forall|x: usize| free_covers(f1, x) <==> (free_covers(f0, x) || (r.0 <= x < r.0
        + r.1)) by {
        if free_covers(f1, x) {
            let k = choose|k: int| 0 <= k < f1.len() && (#[trigger] f1[k]).0 <= x < f1[k].0
                + f1[k].1;
            if k < lo {
                assert(f0[k].0 <= x < f0[k].0 + f0[k].1);
            } else if k == lo {
                // the merged interval is the contiguous union of its pieces
                if merge_prev && x < r.0 {
                    assert(f0[i - 1].0 <= x < f0[i - 1].0 + f0[i - 1].1);
                } else if merge_next && x >= r.0 + r.1 {
                    assert(f0[i].0 <= x < f0[i].0 + f0[i].1);
                } else {
                    assert(r.0 <= x < r.0 + r.1);
                }
            } else {
                let ko = k + skip - lo - 1;
                assert(f1[k] == f0[ko]);
                assert(f0[ko].0 <= x < f0[ko].0 + f0[ko].1);
            }
        }
        if free_covers(f0, x) {
            let j = choose|j: int| 0 <= j < f0.len() && (#[trigger] f0[j]).0 <= x < f0[j].0
                + f0[j].1;
            if j < lo {
                assert(f1[j].0 <= x < f1[j].0 + f1[j].1);
            } else if j < skip {
                assert(m_start <= x < m_end);
                assert(f1[lo].0 <= x < f1[lo].0 + f1[lo].1);
            } else {
                let k = j - skip + lo + 1;
                assert(f1[k] == f0[j]);
                assert(f1[k].0 <= x < f1[k].0 + f1[k].1);
            }
        }
        if r.0 <= x < r.0 + r.1 {
            assert(f1[lo].0 <= x < f1[lo].0 + f1[lo].1);
        }
    }
}

/// Virtual memory allocator.
pub struct VMAAllocator {
    free: Vec<(usize, usize)>,
    live: Ghost<Seq<(usize, usize)>>,
}

impl VMAAllocator {
    /// The free intervals, ordered by start address.
    pub closed spec fn free_ranges(self) -> Seq<(usize, usize)> {
        self.free@
    }

    /// The ranges currently handed out and not yet returned.
    pub closed spec fn live_ranges(self) -> Seq<(usize, usize)> {
        self.live@
    }

    /// Total of the managed space: bytes free plus bytes handed out.
    pub open spec fn managed_total(self) -> int {
        sum_lens(self.free_ranges()) + sum_lens(self.live_ranges())
    }

    /// The allocator's invariant: free intervals are well formed, sorted
    /// and maximal — one ends strictly below the start of the next, so no
    /// two free intervals abut and every returned range has been coalesced;
    /// live ranges are well formed and pairwise disjoint; no address is
    /// both free and live.
    pub open spec fn wf(self) -> bool {
        let f = self.free_ranges();
        let a = self.live_ranges();
        &&& forall|i: int| 0 <= i < f.len() ==> range_wf(#[trigger] f[i])
        &&& forall|i: int, j: int|
            0 <= i < j < f.len() ==> #[trigger] f[i].0 + f[i].1 < #[trigger] f[j].0
        &&& forall|i: int| 0 <= i < a.len() ==> range_wf(#[trigger] a[i])
        &&& forall|i: int, j: int|
            0 <= i < a.len() && 0 <= j < a.len() && i != j ==> range_disjoint(
                #[trigger] a[i],
                #[trigger] a[j],
            )
        &&& forall|i: int, j: int|
            0 <= i < f.len() && 0 <= j < a.len() ==> range_disjoint(
                #[trigger] f[i],
                #[trigger] a[j],
            )
    }

    /// Creates a new VMA allocator with no managed space; `insert_region`
    /// donates the initial range.
    pub fn new() -> (r: VMAAllocator)
        ensures
            r.wf(),
            r.free_ranges().len() == 0,
            r.live_ranges().len() == 0,
    {
        VMAAllocator { free: Vec::new(), live: Ghost(Seq::empty()) }
    }

    /// Allocates a region of `len` bytes: first-fit over the ordered free
    /// intervals, so the lowest fitting start address wins. The returned
    /// range is page-aligned, non-null, and disjoint from every other live
    /// range; the managed total is unchanged.
    #[verifier::rlimit(100)]
    pub fn alloc_region(&mut self, len: usize) -> (r: Option<VirtAddr>)
        requires
            old(self).wf(),
            len > 0,
            is_page_multiple(len),
        ensures
            final(self).wf(),
            match r {
                Some(addr) => {
                    &&& range_wf((addr.0, len))
                    &&& final(self).live_ranges() == old(self).live_ranges().push((addr.0, len))
                    &&& sum_lens(final(self).free_ranges()) == sum_lens(old(self).free_ranges())
                        - len
                    &&& final(self).managed_total() == old(self).managed_total()
                    &&& exists|i: int|
                        {
                            &&& 0 <= i < old(self).free_ranges().len()
                            &&& (#[trigger] old(self).free_ranges()[i]).0 == addr.0
                            &&& old(self).free_ranges()[i].1 >= len
                            &&& forall|j: int|
                                0 <= j < i ==> (#[trigger] old(self).free_ranges()[j]).1 < len
                            &&& final(self).free_ranges() == (if old(self).free_ranges()[i].1
                                == len {
                                old(self).free_ranges().remove(i)
                            } else {
                                old(self).free_ranges().update(
                                    i,
                                    (
                                        (old(self).free_ranges()[i].0 + len) as usize,
                                        (old(self).free_ranges()[i].1 - len) as usize,
                                    ),
                                )
                            })
                        }
                },
                None => {
                    &&& final(self).free_ranges() == old(self).free_ranges()
                    &&& final(self).live_ranges() == old(self).live_ranges()
                    &&& forall|j: int|
                        0 <= j < old(self).free_ranges().len() ==> (#[trigger] old(
                            self,
                        ).free_ranges()[j]).1 < len
                },
            },
    {
        let ghost f0 = old(self).free_ranges();
        let ghost a0 = old(self).live_ranges();
        let mut i: usize = 0;
        while i < self.free.len()
            invariant
                self.free@ == f0,
                self.live@ == a0,
                old(self).wf(),
                f0 == old(self).free_ranges(),
                a0 == old(self).live_ranges(),
                0 <= i <= f0.len(),
                len > 0,
                is_page_multiple(len),
                forall|j: int| 0 <= j < i ==> (#[trigger] f0[j]).1 < len,
            decreases f0.len() - i,
        {
            let (s, l) = self.free[i];
            if l >= len {
                if l == len {
                    self.free.remove(i);
                    proof {
                        lemma_sum_lens_remove(f0, i as int);
                    }
                } else {
                    let ns = s + len;
                    let nl = l - len;
                    proof {
                        lemma_page_multiple_add(s as int, len as int);
                        lemma_page_multiple_add(nl as int, len as int);
                        assert(is_page_multiple(nl)) by {
                            crate::addr::lemma_page_multiple_sub(l as int, len as int);
                        }
                        lemma_sum_lens_update(f0, i as int, (ns, nl));
                    }
                    self.free.set(i, (ns, nl));
                }
                self.live = Ghost(a0.push((s, len)));
                proof {
                    lemma_sum_lens_push(a0, (s, len));
                    let f1 = self.free@;
                    if l == len {
                        assert(f1 == f0.remove(i as int));
                    } else {
                        assert(f1 == f0.update(
                            i as int,
                            ((f0[i as int].0 + len) as usize, (f0[i as int].1 - len) as usize),
                        ));
                    }
                    // The handed-out range is a prefix of the old interval
                    // `f0[i]`, so it inherits that interval's disjointness.
                    assert forall|p: int, q: int|
                        0 <= p < f1.len() && 0 <= q < self.live@.len() implies range_disjoint(
                        #[trigger] f1[p],
                        #[trigger] self.live@[q],
                    ) by {
                        if q < a0.len() {
                            if l == len {
                                let po = if p < i { p } else { p + 1 };
                                assert(f1[p] == f0[po]);
                            } else {
                                if p != i {
                                    assert(f1[p] == f0[p]);
                                } else {
                                    assert(range_disjoint(f0[i as int], a0[q]));
                                }
                            }
                        } else {
                            // the new live range against the shrunk free set
                            if l == len {
                                let po = if p < i { p } else { p + 1 };
                                assert(f1[p] == f0[po]);
                                if po != i {
                                    assert(range_disjoint(f0[po], f0[i as int]) || po == i);
                                }
                            } else {
                                if p != i {
                                    assert(range_disjoint(f0[p], f0[i as int]) || p == i);
                                    assert(f1[p] == f0[p]);
                                }
                            }
                        }
                    }
                    assert forall|p: int, q: int|
                        0 <= p < self.live@.len() && 0 <= q < self.live@.len() && p
                            != q implies range_disjoint(
                        #[trigger] self.live@[p],
                        #[trigger] self.live@[q],
                    ) by {
                        if p < a0.len() && q < a0.len() {
                        } else if p < a0.len() {
                            assert(range_disjoint(f0[i as int], a0[p]));
                        } else {
                            assert(range_disjoint(f0[i as int], a0[q]));
                        }
                    }
                }
                return Some(VirtAddr::new(s));
            }
            i += 1;
        }
        None
    }

    /// Returns a region to the free set, coalescing with abutting free
    /// intervals. A live range handed out by `alloc_region` comes back and
    /// leaves the live set, conserving the managed total; a fresh range that
    /// overlaps nothing may also be donated to grow the managed space.
    #[verifier::rlimit(100)]
    pub fn insert_region(&mut self, addr: VirtAddr, len: usize)
        requires
            old(self).wf(),
            range_wf((addr.0, len)),
            old(self).live_ranges().contains((addr.0, len)) || {
                &&& forall|i: int|
                    0 <= i < old(self).free_ranges().len() ==> range_disjoint(
                        #[trigger] old(self).free_ranges()[i],
                        (addr.0, len),
                    )
                &&& forall|i: int|
                    0 <= i < old(self).live_ranges().len() ==> range_disjoint(
                        #[trigger] old(self).live_ranges()[i],
                        (addr.0, len),
                    )
            },
        ensures
            final(self).wf(),
            sum_lens(final(self).free_ranges()) == sum_lens(old(self).free_ranges()) + len,
            // the free set covers exactly the old addresses plus the range
            forall|p: usize|
                free_covers(final(self).free_ranges(), p) <==> (free_covers(
                    old(self).free_ranges(),
                    p,
                ) || (addr.0 <= p < addr.0 + len)),
            // the range is allocatable again: some free interval covers it
            exists|i: int|
                {
                    &&& 0 <= i < final(self).free_ranges().len()
                    &&& (#[trigger] final(self).free_ranges()[i]).0 <= addr.0
                    &&& addr.0 + len <= final(self).free_ranges()[i].0
                        + final(self).free_ranges()[i].1
                },
            old(self).live_ranges().contains((addr.0, len)) ==> {
                &&& exists|k: int|
                    {
                        &&& 0 <= k < old(self).live_ranges().len()
                        &&& (#[trigger] old(self).live_ranges()[k]) == (addr.0, len)
                        &&& final(self).live_ranges() == old(self).live_ranges().remove(k)
                    }
                &&& final(self).managed_total() == old(self).managed_total()
            },
            !old(self).live_ranges().contains((addr.0, len)) ==> final(self).live_ranges() == old(
                self,
            ).live_ranges(),
    {
        let ghost f0 = old(self).free_ranges();
        let ghost a0 = old(self).live_ranges();
        let ghost r = (addr.0, len);
        proof {
            assert(self.free@ == f0);
            assert(self.live@ == a0);
        }
        proof {
            // In both cases of the precondition the range is disjoint from
            // every free interval and from every other live range.
            if a0.contains(r) {
                let k = choose|k: int| 0 <= k < a0.len() && a0[k] == r;
                assert forall|i: int| 0 <= i < f0.len() implies range_disjoint(
                    #[trigger] f0[i],
                    r,
                ) by {
                    assert(range_disjoint(f0[i], a0[k]));
                }
            }
        }
        let a0usize = addr.as_usize();
        let mut i: usize = 0;
        while i < self.free.len() && self.free[i].0 < a0usize
            invariant
                self.free@ == f0,
                self.live@ == a0,
                a0usize == addr.0,
                old(self).wf(),
                f0 == old(self).free_ranges(),
                0 <= i <= f0.len(),
                forall|j: int| 0 <= j < i ==> (#[trigger] f0[j]).0 < addr.0,
            decreases f0.len() - i,
        {
            i += 1;
        }
        proof {
            assert forall|j: int| 0 <= j < f0.len() implies range_disjoint(#[trigger] f0[j], r) by {
                if a0.contains(r) {
                    let k = choose|k: int| 0 <= k < a0.len() && a0[k] == r;
                    assert(range_disjoint(f0[j], a0[k]));
                }
            }
            assert forall|j: int| 0 <= j < i implies (#[trigger] f0[j]).0 + f0[j].1 <= addr.0 by {
                assert(range_disjoint(f0[j], r));
            }
            assert forall|j: int| i <= j < f0.len() implies addr.0 + len <= (#[trigger] f0[j]).0 by {
                if j == i {
                    assert(range_disjoint(f0[j], r));
                } else {
                    assert(f0[i as int].0 + f0[i as int].1 <= f0[j].0);
                    assert(range_disjoint(f0[i as int], r));
                }
            }
        }
        let merge_prev = i > 0 && {
            let (ps, pl) = self.free[i - 1];
            ps + pl == a0usize
        };
        let merge_next = i < self.free.len() && a0usize + len == self.free[i].0;
        let ghost cover: int;
        if merge_prev && merge_next {
            let (ps, pl) = self.free[i - 1];
            let (ns, nl) = self.free[i];
            let merged = (ps, pl + len + nl);
            proof {
                lemma_page_multiple_add(pl as int, len as int);
                lemma_page_multiple_add((pl + len) as int, nl as int);
                lemma_sum_lens_update(f0, i - 1, merged);
                lemma_sum_lens_remove(f0.update(i - 1, merged), i as int);
                cover = i - 1;
            }
            self.free.set(i - 1, merged);
            self.free.remove(i);
        } else if merge_prev {
            let (ps, pl) = self.free[i - 1];
            let merged = (ps, pl + len);
            proof {
                lemma_page_multiple_add(pl as int, len as int);
                lemma_sum_lens_update(f0, i - 1, merged);
                cover = i - 1;
            }
            self.free.set(i - 1, merged);
        } else if merge_next {
            let (ns, nl) = self.free[i];
            let merged = (a0usize, len + nl);
            proof {
                lemma_page_multiple_add(len as int, nl as int);
                lemma_sum_lens_update(f0, i as int, merged);
                cover = i as int;
            }
            self.free.set(i, merged);
        } else {
            proof {
                lemma_sum_lens_insert(f0, i as int, r);
                cover = i as int;
            }
            self.free.insert(i, (a0usize, len));
        }
        proof {
            if a0.contains(r) {
                let k = choose|k: int| 0 <= k < a0.len() && a0[k] == r;
                self.live@ = a0.remove(k);
                lemma_sum_lens_remove(a0, k);
            }
            let f1 = self.free@;
            let a1 = self.live@;
            assert(0 <= cover < f1.len());
            assert(f1[cover].0 <= addr.0 && addr.0 + len <= f1[cover].0 + f1[cover].1);
            // Every new free interval lies within the union of the old free
            // intervals and the returned range, split at position `i`.
            assert forall|p: int| 0 <= p < f1.len() implies range_wf(#[trigger] f1[p]) by {}
            lemma_insert_free_shape(f0, f1, r, i as int, merge_prev, merge_next);
            assert forall|p: int, q: int|
                0 <= p < a1.len() && 0 <= q < a1.len() && p != q implies range_disjoint(
                #[trigger] a1[p],
                #[trigger] a1[q],
            ) by {
                if a0.contains(r) {
                    let k = choose|k: int| 0 <= k < a0.len() && a0[k] == r;
                    let po = if p < k { p } else { p + 1 };
                    let qo = if q < k { q } else { q + 1 };
                    assert(a1[p] == a0[po] && a1[q] == a0[qo]);
                }
            }
            assert forall|p: int, q: int|
                0 <= p < f1.len() && 0 <= q < a1.len() implies range_disjoint(
                #[trigger] f1[p],
                #[trigger] a1[q],
            ) by {
                let aq = a1[q];
                assert(exists|k0: int| 0 <= k0 < a0.len() && a0[k0] == aq && (!a0.contains(r) || {
                    let k = choose|k: int| 0 <= k < a0.len() && a0[k] == r;
                    k0 != k
                })) by {
                    if a0.contains(r) {
                        let k = choose|k: int| 0 <= k < a0.len() && a0[k] == r;
                        let ko = if q < k { q } else { q + 1 };
                        assert(a0[ko] == aq && ko != k);
                    } else {
                        assert(a0[q] == aq);
                    }
                }
                let k0 = choose|k0: int|
                    0 <= k0 < a0.len() && a0[k0] == aq && (!a0.contains(r) || {
                        let k = choose|k: int| 0 <= k < a0.len() && a0[k] == r;
                        k0 != k
                    });
                assert(range_disjoint(r, aq)) by {
                    if a0.contains(r) {
                        let k = choose|k: int| 0 <= k < a0.len() && a0[k] == r;
                        assert(range_disjoint(a0[k], a0[k0]));
                    }
                }
                assert forall|j: int| 0 <= j < f0.len() implies range_disjoint(
                    #[trigger] f0[j],
                    aq,
                ) by {}
            }
        }
    }
}

/// Any two ranges simultaneously handed out by a well-formed allocator occupy
/// disjoint parts of the address space.
pub proof fn lemma_live_ranges_disjoint(a: VMAAllocator, i: int, j: int)
    requires
        a.wf(),
        0 <= i < a.live_ranges().len(),
        0 <= j < a.live_ranges().len(),
        i != j,
    ensures
        range_disjoint(a.live_ranges()[i], a.live_ranges()[j]),
{
}

/// No address is simultaneously free and owned by a live range.
pub proof fn lemma_free_live_partition(a: VMAAllocator, i: int, j: int)
    requires
        a.wf(),
        0 <= i < a.free_ranges().len(),
        0 <= j < a.live_ranges().len(),
    ensures
        range_disjoint(a.free_ranges()[i], a.live_ranges()[j]),
{
}

} // verus!
