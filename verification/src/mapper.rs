//! Model of the page-table mapper of one address space.
//!
//! The mapper records which pages are committed and with which flags, and a
//! journal of word stores so that committed memory can be written and read.
//! Translation is identity-mapped: the model answers "mapped or not" exactly.

use vstd::prelude::*;

use crate::addr::{is_page_multiple, VirtAddr, PAGE_SIZE};

verus! {

/// Page may be accessed at all.
pub const PRESENT: u64 = 1;

/// Page may be written.
pub const WRITABLE: u64 = 2;

/// Page may not be executed.
pub const NO_EXECUTE: u64 = 4;

/// Flags used when committing a range of pages.
#[derive(Clone, Copy, PartialEq, Eq, Structural, Debug)]
pub struct EntryFlags(pub u64);

impl EntryFlags {
    pub fn empty() -> (r: EntryFlags)
        ensures
            r.0 == 0,
    {
        EntryFlags(0)
    }

    pub fn new(bits: u64) -> (r: EntryFlags)
        ensures
            r.0 == bits,
    {
        EntryFlags(bits)
    }
}

/// Errors surfaced by memory management.
#[derive(Clone, Copy, PartialEq, Eq, Structural, Debug)]
pub enum MemoryError {
    /// No free virtual area of the requested size is left.
    NoMoreVMA,
    /// A requested sub-range lies outside its reservation.
    InvalidRange,
}

/// An element picked out by `filter` is an element of the sequence.
proof fn lemma_filter_member(
    s: Seq<(usize, EntryFlags)>,
    pred: spec_fn((usize, EntryFlags)) -> bool,
    i: int,
)
    requires
        0 <= i < s.filter(pred).len(),
    ensures
        exists|j: int| 0 <= j < s.len() && #[trigger] s[j] == s.filter(pred)[i],
    decreases s.len(),
{
    reveal(Seq::filter);
    if s.len() > 0 {
        if pred(s.last()) && i == s.filter(pred).len() - 1 {
            assert(s[s.len() - 1] == s.filter(pred)[i]);
        } else {
            lemma_filter_member(s.drop_last(), pred, i);
            let j = choose|j: int|
                0 <= j < s.drop_last().len() && #[trigger] s.drop_last()[j] == s.drop_last().filter(
                    pred,
                )[i];
            assert(s[j] == s.filter(pred)[i]);
        }
    }
}

/// Filtering keeps page starts pairwise distinct.
proof fn lemma_filter_unique(s: Seq<(usize, EntryFlags)>, pred: spec_fn((usize, EntryFlags)) -> bool)
    requires
        forall|i: int, j: int| 0 <= i < j < s.len() ==> (#[trigger] s[i]).0 != (#[trigger] s[j]).0,
    ensures
        forall|k1: int, k2: int|
            0 <= k1 < k2 < s.filter(pred).len() ==> (#[trigger] s.filter(pred)[k1]).0 != (
            #[trigger] s.filter(pred)[k2]).0,
    decreases s.len(),
{
    reveal(Seq::filter);
    if s.len() > 0 {
        lemma_filter_unique(s.drop_last(), pred);
        let fd = s.drop_last().filter(pred);
        assert forall|k1: int, k2: int|
            0 <= k1 < k2 < s.filter(pred).len() implies (#[trigger] s.filter(pred)[k1]).0 != (
        #[trigger] s.filter(pred)[k2]).0 by {
            if pred(s.last()) && k2 == s.filter(pred).len() - 1 {
                assert(s.filter(pred)[k1] == fd[k1]);
                lemma_filter_member(s.drop_last(), pred, k1);
                let j = choose|j: int|
                    0 <= j < s.drop_last().len() && #[trigger] s.drop_last()[j] == fd[k1];
                assert(s[j].0 != s[s.len() - 1].0);
            } else {
                assert(s.filter(pred)[k1] == fd[k1] && s.filter(pred)[k2] == fd[k2]);
            }
        }
    }
}

/// Value of the last store to `addr` in the journal, zero if none.
pub open spec fn lookup_word(s: Seq<(usize, u64)>, addr: usize) -> u64
    decreases s.len(),
{
    if s.len() == 0 {
        0
    } else if s.last().0 == addr {
        s.last().1
    } else {
        lookup_word(s.drop_last(), addr)
    }
}

/// Model of the active page-table mapping.
pub struct MemoryMapper {
    pages: Vec<(usize, EntryFlags)>,
    words: Vec<(usize, u64)>,
}

impl MemoryMapper {
    /// The committed pages with their flags, one entry per page.
    pub closed spec fn pages_seq(self) -> Seq<(usize, EntryFlags)> {
        self.pages@
    }

    /// The journal of word stores.
    pub closed spec fn words_seq(self) -> Seq<(usize, u64)> {
        self.words@
    }

    /// True when the page starting at `page` is committed.
    pub open spec fn is_mapped(self, page: usize) -> bool {
        exists|i: int| 0 <= i < self.pages_seq().len() && (#[trigger] self.pages_seq()[i]).0 == page
    }

    /// The word most recently stored at `addr` (zero before any store).
    pub open spec fn word_at(self, addr: usize) -> u64 {
        lookup_word(self.words_seq(), addr)
    }

    /// Every committed page is page-aligned and recorded exactly once.
    pub open spec fn wf(self) -> bool {
        let p = self.pages_seq();
        &&& forall|i: int| 0 <= i < p.len() ==> is_page_multiple((#[trigger] p[i]).0)
        &&& forall|i: int, j: int|
            0 <= i < j < p.len() ==> (#[trigger] p[i]).0 != (#[trigger] p[j]).0
    }

    pub fn new() -> (r: MemoryMapper)
        ensures
            r.wf(),
            r.pages_seq().len() == 0,
            r.words_seq().len() == 0,
    {
        MemoryMapper { pages: Vec::new(), words: Vec::new() }
    }

    /// Commits `size` bytes of pages starting at `start` with `flags`.
    pub fn map_range(&mut self, start: VirtAddr, size: usize, flags: EntryFlags) -> (r: Result<
        (),
        MemoryError,
    >)
        requires
            old(self).wf(),
            is_page_multiple(start.0),
            is_page_multiple(size),
            start.0 + size <= usize::MAX,
            forall|p: usize| start.0 <= p < start.0 + size ==> !old(self).is_mapped(p),
        ensures
            final(self).wf(),
            r == Ok::<(), MemoryError>(()),
            final(self).words_seq() == old(self).words_seq(),
            forall|p: usize|
                final(self).is_mapped(p) <==> (old(self).is_mapped(p) || (is_page_multiple(p)
                    && start.0 <= p < start.0 + size)),
            forall|i: int|
                0 <= i < final(self).pages_seq().len() ==> (0 <= i < old(self).pages_seq().len()
                    && (#[trigger] final(self).pages_seq()[i]) == old(self).pages_seq()[i])
                    || final(self).pages_seq()[i].1 == flags,
    {
        let ghost p0 = self.pages@;
        let mut off: usize = 0;
        while off < size
            invariant
                self.words@ == old(self).words_seq(),
                is_page_multiple(start.0),
                is_page_multiple(size),
                is_page_multiple(off),
                start.0 + size <= usize::MAX,
                0 <= off <= size,
                p0 == old(self).pages_seq(),
                old(self).wf(),
                forall|p: usize| start.0 <= p < start.0 + size ==> !old(self).is_mapped(p),
                self.pages@.len() * PAGE_SIZE == p0.len() * PAGE_SIZE + off,
                forall|i: int| 0 <= i < p0.len() ==> (#[trigger] self.pages@[i]) == p0[i],
                forall|i: int|
                    p0.len() <= i < self.pages@.len() ==> (#[trigger] self.pages@[i]) == ((
                    start.0 + (i - p0.len()) * PAGE_SIZE) as usize, flags),
            decreases size - off,
        {
            let page = start.as_usize() + off;
            self.pages.push((page, flags));
            proof {
                assert(self.pages@.last() == ((start.0 + (self.pages@.len() - 1
                    - p0.len()) * PAGE_SIZE) as usize, flags));
            }
            proof {
                crate::addr::lemma_page_multiple_sub(size as int, off as int);
            }
            off = off + PAGE_SIZE;
        }
        proof {
            let p1 = self.pages@;
            let n = p0.len() as int;
            // every appended entry is one page of the requested range
            assert forall|i: int| n <= i < p1.len() implies is_page_multiple((#[trigger] p1[i]).0)
                && start.0 <= p1[i].0 && p1[i].0 + PAGE_SIZE <= start.0 + size by {
                crate::addr::lemma_page_multiple_add(start.0 as int, ((i - n) * PAGE_SIZE) as int);
                assert((i - n) * PAGE_SIZE % (PAGE_SIZE as int) == 0) by (nonlinear_arith);
                assert((i - n) * PAGE_SIZE + PAGE_SIZE == (i + 1 - n) * PAGE_SIZE) by (nonlinear_arith);
                assert((i + 1 - n) * PAGE_SIZE <= (p1.len() - n) * PAGE_SIZE) by (nonlinear_arith)
                    requires i + 1 <= p1.len() && n <= i && PAGE_SIZE > 0;
            }
            assert forall|i: int, j: int| n <= i < j < p1.len() implies (#[trigger] p1[i]).0 != (
            #[trigger] p1[j]).0 by {
                assert((i - n) * PAGE_SIZE < (j - n) * PAGE_SIZE) by (nonlinear_arith)
                    requires n <= i && i < j && PAGE_SIZE > 0;
            }
            assert forall|i: int| 0 <= i < p1.len() implies is_page_multiple(
                (#[trigger] p1[i]).0,
            ) by {
                if i < n {
                    assert(p1[i] == p0[i]);
                }
            }
            assert forall|i: int, j: int| 0 <= i < j < p1.len() implies (#[trigger] p1[i]).0 != (
            #[trigger] p1[j]).0 by {
                if j < n {
                } else if i >= n {
                } else {
                    // a page mapped before the call cannot lie in the fresh range
                    if p1[i].0 == p1[j].0 {
                        assert(p0[i].0 == p1[j].0);
                        assert(old(self).is_mapped(p1[j].0));
                        assert(false);
                    }
                }
            }
            assert(self.wf());
            assert forall|p: usize|
                self.is_mapped(p) <==> (old(self).is_mapped(p) || (is_page_multiple(p) && start.0
                    <= p < start.0 + size)) by {
                if self.is_mapped(p) {
                    let w = choose|i: int| 0 <= i < p1.len() && (#[trigger] p1[i]).0 == p;
                    if w < n {
                        assert(p0[w].0 == p);
                    }
                } else {
                    if old(self).is_mapped(p) {
                        let w = choose|i: int| 0 <= i < p0.len() && (#[trigger] p0[i]).0 == p;
                        assert(p1[w].0 == p);
                    } else if is_page_multiple(p) && start.0 <= p < start.0 + size {
                        let d = p - start.0;
                        assert(d % (PAGE_SIZE as int) == 0) by {
                            crate::addr::lemma_page_multiple_sub(p as int, start.0 as int);
                        }
                        let m = d / (PAGE_SIZE as int);
                        vstd::arithmetic::div_mod::lemma_fundamental_div_mod(
                            d,
                            PAGE_SIZE as int,
                        );
                        assert(d == m * PAGE_SIZE);
                        assert(0 <= m) by (nonlinear_arith)
                            requires 0 <= d && PAGE_SIZE > 0 && d == m * PAGE_SIZE;
                        assert(m < p1.len() - n) by (nonlinear_arith)
                            requires
                                m * PAGE_SIZE < (p1.len() - n) * PAGE_SIZE && PAGE_SIZE > 0;
                        assert(p1[n + m].0 == p);
                    }
                }
            }
        }
        Ok(())
    }

    /// Uncommits every page in `[start, start + size)`; pages that were never
    /// mapped are silently tolerated, and a zero size is a no-op.
    #[verifier::rlimit(100)]
    pub fn free_and_unmap_range(&mut self, start: VirtAddr, size: usize)
        requires
            old(self).wf(),
            start.0 + size <= usize::MAX,
        ensures
            final(self).wf(),
            final(self).words_seq() == old(self).words_seq(),
            forall|p: usize|
                final(self).is_mapped(p) <==> (old(self).is_mapped(p) && !(start.0 <= p < start.0
                    + size)),
    {
        let ghost p0 = old(self).pages_seq();
        let ghost pred = (|e: (usize, EntryFlags)| !(start.0 <= e.0 < start.0 + size));
        proof {
            assert(self.pages@ == p0);
            assert(p0.subrange(0, 0) =~= Seq::<(usize, EntryFlags)>::empty());
            reveal(Seq::filter);
        }
        let mut kept: Vec<(usize, EntryFlags)> = Vec::new();
        let mut i: usize = 0;
        while i < self.pages.len()
            invariant
                self.pages@ == p0,
                0 <= i <= p0.len(),
                start.0 + size <= usize::MAX,
                pred == (|e: (usize, EntryFlags)| !(start.0 <= e.0 < start.0 + size)),
                kept@ == p0.subrange(0, i as int).filter(pred),
            decreases p0.len() - i,
        {
            let (page, flags) = self.pages[i];
            let ghost prefix = p0.subrange(0, i as int);
            proof {
                assert(p0.subrange(0, i + 1) =~= prefix.push(p0[i as int]));
                Seq::lemma_filter_push(prefix, p0[i as int], pred);
            }
            if page < start.as_usize() || page >= start.as_usize() + size {
                kept.push((page, flags));
            }
            i += 1;
        }
        self.pages = kept;
        proof {
            assert(p0.subrange(0, p0.len() as int) =~= p0);
            let f = p0.filter(pred);
            broadcast use vstd::seq_lib::group_filter_ensures;
            lemma_filter_unique(p0, pred);
            assert(self.pages@ == f);
            assert forall|k: int| 0 <= k < f.len() implies is_page_multiple(
                (#[trigger] f[k]).0,
            ) by {
                lemma_filter_member(p0, pred, k);
                let j = choose|j: int| 0 <= j < p0.len() && #[trigger] p0[j] == f[k];
                assert(is_page_multiple(p0[j].0));
            }
            assert(self.wf());
            assert forall|p: usize|
                self.is_mapped(p) <==> (old(self).is_mapped(p) && !(start.0 <= p < start.0
                    + size)) by {
                if self.is_mapped(p) {
                    let k = choose|k: int| 0 <= k < f.len() && (#[trigger] f[k]).0 == p;
                    lemma_filter_member(p0, pred, k);
                    let j = choose|j: int| 0 <= j < p0.len() && #[trigger] p0[j] == f[k];
                    assert(p0[j].0 == p);
                    assert(old(self).is_mapped(p));
                    assert(pred(f[k]));
                    assert(!(start.0 <= p < start.0 + size));
                } else if old(self).is_mapped(p) && !(start.0 <= p < start.0 + size) {
                    let j = choose|j: int| 0 <= j < p0.len() && (#[trigger] p0[j]).0 == p;
                    assert(pred(p0[j]));
                    assert(f.contains(p0[j]));
                    let k = choose|k: int| 0 <= k < f.len() && #[trigger] f[k] == p0[j];
                    assert(self.pages_seq()[k].0 == p);
                    assert(self.is_mapped(p));
                }
            }
        }
    }

    /// Translates a virtual address: the model is identity-mapped, so a
    /// mapped address translates to itself.
    pub fn translate(&self, va: VirtAddr) -> (r: Option<usize>)
        requires
            self.wf(),
        ensures
            r is Some <==> self.is_mapped((va.0 - va.0 % PAGE_SIZE) as usize),
            r is Some ==> r == Some(va.0),
    {
        let page = va.as_usize() - va.as_usize() % PAGE_SIZE;
        let mut i: usize = 0;
        while i < self.pages.len()
            invariant
                self.wf(),
                0 <= i <= self.pages@.len(),
                page == va.0 - va.0 % PAGE_SIZE,
                forall|j: int| 0 <= j < i ==> (#[trigger] self.pages@[j]).0 != page,
            decreases self.pages@.len() - i,
        {
            if self.pages[i].0 == page {
                proof {
                    assert(self.pages_seq()[i as int].0 == page);
                }
                return Some(va.as_usize());
            }
            i += 1;
        }
        None
    }

    /// Stores a word at a committed, word-aligned address.
    pub fn store_word(&mut self, addr: usize, value: u64)
        requires
            old(self).wf(),
            addr % 8 == 0,
            old(self).is_mapped((addr - addr % PAGE_SIZE) as usize),
        ensures
            final(self).wf(),
            final(self).pages_seq() == old(self).pages_seq(),
            final(self).words_seq() == old(self).words_seq().push((addr, value)),
            final(self).word_at(addr) == value,
            forall|a: usize| a != addr ==> final(self).word_at(a) == old(self).word_at(a),
    {
        self.words.push((addr, value));
        proof {
            assert(self.words@.drop_last() =~= old(self).words_seq());
        }
    }

    /// Loads the word last stored at a committed, word-aligned address; a
    /// word never stored reads as zero.
    pub fn load_word(&self, addr: usize) -> (r: u64)
        requires
            self.wf(),
            addr % 8 == 0,
            self.is_mapped((addr - addr % PAGE_SIZE) as usize),
        ensures
            r == self.word_at(addr),
    {
        proof {
            assert(self.words@.subrange(0, self.words@.len() as int) =~= self.words@);
        }
        let mut i: usize = self.words.len();
        while i > 0
            invariant
                0 <= i <= self.words@.len(),
                lookup_word(self.words@, addr) == lookup_word(
                    self.words@.subrange(0, i as int),
                    addr,
                ),
            decreases i,
        {
            i = i - 1;
            if self.words[i].0 == addr {
                return self.words[i].1;
            }
            proof {
                assert(self.words@.subrange(0, i + 1).drop_last() =~= self.words@.subrange(
                    0,
                    i as int,
                ));
            }
        }
        proof {
            assert(self.words@.subrange(0, 0) =~= Seq::<(usize, u64)>::empty());
        }
        0
    }
}

} // verus!
