//! Virtual memory area region types: a bare reservation, an eagerly mapped
//! region and a lazily mapped region.
//!
//! Every variant releases its resources through an explicit `release`
//! call, the scope-bound cleanup made explicit: the mapped
//! variants unmap the committed pages and all variants return the reserved
//! interval to the allocator, so at most one release path reclaims each
//! reservation.

use vstd::prelude::*;

use crate::addr::{is_page_multiple, VirtAddr, PAGE_SIZE};
use crate::mapper::{EntryFlags, MemoryError, MemoryMapper};
use crate::vma_allocator::{free_covers, range_wf, sum_lens, VMAAllocator};

verus! {

/// Virtual memory area: an exclusively owned page-aligned reservation.
pub struct Vma {
    start: VirtAddr,
    size: usize,
}

/// Vma whose sub-range has been committed in the page table.
pub struct MappedVma {
    vma: Vma,
}

/// Lazily mapped Vma, committed page by page on access.
pub struct LazilyMappedVma {
    vma: Vma,
    /// The flags to use when mapping the memory.
    flags: EntryFlags,
    /// The size of the real mapped part.
    mapped_size: usize,
}

impl Vma {
    /// Starting address of the reservation.
    pub closed spec fn spec_address(self) -> usize {
        self.start.0
    }

    /// Length of the reservation in bytes.
    pub closed spec fn spec_size(self) -> usize {
        self.size
    }

    /// The reservation as a `(start, len)` range.
    pub open spec fn range(self) -> (usize, usize) {
        (self.spec_address(), self.spec_size())
    }

    /// Page-aligned, within the address space, and null exactly when empty.
    pub open spec fn wf(self) -> bool {
        &&& is_page_multiple(self.spec_address())
        &&& is_page_multiple(self.spec_size())
        &&& self.spec_address() + self.spec_size() <= usize::MAX
        &&& (self.spec_address() == 0 <==> self.spec_size() == 0)
    }

    /// Empty Vma.
    pub fn empty() -> (r: Vma)
        ensures
            r.wf(),
            r.spec_address() == 0,
            r.spec_size() == 0,
    {
        Vma { start: VirtAddr::null(), size: 0 }
    }

    /// Creates a new Vma of the requested size from the allocator's free
    /// space. Fails with `NoMoreVMA` exactly when no free interval fits.
    pub fn create(allocator: &mut VMAAllocator, size: usize) -> (r: Result<Vma, MemoryError>)
        requires
            old(allocator).wf(),
            size > 0,
            is_page_multiple(size),
        ensures
            final(allocator).wf(),
            match r {
                Ok(v) => {
                    &&& v.wf()
                    &&& v.spec_size() == size
                    &&& v.spec_address() > 0
                    &&& final(allocator).live_ranges() == old(allocator).live_ranges().push(
                        v.range(),
                    )
                    &&& final(allocator).managed_total() == old(allocator).managed_total()
                    &&& exists|i: int|
                        {
                            &&& 0 <= i < old(allocator).free_ranges().len()
                            &&& (#[trigger] old(allocator).free_ranges()[i]).0
                                == v.spec_address()
                            &&& old(allocator).free_ranges()[i].1 >= size
                            &&& forall|j: int|
                                0 <= j < i ==> (#[trigger] old(allocator).free_ranges()[j]).1
                                    < size
                            &&& final(allocator).free_ranges() == (if old(
                                allocator,
                            ).free_ranges()[i].1 == size {
                                old(allocator).free_ranges().remove(i)
                            } else {
                                old(allocator).free_ranges().update(
                                    i,
                                    (
                                        (old(allocator).free_ranges()[i].0 + size) as usize,
                                        (old(allocator).free_ranges()[i].1 - size) as usize,
                                    ),
                                )
                            })
                        }
                },
                Err(e) => {
                    &&& e == MemoryError::NoMoreVMA
                    &&& final(allocator).free_ranges() == old(allocator).free_ranges()
                    &&& final(allocator).live_ranges() == old(allocator).live_ranges()
                    &&& forall|j: int|
                        0 <= j < old(allocator).free_ranges().len() ==> (#[trigger] old(allocator).free_ranges()[j]).1 < size
                },
            },
    {
        match allocator.alloc_region(size) {
            Some(start) => Ok(Vma { start, size }),
            None => Err(MemoryError::NoMoreVMA),
        }
    }

    /// Converts to a mapped Vma by committing `map_size` bytes at offset
    /// `map_off` of the reservation. A sub-range outside the reservation is
    /// rejected with `InvalidRange` and the reservation is returned to the
    /// allocator, as when a rejected Vma goes out of scope.
    pub fn map(
        self,
        allocator: &mut VMAAllocator,
        mapper: &mut MemoryMapper,
        map_off: usize,
        map_size: usize,
        flags: EntryFlags,
    ) -> (r: Result<MappedVma, MemoryError>)
        requires
            old(allocator).wf(),
            old(mapper).wf(),
            self.wf(),
            is_page_multiple(map_off),
            is_page_multiple(map_size),
            map_off + map_size <= usize::MAX,
            self.spec_address() > 0 ==> old(allocator).live_ranges().contains(self.range()),
            map_off + map_size <= self.spec_size() ==> forall|p: usize|
                self.spec_address() + map_off <= p < self.spec_address() + map_off + map_size
                    ==> !old(mapper).is_mapped(p),
        ensures
            final(allocator).wf(),
            final(mapper).wf(),
            match r {
                Ok(m) => {
                    &&& map_off + map_size <= self.spec_size()
                    &&& m.wf()
                    &&& m.spec_address() == self.spec_address()
                    &&& m.spec_size() == self.spec_size()
                    &&& *final(allocator) == *old(allocator)
                    &&& forall|p: usize|
                        final(mapper).is_mapped(p) <==> (old(mapper).is_mapped(p) || (
                        is_page_multiple(p) && self.spec_address() + map_off <= p
                            < self.spec_address() + map_off + map_size))
                },
                Err(e) => {
                    &&& map_off + map_size > self.spec_size()
                    &&& e == MemoryError::InvalidRange
                    &&& *final(mapper) == *old(mapper)
                    &&& self.spec_address() == 0 ==> *final(allocator) == *old(allocator)
                    // the rejected reservation is reclaimed, as when it goes
                    // out of scope
                    &&& self.spec_address() > 0 ==> {
                        &&& final(allocator).managed_total() == old(allocator).managed_total()
                        &&& sum_lens(final(allocator).free_ranges()) == sum_lens(
                            old(allocator).free_ranges(),
                        ) + self.spec_size()
                        &&& exists|k: int|
                            {
                                &&& 0 <= k < old(allocator).live_ranges().len()
                                &&& (#[trigger] old(allocator).live_ranges()[k]) == self.range()
                                &&& final(allocator).live_ranges() == old(
                                    allocator,
                                ).live_ranges().remove(k)
                            }
                        &&& forall|p: usize|
                            free_covers(final(allocator).free_ranges(), p) <==> (free_covers(
                                old(allocator).free_ranges(),
                                p,
                            ) || (self.spec_address() <= p < self.spec_address()
                                + self.spec_size()))
                    }
                },
            },
    {
        if map_off + map_size > self.size {
            self.release(allocator);
            Err(MemoryError::InvalidRange)
        } else {
            proof {
                crate::addr::lemma_page_multiple_add(self.spec_address() as int, map_off as int);
            }
            match mapper.map_range(VirtAddr::new(self.start.as_usize() + map_off), map_size, flags)
            {
                Ok(()) => Ok(MappedVma { vma: self }),
                Err(e) => Err(e),
            }
        }
    }

    /// Converts to a lazily mapped Vma; nothing is committed yet.
    pub fn map_lazily(self, flags: EntryFlags) -> (r: LazilyMappedVma)
        requires
            self.wf(),
        ensures
            r.wf(),
            r.spec_address() == self.spec_address(),
            r.spec_reserved_size() == self.spec_size(),
            r.spec_mapped_size() == 0,
            r.spec_flags() == flags,
    {
        LazilyMappedVma { vma: self, flags, mapped_size: 0 }
    }

    /// Gets the starting address.
    pub fn address(&self) -> (r: VirtAddr)
        ensures
            r.0 == self.spec_address(),
    {
        self.start
    }

    /// Gets the length.
    pub fn size(&self) -> (r: usize)
        ensures
            r == self.spec_size(),
    {
        self.size
    }

    /// Returns the reservation to the allocator, unless it is the empty
    /// (null) reservation. This is the explicit form of dropping a Vma.
    pub fn release(self, allocator: &mut VMAAllocator)
        requires
            old(allocator).wf(),
            self.wf(),
            self.spec_address() > 0 ==> old(allocator).live_ranges().contains(self.range()),
        ensures
            final(allocator).wf(),
            self.spec_address() == 0 ==> *final(allocator) == *old(allocator),
            self.spec_address() > 0 ==> {
                &&& sum_lens(final(allocator).free_ranges()) == sum_lens(
                    old(allocator).free_ranges(),
                ) + self.spec_size()
                &&& final(allocator).managed_total() == old(allocator).managed_total()
                &&& exists|k: int|
                    {
                        &&& 0 <= k < old(allocator).live_ranges().len()
                        &&& (#[trigger] old(allocator).live_ranges()[k]) == self.range()
                        &&& final(allocator).live_ranges() == old(allocator).live_ranges().remove(
                            k,
                        )
                    }
                &&& exists|i: int|
                    {
                        &&& 0 <= i < final(allocator).free_ranges().len()
                        &&& (#[trigger] final(allocator).free_ranges()[i]).0 <= self.spec_address()
                        &&& self.spec_address() + self.spec_size() <= final(allocator).free_ranges()[i].0 + final(allocator).free_ranges()[i].1
                    }
                &&& forall|p: usize|
                    free_covers(final(allocator).free_ranges(), p) <==> (free_covers(
                        old(allocator).free_ranges(),
                        p,
                    ) || (self.spec_address() <= p < self.spec_address() + self.spec_size()))
            },
    {
        if !self.start.is_null() {
            proof {
                assert(range_wf(self.range()));
            }
            allocator.insert_region(self.start, self.size);
        }
    }
}

/// Unmaps a whole reservation. The exact committed sub-range need not be
/// known: the region owns all of it, and unmapping never-mapped pages is
/// tolerated (an empty mapping has size zero and is a no-op).
pub fn drop_mapping(mapper: &mut MemoryMapper, start: VirtAddr, size: usize)
    requires
        old(mapper).wf(),
        start.0 + size <= usize::MAX,
    ensures
        final(mapper).wf(),
        forall|p: usize|
            final(mapper).is_mapped(p) <==> (old(mapper).is_mapped(p) && !(start.0 <= p < start.0
                + size)),
{
    mapper.free_and_unmap_range(start, size);
}

impl MappedVma {
    /// Starting address of the reservation.
    pub closed spec fn spec_address(self) -> usize {
        self.vma.spec_address()
    }

    /// Length of the whole reservation in bytes.
    pub closed spec fn spec_size(self) -> usize {
        self.vma.spec_size()
    }

    /// The reservation as a `(start, len)` range.
    pub open spec fn range(self) -> (usize, usize) {
        (self.spec_address(), self.spec_size())
    }

    pub open spec fn wf(self) -> bool {
        &&& is_page_multiple(self.spec_address())
        &&& is_page_multiple(self.spec_size())
        &&& self.spec_address() + self.spec_size() <= usize::MAX
        &&& (self.spec_address() == 0 <==> self.spec_size() == 0)
    }

    /// Empty mapped Vma.
    pub fn empty() -> (r: MappedVma)
        ensures
            r.wf(),
            r.spec_address() == 0,
            r.spec_size() == 0,
    {
        MappedVma { vma: Vma::empty() }
    }

    /// Gets the starting address.
    pub fn address(&self) -> (r: VirtAddr)
        ensures
            r.0 == self.spec_address(),
    {
        self.vma.address()
    }

    /// Gets the size.
    pub fn size(&self) -> (r: usize)
        ensures
            r == self.spec_size(),
    {
        self.vma.size()
    }

    /// Unmaps the whole reservation and returns the interval to the
    /// allocator: the explicit form of dropping a mapped Vma.
    pub fn release(self, allocator: &mut VMAAllocator, mapper: &mut MemoryMapper)
        requires
            old(allocator).wf(),
            old(mapper).wf(),
            self.wf(),
            self.spec_address() > 0 ==> old(allocator).live_ranges().contains(self.range()),
        ensures
            final(allocator).wf(),
            final(mapper).wf(),
            forall|p: usize|
                final(mapper).is_mapped(p) <==> (old(mapper).is_mapped(p) && !(self.spec_address()
                    <= p < self.spec_address() + self.spec_size())),
            self.spec_address() > 0 ==> final(allocator).managed_total() == old(allocator).managed_total() && sum_lens(final(allocator).free_ranges()) == sum_lens(
                old(allocator).free_ranges(),
            ) + self.spec_size(),
            self.spec_address() > 0 ==> forall|p: usize|
                free_covers(final(allocator).free_ranges(), p) <==> (free_covers(
                    old(allocator).free_ranges(),
                    p,
                ) || (self.spec_address() <= p < self.spec_address() + self.spec_size())),
            self.spec_address() == 0 ==> *final(allocator) == *old(allocator),
    {
        drop_mapping(mapper, self.vma.address(), self.vma.size());
        self.vma.release(allocator);
    }
}

impl LazilyMappedVma {
    /// Starting address of the reservation.
    pub closed spec fn spec_address(self) -> usize {
        self.vma.spec_address()
    }

    /// Length of the whole reservation in bytes.
    pub closed spec fn spec_reserved_size(self) -> usize {
        self.vma.spec_size()
    }

    /// Bytes committed so far, from the start of the reservation.
    pub closed spec fn spec_mapped_size(self) -> usize {
        self.mapped_size
    }

    /// The flags used when faulting pages in.
    pub closed spec fn spec_flags(self) -> EntryFlags {
        self.flags
    }

    /// The reservation as a `(start, len)` range.
    pub open spec fn range(self) -> (usize, usize) {
        (self.spec_address(), self.spec_reserved_size())
    }

    /// The committed part is a page-aligned prefix of the reservation.
    pub open spec fn wf(self) -> bool {
        &&& is_page_multiple(self.spec_address())
        &&& is_page_multiple(self.spec_reserved_size())
        &&& self.spec_address() + self.spec_reserved_size() <= usize::MAX
        &&& (self.spec_address() == 0 <==> self.spec_reserved_size() == 0)
        &&& is_page_multiple(self.spec_mapped_size())
        &&& self.spec_mapped_size() <= self.spec_reserved_size()
    }

    /// Empty lazily mapped Vma.
    pub fn empty() -> (r: LazilyMappedVma)
        ensures
            r.wf(),
            r.spec_address() == 0,
            r.spec_reserved_size() == 0,
            r.spec_mapped_size() == 0,
            r.spec_flags().0 == 0,
    {
        LazilyMappedVma { vma: Vma::empty(), flags: EntryFlags::empty(), mapped_size: 0 }
    }

    /// Gets the flags to use when mapping the memory.
    pub fn flags(&self) -> (r: EntryFlags)
        ensures
            r == self.spec_flags(),
    {
        self.flags
    }

    /// Gets the starting address.
    pub fn address(&self) -> (r: VirtAddr)
        ensures
            r.0 == self.spec_address(),
    {
        self.vma.address()
    }

    /// Gets the size of the real mapped part.
    pub fn size(&self) -> (r: usize)
        ensures
            r == self.spec_mapped_size(),
    {
        self.mapped_size
    }

    /// Commits the next page of the reservation with the recorded flags, as
    /// a page-fault handler does when the region grows on access.
    pub fn fault_in_page(&mut self, mapper: &mut MemoryMapper)
        requires
            old(self).wf(),
            old(mapper).wf(),
            old(self).spec_mapped_size() + PAGE_SIZE <= old(self).spec_reserved_size(),
            forall|p: usize|
                old(self).spec_address() + old(self).spec_mapped_size() <= p < old(self).spec_address() + old(self).spec_mapped_size() + PAGE_SIZE ==> !old(mapper).is_mapped(p),
        ensures
            final(self).wf(),
            final(mapper).wf(),
            final(self).spec_address() == old(self).spec_address(),
            final(self).spec_reserved_size() == old(self).spec_reserved_size(),
            final(self).spec_flags() == old(self).spec_flags(),
            final(self).spec_mapped_size() == old(self).spec_mapped_size() + PAGE_SIZE,
            forall|p: usize|
                final(mapper).is_mapped(p) <==> (old(mapper).is_mapped(p) || (is_page_multiple(p)
                    && old(self).spec_address() + old(self).spec_mapped_size() <= p < old(self).spec_address() + old(self).spec_mapped_size() + PAGE_SIZE)),
    {
        proof {
            crate::addr::lemma_page_multiple_add(
                self.spec_address() as int,
                self.spec_mapped_size() as int,
            );
        }
        let page = self.vma.address().as_usize() + self.mapped_size;
        match mapper.map_range(VirtAddr::new(page), PAGE_SIZE, self.flags) {
            Ok(()) => {
                self.mapped_size = self.mapped_size + PAGE_SIZE;
            },
            Err(_) => {},
        }
    }

    /// Unmaps the committed prefix and returns the reservation interval to
    /// the allocator: the explicit form of dropping a lazily mapped Vma.
    pub fn release(self, allocator: &mut VMAAllocator, mapper: &mut MemoryMapper)
        requires
            old(allocator).wf(),
            old(mapper).wf(),
            self.wf(),
            self.spec_address() > 0 ==> old(allocator).live_ranges().contains(self.range()),
        ensures
            final(allocator).wf(),
            final(mapper).wf(),
            forall|p: usize|
                final(mapper).is_mapped(p) <==> (old(mapper).is_mapped(p) && !(self.spec_address()
                    <= p < self.spec_address() + self.spec_mapped_size())),
            self.spec_address() > 0 ==> final(allocator).managed_total() == old(allocator).managed_total() && sum_lens(final(allocator).free_ranges()) == sum_lens(
                old(allocator).free_ranges(),
            ) + self.spec_reserved_size(),
            self.spec_address() > 0 ==> forall|p: usize|
                free_covers(final(allocator).free_ranges(), p) <==> (free_covers(
                    old(allocator).free_ranges(),
                    p,
                ) || (self.spec_address() <= p < self.spec_address()
                    + self.spec_reserved_size())),
            self.spec_address() == 0 ==> *final(allocator) == *old(allocator),
    {
        drop_mapping(mapper, self.vma.address(), self.mapped_size);
        self.vma.release(allocator);
    }
}

} // verus!
