use kernel_core::addr::{VirtAddr, PAGE_SIZE};
use kernel_core::mapper::{EntryFlags, MemoryError, MemoryMapper, PRESENT, WRITABLE};
use kernel_core::vma::{LazilyMappedVma, MappedVma, Vma};
use kernel_core::vma_allocator::VMAAllocator;

const BASE: usize = 0x1000_0000;

fn seeded(total: usize) -> VMAAllocator {
    let mut allocator = VMAAllocator::new();
    allocator.insert_region(VirtAddr::new(BASE), total);
    allocator
}

#[test]
fn alloc_release_round_trip() {
    let mut allocator = seeded(16 * PAGE_SIZE);
    let vma = Vma::create(&mut allocator, PAGE_SIZE).unwrap();
    let start = vma.address().as_usize();
    assert_eq!(start, BASE);
    assert_eq!(vma.size(), PAGE_SIZE);
    vma.release(&mut allocator);
    let again = allocator.alloc_region(PAGE_SIZE).unwrap();
    assert_eq!(again.as_usize(), start);
}

#[test]
fn alloc_addresses_are_page_aligned_and_disjoint() {
    let mut allocator = seeded(16 * PAGE_SIZE);
    let first = Vma::create(&mut allocator, 2 * PAGE_SIZE).unwrap();
    let second = Vma::create(&mut allocator, 3 * PAGE_SIZE).unwrap();
    assert_eq!(first.address().as_usize() % PAGE_SIZE, 0);
    assert_eq!(second.address().as_usize() % PAGE_SIZE, 0);
    let a0 = first.address().as_usize();
    let a1 = second.address().as_usize();
    assert!(a0 + first.size() <= a1 || a1 + second.size() <= a0);
}

#[test]
fn reclaimed_regions_coalesce() {
    let total = 4 * PAGE_SIZE;
    let mut allocator = seeded(total);
    let first = Vma::create(&mut allocator, PAGE_SIZE).unwrap();
    let second = Vma::create(&mut allocator, 2 * PAGE_SIZE).unwrap();
    first.release(&mut allocator);
    second.release(&mut allocator);
    // the whole managed range is one interval again
    let whole = allocator.alloc_region(total).unwrap();
    assert_eq!(whole.as_usize(), BASE);
}

#[test]
fn create_fails_when_nothing_fits() {
    let mut allocator = seeded(2 * PAGE_SIZE);
    match Vma::create(&mut allocator, 4 * PAGE_SIZE) {
        Ok(_) => panic!("creation should have failed"),
        Err(err) => assert_eq!(err, MemoryError::NoMoreVMA),
    }
    let mut empty_allocator = VMAAllocator::new();
    assert!(empty_allocator.alloc_region(PAGE_SIZE).is_none());
}

#[test]
fn first_fit_picks_lowest_address() {
    let mut allocator = VMAAllocator::new();
    allocator.insert_region(VirtAddr::new(BASE), PAGE_SIZE);
    allocator.insert_region(VirtAddr::new(BASE + 8 * PAGE_SIZE), 4 * PAGE_SIZE);
    // one page fits in the first (lowest) interval
    assert_eq!(allocator.alloc_region(PAGE_SIZE).unwrap().as_usize(), BASE);
    // two pages only fit in the second interval
    let r = allocator.alloc_region(2 * PAGE_SIZE).unwrap();
    assert_eq!(r.as_usize(), BASE + 8 * PAGE_SIZE);
}

#[test]
fn map_write_read_unmap() {
    let mut allocator = seeded(16 * PAGE_SIZE);
    let mut mapper = MemoryMapper::new();
    let vma = Vma::create(&mut allocator, 2 * PAGE_SIZE).unwrap();
    let flags = EntryFlags::new(PRESENT | WRITABLE);
    let mapped = vma.map(&mut allocator, &mut mapper, 0, PAGE_SIZE, flags).unwrap();
    let start = mapped.address();
    assert_eq!(mapped.size(), 2 * PAGE_SIZE);
    mapper.store_word(start.as_usize(), 42);
    assert_eq!(mapper.load_word(start.as_usize()), 42);
    assert_eq!(mapper.translate(start), Some(start.as_usize()));
    mapped.release(&mut allocator, &mut mapper);
    assert!(mapper.translate(start).is_none());
}

#[test]
fn map_out_of_range_is_rejected_and_reclaimed() {
    let mut allocator = seeded(16 * PAGE_SIZE);
    let mut mapper = MemoryMapper::new();
    let vma = Vma::create(&mut allocator, 2 * PAGE_SIZE).unwrap();
    let start = vma.address().as_usize();
    let flags = EntryFlags::new(PRESENT | WRITABLE);
    match vma.map(&mut allocator, &mut mapper, 2 * PAGE_SIZE, PAGE_SIZE, flags) {
        Ok(_) => panic!("mapping should have failed"),
        Err(err) => assert_eq!(err, MemoryError::InvalidRange),
    }
    // the reservation went back to the allocator
    let again = allocator.alloc_region(2 * PAGE_SIZE).unwrap();
    assert_eq!(again.as_usize(), start);
}

#[test]
fn zero_length_map_at_reservation_end_is_allowed() {
    let mut allocator = seeded(16 * PAGE_SIZE);
    let mut mapper = MemoryMapper::new();
    let vma = Vma::create(&mut allocator, PAGE_SIZE).unwrap();
    let flags = EntryFlags::new(PRESENT | WRITABLE);
    // off + map_size == size is within the reservation; nothing is committed
    let mapped = vma.map(&mut allocator, &mut mapper, PAGE_SIZE, 0, flags).unwrap();
    assert_eq!(mapped.size(), PAGE_SIZE);
    assert!(mapper.translate(mapped.address()).is_none());
    mapped.release(&mut allocator, &mut mapper);
    // one byte past the reservation is rejected
    let vma = Vma::create(&mut allocator, PAGE_SIZE).unwrap();
    match vma.map(&mut allocator, &mut mapper, PAGE_SIZE, PAGE_SIZE, flags) {
        Ok(_) => panic!("mapping should have failed"),
        Err(err) => assert_eq!(err, MemoryError::InvalidRange),
    }
}

#[test]
fn lazy_map_grows_on_fault() {
    let mut allocator = seeded(16 * PAGE_SIZE);
    let mut mapper = MemoryMapper::new();
    let vma = Vma::create(&mut allocator, 2 * PAGE_SIZE).unwrap();
    let flags = EntryFlags::new(PRESENT | WRITABLE);
    let mut lazy = vma.map_lazily(flags);
    assert_eq!(lazy.size(), 0);
    assert_eq!(lazy.flags(), flags);
    assert!(mapper.translate(lazy.address()).is_none());
    lazy.fault_in_page(&mut mapper);
    assert_eq!(lazy.size(), PAGE_SIZE);
    assert!(mapper.translate(lazy.address()).is_some());
    let start = lazy.address();
    lazy.release(&mut allocator, &mut mapper);
    assert!(mapper.translate(start).is_none());
}

#[test]
fn empty_regions_are_null_and_releasable() {
    let mut allocator = seeded(4 * PAGE_SIZE);
    let vma = Vma::empty();
    assert!(vma.address().is_null());
    assert_eq!(vma.size(), 0);
    vma.release(&mut allocator);
    let mapped = MappedVma::empty();
    assert!(mapped.address().is_null());
    let lazy = LazilyMappedVma::empty();
    assert!(lazy.address().is_null());
    assert_eq!(lazy.size(), 0);
    // the free pool is untouched
    assert_eq!(allocator.alloc_region(4 * PAGE_SIZE).unwrap().as_usize(), BASE);
}
