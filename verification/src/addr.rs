//! Virtual addresses and page-granularity helpers.

use vstd::prelude::*;

verus! {

/// Size in bytes of one page of virtual memory.
pub const PAGE_SIZE: usize = 4096;

/// True when `n` is a whole number of pages.
pub open spec fn is_page_multiple(n: usize) -> bool {
    n % PAGE_SIZE == 0
}

/// A virtual address. The null address doubles as the sentinel of an empty
/// region, so no region may ever start at address zero.
#[derive(Clone, Copy, PartialEq, Eq, Structural, Debug)]
pub struct VirtAddr(pub usize);

impl VirtAddr {
    pub fn new(value: usize) -> (r: VirtAddr)
        ensures
            r.0 == value,
    {
        VirtAddr(value)
    }

    pub fn null() -> (r: VirtAddr)
        ensures
            r.0 == 0,
    {
        VirtAddr(0)
    }

    pub fn is_null(&self) -> (r: bool)
        ensures
            r == (self.0 == 0),
    {
        self.0 == 0
    }

    pub fn is_page_aligned(&self) -> (r: bool)
        ensures
            r == is_page_multiple(self.0),
    {
        self.0 % PAGE_SIZE == 0
    }

    pub fn as_usize(&self) -> (r: usize)
        ensures
            r == self.0,
    {
        self.0
    }
}

/// The sum of two page multiples is a page multiple.
pub proof fn lemma_page_multiple_add(a: int, b: int)
    by (nonlinear_arith)
    requires
        a % (PAGE_SIZE as int) == 0,
        b % (PAGE_SIZE as int) == 0,
    ensures
        (a + b) % (PAGE_SIZE as int) == 0,
{
}

/// The difference of two page multiples is a page multiple.
pub proof fn lemma_page_multiple_sub(a: int, b: int)
    by (nonlinear_arith)
    requires
        a % (PAGE_SIZE as int) == 0,
        b % (PAGE_SIZE as int) == 0,
    ensures
        (a - b) % (PAGE_SIZE as int) == 0,
{
}

} // verus!
