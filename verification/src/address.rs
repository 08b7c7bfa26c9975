//! Virtual addresses of x86_64, as the `x86_64` crate checks and aligns them.

use vstd::prelude::*;
use x86_64::structures::paging::{Page, Size4KiB};
use x86_64::VirtAddr;

verus! {

/// First address above the lower half of the virtual address space.
pub const LOWER_HALF_END: u64 = 0x8000_0000_0000;

/// First address of the upper half of the virtual address space.
pub const UPPER_HALF_START: u64 = 0xFFFF_8000_0000_0000;

/// `addr` is a canonical virtual address: bits 48 to 63 are copies of bit 47.
pub open spec fn is_canonical(addr: u64) -> bool {
    addr < LOWER_HALF_END || addr >= UPPER_HALF_START
}

/// `addr`, rounded down to the start of its 4 KiB page.
pub open spec fn page_start(addr: u64) -> int {
    addr - addr as int % 4096
}

/// `addr` is the start of a 4 KiB page.
pub open spec fn is_page_start(addr: u64) -> bool {
    is_canonical(addr) && addr % 4096 == 0
}

/// `VirtAddr::try_new` accepts exactly the canonical addresses.
#[verifier::external_body]
pub(crate) fn is_virtual_address(addr: u64) -> (canonical: bool)
    ensures
        canonical == is_canonical(addr),
{
    VirtAddr::try_new(addr).is_ok()
}

/// `Page::containing_address`: the start of the 4 KiB page around an address.
/// `VirtAddr::new` panics on an address that is not canonical.
#[verifier::external_body]
pub(crate) fn page_containing(addr: u64) -> (start: u64)
    requires
        is_canonical(addr),
    ensures
        start == page_start(addr),
{
    Page::<Size4KiB>::containing_address(VirtAddr::new(addr)).start_address().as_u64()
}

/// The canonical addresses are those whose bits 47 to 63 are all equal. The half
/// below starts at zero, and the half above ends with the last address.
pub proof fn canonical_addresses_are_sign_extended(addr: u64)
    ensures
        is_canonical(addr) <==> addr >> 47 == 0 || addr >> 47 == 0x1_FFFF,
        LOWER_HALF_END == 0x8000_0000_0000,
        UPPER_HALF_START == 0xFFFF_8000_0000_0000,
{
    assert((addr < 0x8000_0000_0000 || addr >= 0xFFFF_8000_0000_0000) <==> addr >> 47 == 0 || addr
        >> 47 == 0x1_FFFF) by (bit_vector);
}

/// The start of a page is the address with its low twelve bits cleared. It is
/// the last page start that is not above the address.
pub proof fn page_starts_clear_the_low_bits(addr: u64)
    ensures
        page_start(addr) == addr & !0xFFF,
        page_start(addr) <= addr < page_start(addr) + 4096,
        is_page_start(addr) <==> addr & 0xFFF == 0 && (addr >> 47 == 0 || addr >> 47 == 0x1_FFFF),
        is_canonical(addr) ==> is_page_start(page_start(addr) as u64),
{
    canonical_addresses_are_sign_extended(addr);
    assert(addr & !0xFFF == addr - addr % 4096 && addr & 0xFFF == addr % 4096) by (bit_vector);
}

} // verus!
