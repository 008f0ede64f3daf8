//! Physical and virtual address arithmetic, carried out by the `x86_64`
//! crate's address types behind exact contracts.

use vstd::prelude::*;

verus! {

/// Mask selecting the 52 bits a physical address may use.
pub const PHYS_ADDR_MASK: u64 = 0x000F_FFFF_FFFF_FFFF;

/// Mask selecting the frame-aligned physical address field of a page-table
/// entry: the 52-bit physical range with the low 12 bits cleared.
pub const FRAME_ADDR_MASK: u64 = 0x000F_FFFF_FFFF_F000;

/// Mask clearing the low 12 bits of an address (the offset within a 4 KiB
/// frame).
pub const FRAME_ALIGN_MASK: u64 = 0xFFFF_FFFF_FFFF_F000;

/// Relies on `x86_64::PhysAddr::new_truncate`, which keeps the low 52 bits of
/// its argument (`addr % (1 << 52)`) and throws the rest away.
#[verifier::external_body]
pub fn phys_truncate(a: u64) -> (r: u64)
    ensures
        r == (a & PHYS_ADDR_MASK),
{
    x86_64::PhysAddr::new_truncate(a).as_u64()
}

/// Relies on `x86_64::PhysFrame::<Size4KiB>::containing_address`, which aligns
/// a valid physical address down to its 4 KiB frame boundary.
/// `PhysAddr::new` panics when bits 52..64 are set, so those inputs are
/// excluded.
#[verifier::external_body]
pub fn frame_base(a: u64) -> (r: u64)
    requires
        a & 0xFFF0_0000_0000_0000u64 == 0,
    ensures
        r == (a & FRAME_ALIGN_MASK),
{
    x86_64::structures::paging::PhysFrame::<x86_64::structures::paging::Size4KiB>::containing_address(
        x86_64::PhysAddr::new(a),
    )
    .start_address()
    .as_u64()
}

/// What `x86_64::VirtAddr::try_new` returns: the address itself when bits
/// 47..64 are already a sign extension of bit 47, the sign-extended address
/// when bit 47 is set and bits 48..64 are all zero, and nothing otherwise.
pub open spec fn spec_virt_try(a: u64) -> Option<u64> {
    if (a >> 47) == 0 || (a >> 47) == 0x1ffff {
        Some(a)
    } else if (a >> 47) == 1 {
        Some(a | 0xffff_0000_0000_0000u64)
    } else {
        None
    }
}

/// Relies on `x86_64::VirtAddr::try_new`, which accepts a canonical virtual
/// address, sign-extends one whose bits 48..64 are zero while bit 47 is set,
/// and rejects any other.
#[verifier::external_body]
pub fn virt_try(a: u64) -> (r: Option<u64>)
    ensures
        r == spec_virt_try(a),
{
    match x86_64::VirtAddr::try_new(a) {
        Ok(v) => Some(v.as_u64()),
        Err(_) => None,
    }
}

} // verus!
