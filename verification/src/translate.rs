//! Address translator: virtual-to-physical resolution arithmetic.
//!
//! The OS exposes one machine-word-sized little-endian record per virtual
//! page in its page-table-introspection file; the low 55 bits of a record
//! are the physical frame number. The embedding program reads the record
//! bytes; everything that computes — the record's byte offset, the decoding
//! of the record, and the physical address it yields — is verified here.

use vstd::prelude::*;
use vstd::arithmetic::div_mod::{lemma_fundamental_div_mod, lemma_div_pos_is_pos};

verus! {

/// Size in bytes of one page-table-introspection record.
pub const PAGEMAP_RECORD_SIZE: u64 = 8;

/// Mask selecting the page-frame-number bits (the low 55) of a record.
pub const PAGEMAP_FRAME_MASK: u64 = 0x007f_ffff_ffff_ffff;

/// Byte offset, within the page-table-introspection file, of the record for
/// the page containing `addr`.
pub fn pagemap_record_offset(addr: u64, pagesize: u64) -> (r: u64)
    requires
        PAGEMAP_RECORD_SIZE <= pagesize,
    ensures
        r == (addr as int / pagesize as int) * (PAGEMAP_RECORD_SIZE as int),
{
    proof {
        let a = addr as int;
        let p = pagesize as int;
        let q = a / p;
        lemma_div_pos_is_pos(a, p);
        lemma_fundamental_div_mod(a, p);
        assert(q * 8 <= q * p) by (nonlinear_arith)
            requires
                q >= 0,
                p >= 8,
        ;
        assert(q * p == p * q) by (nonlinear_arith);
    }
    (addr / pagesize) * PAGEMAP_RECORD_SIZE
}

/// The physical address that a page-table record assigns to `addr`:
/// frame number times page size, plus the offset within the page.
pub open spec fn phys_of_record(record: u64, addr: u64, pagesize: u64) -> int {
    ((record & PAGEMAP_FRAME_MASK) as int) * (pagesize as int) + (addr as int) % (pagesize as int)
}

/// Resolves `addr` against the page-table record for its page. All bits of
/// the record beyond the frame-number mask are opaque and ignored.
pub fn phys_from_pagemap(record: u64, addr: u64, pagesize: u64) -> (r: u64)
    requires
        0 < pagesize,
        phys_of_record(record, addr, pagesize) <= u64::MAX,
    ensures
        r == phys_of_record(record, addr, pagesize),
{
    (record & PAGEMAP_FRAME_MASK) * pagesize + addr % pagesize
}

/// The value of a little-endian byte string: the first byte is least
/// significant.
pub open spec fn le_bytes_value(s: Seq<u8>) -> int
    decreases s.len(),
{
    if s.len() == 0 {
        0
    } else {
        s[0] + 256 * le_bytes_value(s.drop_first())
    }
}

/// Reads one page-table record from its eight little-endian bytes.
pub fn u64_from_le_bytes(bytes: &[u8; 8]) -> (r: u64)
    ensures
        r == le_bytes_value(bytes@),
{
    proof {
        reveal_with_fuel(le_bytes_value, 9);
        assert(bytes@.drop_first() =~= bytes@.subrange(1, 8));
        assert(bytes@.subrange(1, 8).drop_first() =~= bytes@.subrange(2, 8));
        assert(bytes@.subrange(2, 8).drop_first() =~= bytes@.subrange(3, 8));
        assert(bytes@.subrange(3, 8).drop_first() =~= bytes@.subrange(4, 8));
        assert(bytes@.subrange(4, 8).drop_first() =~= bytes@.subrange(5, 8));
        assert(bytes@.subrange(5, 8).drop_first() =~= bytes@.subrange(6, 8));
        assert(bytes@.subrange(6, 8).drop_first() =~= bytes@.subrange(7, 8));
        assert(bytes@.subrange(7, 8).drop_first() =~= bytes@.subrange(8, 8));
    }
    (bytes[0] as u64) + (bytes[1] as u64) * 0x100 + (bytes[2] as u64) * 0x1_0000 + (bytes[3]
        as u64) * 0x100_0000 + (bytes[4] as u64) * 0x1_0000_0000 + (bytes[5] as u64)
        * 0x100_0000_0000 + (bytes[6] as u64) * 0x1_0000_0000_0000 + (bytes[7] as u64)
        * 0x100_0000_0000_0000
}

} // verus!
