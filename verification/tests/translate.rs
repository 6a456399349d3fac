use ixy_mem::translate::{
    pagemap_record_offset, phys_from_pagemap, u64_from_le_bytes, PAGEMAP_FRAME_MASK,
};

#[test]
fn record_offset_is_page_number_times_record_size() {
    assert_eq!(pagemap_record_offset(0, 4096), 0);
    assert_eq!(pagemap_record_offset(4095, 4096), 0);
    assert_eq!(pagemap_record_offset(4096, 4096), 8);
    assert_eq!(pagemap_record_offset(0x12345, 4096), (0x12345 / 4096) * 8);
}

#[test]
fn le_bytes_decode_is_little_endian() {
    assert_eq!(u64_from_le_bytes(&[1, 0, 0, 0, 0, 0, 0, 0]), 1);
    assert_eq!(u64_from_le_bytes(&[0, 0, 0, 0, 0, 0, 0, 0x80]), 0x8000_0000_0000_0000);
    assert_eq!(
        u64_from_le_bytes(&[0xef, 0xcd, 0xab, 0x89, 0x67, 0x45, 0x23, 0x01]),
        0x0123_4567_89ab_cdef
    );
}

#[test]
fn physical_address_masks_flag_bits() {
    // frame number 0x1234 with the present flag (bit 63) set
    let record: u64 = 0x1234 | (1 << 63);
    let addr: u64 = 7 * 4096 + 42;
    assert_eq!(phys_from_pagemap(record, addr, 4096), 0x1234 * 4096 + 42);
}

#[test]
fn frame_mask_keeps_low_55_bits() {
    assert_eq!(PAGEMAP_FRAME_MASK, (1u64 << 55) - 1);
    assert_eq!(u64::MAX & PAGEMAP_FRAME_MASK, PAGEMAP_FRAME_MASK);
}
