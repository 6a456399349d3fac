use std::collections::VecDeque;

use ixy_mem::dma::{
    round_to_huge_page, Dma, DmaError, DmaPath, HUGE_PAGE_SIZE, VFIO_CONTAINER_UNSET,
};
use ixy_mem::mempool::{entry_size_valid, Mempool, DEFAULT_ENTRY_SIZE};
use ixy_mem::packet::{alloc_pkt, alloc_pkt_batch, clone_pkt, free_pkt, pkt_bytes, pkt_write};

fn test_pool(entries: usize, entry_size: usize) -> Mempool {
    let region = Dma {
        virt: 0x10_0000,
        phys: 0x77_0000,
        size: round_to_huge_page(entries * entry_size),
    };
    let resolved: Vec<usize> = (0..entries).map(|i| 0x9000_0000 + i * 0x1000).collect();
    Mempool::allocate(entries, entry_size, region, VFIO_CONTAINER_UNSET, resolved)
}

#[test]
fn rounding_one_byte_yields_one_huge_page() {
    assert_eq!(round_to_huge_page(1), HUGE_PAGE_SIZE);
}

#[test]
fn rounding_exact_multiple_is_kept() {
    assert_eq!(round_to_huge_page(HUGE_PAGE_SIZE), HUGE_PAGE_SIZE);
    assert_eq!(round_to_huge_page(0), 0);
}

#[test]
fn rounding_one_past_multiple_takes_next() {
    assert_eq!(round_to_huge_page(HUGE_PAGE_SIZE + 1), 2 * HUGE_PAGE_SIZE);
}

#[test]
fn entry_size_3000_rejected_without_iommu() {
    assert!(!entry_size_valid(3000, VFIO_CONTAINER_UNSET));
}

#[test]
fn entry_size_512_accepted_without_iommu() {
    assert!(entry_size_valid(512, VFIO_CONTAINER_UNSET));
}

#[test]
fn entry_size_unchecked_under_iommu() {
    assert!(entry_size_valid(3000, 5));
}

#[test]
fn entry_size_zero_defaults() {
    assert!(entry_size_valid(0, VFIO_CONTAINER_UNSET));
    let pool = test_pool(2, 0);
    assert_eq!(pool.entry_size(), DEFAULT_ENTRY_SIZE);
}

#[test]
fn plan_contiguous_without_iommu_fails_past_one_huge_page() {
    let r = Dma::plan_allocate(HUGE_PAGE_SIZE + 1, true, VFIO_CONTAINER_UNSET);
    assert_eq!(r.unwrap_err(), DmaError::ContiguityUnavailable);
}

#[test]
fn plan_contiguous_within_one_huge_page_succeeds() {
    let plan = Dma::plan_allocate(HUGE_PAGE_SIZE, true, VFIO_CONTAINER_UNSET).unwrap();
    assert_eq!(plan.size, HUGE_PAGE_SIZE);
    assert_eq!(plan.path, DmaPath::HugetlbFile);
}

#[test]
fn plan_with_iommu_is_never_contiguity_limited() {
    let plan = Dma::plan_allocate(5 * HUGE_PAGE_SIZE + 7, true, 3).unwrap();
    assert_eq!(plan.size, 6 * HUGE_PAGE_SIZE);
    assert_eq!(plan.path, DmaPath::Iommu);
}

#[test]
fn fresh_pool_has_every_entry_free_and_zeroed() {
    let pool = test_pool(4, 512);
    assert_eq!(pool.num_entries(), 4);
    assert_eq!(pool.entry_size(), 512);
    assert_eq!(pool.free_count(), 4);
    for entry in 0..4 {
        for offset in 0..512 {
            assert_eq!(pool.read_byte(entry, offset), 0x00);
        }
    }
}

#[test]
fn entry_addresses_follow_the_tables() {
    let pool = test_pool(3, 1024);
    assert_eq!(pool.get_virt_addr(0), 0x10_0000);
    assert_eq!(pool.get_virt_addr(2), 0x10_0000 + 2 * 1024);
    assert_eq!(pool.get_phys_addr(1), 0x9000_1000);
}

#[test]
fn iommu_pool_uses_flat_device_addresses() {
    let region = Dma { virt: 0x10_0000, phys: 0x4400_0000, size: HUGE_PAGE_SIZE };
    let pool = Mempool::allocate(4, 2048, region, 7, Vec::new());
    assert_eq!(pool.get_phys_addr(0), 0x4400_0000);
    assert_eq!(pool.get_phys_addr(3), 0x4400_0000 + 3 * 2048);
}

#[test]
fn checkout_pops_descending_and_release_returns() {
    let mut pool = test_pool(3, 512);
    assert_eq!(pool.alloc_buf(), Some(2));
    assert_eq!(pool.alloc_buf(), Some(1));
    assert_eq!(pool.free_count(), 1);
    pool.free_buf(1);
    assert_eq!(pool.free_count(), 2);
    // the released index is the next one checked out
    assert_eq!(pool.alloc_buf(), Some(1));
}

#[test]
fn checkout_never_returns_a_held_index() {
    let mut pool = test_pool(4, 512);
    let mut held = Vec::new();
    while let Some(i) = pool.alloc_buf() {
        assert!(!held.contains(&i));
        held.push(i);
    }
    assert_eq!(held.len(), 4);
    assert_eq!(pool.free_count(), 0);
}

#[test]
fn free_and_held_partition_the_pool() {
    let mut pool = test_pool(5, 512);
    let mut live = 0;
    for _ in 0..3 {
        assert!(pool.alloc_buf().is_some());
        live += 1;
    }
    assert_eq!(pool.free_count() + live, 5);
    pool.free_buf(4);
    live -= 1;
    assert_eq!(pool.free_count() + live, 5);
}

#[test]
fn alloc_pkt_wraps_the_top_entry() {
    let mut pool = test_pool(4, 512);
    let p = alloc_pkt(&mut pool, 60).unwrap();
    assert_eq!(p.get_pool_entry(), 3);
    assert_eq!(p.len(), 60);
    assert_eq!(p.get_virt_addr(), 0x10_0000 + 3 * 512);
    assert_eq!(p.get_phys_addr(), 0x9000_0000 + 3 * 0x1000);
    assert_eq!(p.get_pool(), pool.base_addr());
    assert_eq!(pool.free_count(), 3);
}

#[test]
fn oversized_request_returns_none_and_consumes_nothing() {
    let mut pool = test_pool(4, 512);
    let before = pool.free_count();
    assert!(alloc_pkt(&mut pool, 513).is_none());
    assert_eq!(pool.free_count(), before);
}

#[test]
fn exhausted_pool_returns_none() {
    let mut pool = test_pool(1, 512);
    let p = alloc_pkt(&mut pool, 512).unwrap();
    assert!(alloc_pkt(&mut pool, 512).is_none());
    free_pkt(&mut pool, p);
    assert!(alloc_pkt(&mut pool, 512).is_some());
}

#[test]
fn batch_is_exhaustion_aware() {
    let mut pool = test_pool(8, 512);
    let mut q: VecDeque<_> = VecDeque::new();
    // drain down to exactly 3 free entries
    let mut held = Vec::new();
    for _ in 0..5 {
        held.push(alloc_pkt(&mut pool, 128).unwrap());
    }
    assert_eq!(pool.free_count(), 3);
    let got = alloc_pkt_batch(&mut pool, &mut q, 7, 128);
    assert_eq!(got, 3);
    assert_eq!(q.len(), 3);
    assert_eq!(pool.free_count(), 0);
}

#[test]
fn batch_stops_at_the_requested_count() {
    let mut pool = test_pool(8, 512);
    let mut q: VecDeque<_> = VecDeque::new();
    let got = alloc_pkt_batch(&mut pool, &mut q, 3, 128);
    assert_eq!(got, 3);
    assert_eq!(pool.free_count(), 5);
    for p in &q {
        assert_eq!(p.len(), 128);
    }
}

#[test]
fn batch_with_oversized_packets_allocates_nothing() {
    let mut pool = test_pool(8, 512);
    let mut q: VecDeque<_> = VecDeque::new();
    let got = alloc_pkt_batch(&mut pool, &mut q, 3, 4096);
    assert_eq!(got, 0);
    assert!(q.is_empty());
    assert_eq!(pool.free_count(), 8);
}

#[test]
fn duplicate_copies_bytes_into_a_fresh_entry() {
    let mut pool = test_pool(4, 512);
    let p = alloc_pkt(&mut pool, 4).unwrap();
    pkt_write(&mut pool, &p, 0, 0xde);
    pkt_write(&mut pool, &p, 1, 0xad);
    pkt_write(&mut pool, &p, 2, 0xbe);
    pkt_write(&mut pool, &p, 3, 0xef);
    let d = clone_pkt(&mut pool, &p);
    assert_ne!(d.get_pool_entry(), p.get_pool_entry());
    assert_eq!(pkt_bytes(&pool, &d), vec![0xde, 0xad, 0xbe, 0xef]);
    // mutating the duplicate leaves the original untouched
    pkt_write(&mut pool, &d, 0, 0x00);
    assert_eq!(pkt_bytes(&pool, &p), vec![0xde, 0xad, 0xbe, 0xef]);
}

#[test]
fn released_entry_reappears_exactly_once() {
    let mut pool = test_pool(2, 512);
    let p = alloc_pkt(&mut pool, 8).unwrap();
    let entry = p.get_pool_entry();
    let before = pool.free_count();
    free_pkt(&mut pool, p);
    assert_eq!(pool.free_count(), before + 1);
    // the same index can be checked out again
    let q = alloc_pkt(&mut pool, 8).unwrap();
    assert_eq!(q.get_pool_entry(), entry);
}

#[test]
fn empty_pool_has_nothing_to_give() {
    let region = Dma { virt: 0x10_0000, phys: 0x77_0000, size: 0 };
    let mut pool = Mempool::allocate(0, 512, region, VFIO_CONTAINER_UNSET, Vec::new());
    assert_eq!(pool.num_entries(), 0);
    assert_eq!(pool.free_count(), 0);
    assert!(alloc_pkt(&mut pool, 1).is_none());
}

#[test]
fn entry_size_of_a_whole_huge_page_is_accepted() {
    assert!(entry_size_valid(HUGE_PAGE_SIZE, VFIO_CONTAINER_UNSET));
    let region = Dma { virt: 0x20_0000, phys: 0x40_0000, size: HUGE_PAGE_SIZE };
    let mut pool =
        Mempool::allocate(1, HUGE_PAGE_SIZE, region, VFIO_CONTAINER_UNSET, vec![0x9000_0000]);
    let p = alloc_pkt(&mut pool, HUGE_PAGE_SIZE).unwrap();
    assert_eq!(p.len(), HUGE_PAGE_SIZE);
    assert_eq!(pool.free_count(), 0);
}

#[test]
fn packet_view_is_bounded_by_its_length() {
    let mut pool = test_pool(2, 512);
    let p = alloc_pkt(&mut pool, 3).unwrap();
    assert_eq!(pkt_bytes(&pool, &p).len(), 3);
}
