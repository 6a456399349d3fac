//! Packet handles and the allocation helpers over a `Mempool`.
//!
//! A `Packet` stands for exactly one checked-out pool entry, exposed as a
//! byte range of its logical length. Handles are not clonable: the only way
//! to duplicate one is `clone_pkt`, which draws a fresh entry and copies the
//! bytes, and the only way an entry returns to the pool is `free_pkt`, which
//! consumes the handle.

use std::collections::VecDeque;
use vstd::prelude::*;
use crate::mempool::{Mempool, MempoolModel, eq_except_free};

verus! {

/// A handle to one checked-out entry of a `Mempool`.
pub struct Packet {
    addr_virt: usize,
    addr_phys: usize,
    len: usize,
    pool_id: usize,
    pool_entry: usize,
}

/// Mathematical model of a `Packet`.
pub struct PacketModel {
    /// Virtual address of the packet's first byte.
    pub virt: int,
    /// Device-visible address of the packet's first byte.
    pub phys: int,
    /// Logical length in bytes, at most the pool's entry size.
    pub len: int,
    /// Identity of the owning pool: that pool's base address.
    pub pool_id: int,
    /// Index of the entry this handle has checked out.
    pub entry: int,
}

impl View for Packet {
    type V = PacketModel;

    closed spec fn view(&self) -> PacketModel {
        PacketModel {
            virt: self.addr_virt as int,
            phys: self.addr_phys as int,
            len: self.len as int,
            pool_id: self.pool_id as int,
            entry: self.pool_entry as int,
        }
    }
}

impl PacketModel {
    /// The handle is consistent with pool model `m`: it names one in-range
    /// entry, its logical length fits the entry, and its addresses are that
    /// entry's.
    pub open spec fn wf_for(self, m: MempoolModel) -> bool {
        &&& 0 <= self.entry < m.num_entries
        &&& 0 <= self.len <= m.entry_size
        &&& self.virt == m.base_addr + self.entry * m.entry_size
        &&& self.phys == m.phys[self.entry]
        &&& self.pool_id == m.base_addr
    }
}

impl Packet {
    /// Virtual address of the packet's bytes.
    pub fn get_virt_addr(&self) -> (r: usize)
        ensures
            r == self@.virt,
    {
        self.addr_virt
    }

    /// Device-visible address of the packet's bytes.
    pub fn get_phys_addr(&self) -> (r: usize)
        ensures
            r == self@.phys,
    {
        self.addr_phys
    }

    /// Identity of the owning pool: the pool's base address.
    pub fn get_pool(&self) -> (r: usize)
        ensures
            r == self@.pool_id,
    {
        self.pool_id
    }

    /// Logical length of the packet's byte range.
    pub fn len(&self) -> (r: usize)
        ensures
            r == self@.len,
    {
        self.len
    }

    /// Index of the pool entry this handle has checked out.
    pub fn get_pool_entry(&self) -> (r: usize)
        ensures
            r == self@.entry,
    {
        self.pool_entry
    }
}

/// Temporal-locality levels of the cache-prefetch hint a packet's bytes may
/// be prefetched with, in decreasing cache-residency priority. The hint is
/// performance-only; issuing the platform instruction is the embedding
/// program's business.
#[derive(Clone, Copy, PartialEq, Eq, PartialOrd, Ord, Debug)]
pub enum Prefetch {
    /// Prefetch into every cache level.
    Time0,
    /// Prefetch into the second cache level and below.
    Time1,
    /// Prefetch into the third cache level and below.
    Time2,
    /// Prefetch minimizing cache pollution (non-temporal).
    NonTemporal,
}

/// Checks one entry out of `pool` and wraps it as a `Packet` of logical
/// length `size`. Returns `None` — leaving the pool exactly as it was, with
/// no free entry consumed — precisely when `size` exceeds the pool's entry
/// size or no entry is free.
pub fn alloc_pkt(pool: &mut Mempool, size: usize) -> (r: Option<Packet>)
    requires
        old(pool)@.wf(),
    ensures
        final(pool)@.wf(),
        match r {
            Some(p) => {
                &&& size <= old(pool)@.entry_size
                &&& old(pool)@.free.len() > 0
                &&& p@.wf_for(final(pool)@)
                &&& p@.entry == old(pool)@.free.last()
                &&& p@.len == size
                &&& eq_except_free(old(pool)@, final(pool)@)
                &&& final(pool)@.free == old(pool)@.free.drop_last()
                &&& !final(pool)@.free.contains(p@.entry)
            },
            None => {
                &&& (size > old(pool)@.entry_size || old(pool)@.free.len() == 0)
                &&& final(pool)@ == old(pool)@
            },
        },
{
    if size > pool.entry_size() {
        return None;
    }
    match pool.alloc_buf() {
        Some(entry) => {
            let addr_virt = pool.get_virt_addr(entry);
            let addr_phys = pool.get_phys_addr(entry);
            Some(
                Packet {
                    addr_virt,
                    addr_phys,
                    len: size,
                    pool_id: pool.base_addr(),
                    pool_entry: entry,
                },
            )
        },
        None => None,
    }
}

/// Returns a packet's entry to its pool's free list, consuming the handle.
/// This is the sole path by which an entry returns to the pool. The handle
/// must be live — its entry checked out of this very pool — which every
/// packet obtained from `alloc_pkt` on this pool is until released.
pub fn free_pkt(pool: &mut Mempool, p: Packet)
    requires
        old(pool)@.wf(),
        p@.wf_for(old(pool)@),
        !old(pool)@.free.contains(p@.entry),
    ensures
        final(pool)@.wf(),
        eq_except_free(old(pool)@, final(pool)@),
        final(pool)@.free == old(pool)@.free.push(p@.entry),
{
    pool.free_buf(p.pool_entry);
}

/// Copies out the packet's logical bytes: exactly `len` bytes starting at
/// its entry's base. Nothing past the logical length is reachable through
/// this view, even though the entry itself may be larger.
pub fn pkt_bytes(pool: &Mempool, p: &Packet) -> (r: Vec<u8>)
    requires
        pool@.wf(),
        p@.wf_for(pool@),
    ensures
        r@ == pool@.entry_bytes(p@.entry).subrange(0, p@.len),
{
    let mut r: Vec<u8> = Vec::new();
    let mut i: usize = 0;
    while i < p.len
        invariant
            pool@.wf(),
            p@.wf_for(pool@),
            i <= p@.len,
            r@.len() == i,
            forall|k: int| 0 <= k < i ==> r@[k] == pool@.entry_bytes(p@.entry)[k],
        decreases p@.len - i,
    {
        let b = pool.read_byte(p.pool_entry, i);
        r.push(b);
        i += 1;
    }
    proof {
        crate::mempool::lemma_entry_range(pool@, p@.entry);
        assert(r@ =~= pool@.entry_bytes(p@.entry).subrange(0, p@.len));
    }
    r
}

/// Writes one byte within the packet's logical range. Only that byte of the
/// packet's entry changes; every other entry of the pool is untouched.
pub fn pkt_write(pool: &mut Mempool, p: &Packet, offset: usize, value: u8)
    requires
        old(pool)@.wf(),
        p@.wf_for(old(pool)@),
        offset < p@.len,
    ensures
        final(pool)@.wf(),
        crate::mempool::eq_except_buf(old(pool)@, final(pool)@),
        final(pool)@.entry_bytes(p@.entry) == old(pool)@.entry_bytes(p@.entry).update(
            offset as int,
            value,
        ),
        forall|j: int|
            0 <= j < old(pool)@.num_entries && j != p@.entry ==> final(pool)@.entry_bytes(j) == old(
                pool,
            )@.entry_bytes(j),
{
    pool.write_byte(p.pool_entry, offset, value);
}

/// Duplicates `p` from the same pool: checks out a fresh entry — duplication
/// has no partial-success mode, so a free entry is required — and byte-copies
/// the original's logical content into it. The duplicate never aliases the
/// original's entry, and the original's bytes are left untouched.
pub fn clone_pkt(pool: &mut Mempool, p: &Packet) -> (r: Packet)
    requires
        old(pool)@.wf(),
        p@.wf_for(old(pool)@),
        !old(pool)@.free.contains(p@.entry),
        old(pool)@.free.len() > 0,
    ensures
        final(pool)@.wf(),
        r@.wf_for(final(pool)@),
        r@.len == p@.len,
        r@.entry == old(pool)@.free.last(),
        r@.entry != p@.entry,
        !final(pool)@.free.contains(r@.entry),
        !final(pool)@.free.contains(p@.entry),
        final(pool)@.base_addr == old(pool)@.base_addr,
        final(pool)@.num_entries == old(pool)@.num_entries,
        final(pool)@.entry_size == old(pool)@.entry_size,
        final(pool)@.phys == old(pool)@.phys,
        final(pool)@.free == old(pool)@.free.drop_last(),
        final(pool)@.entry_bytes(r@.entry).subrange(0, p@.len) == old(pool)@.entry_bytes(
            p@.entry,
        ).subrange(0, p@.len),
        final(pool)@.entry_bytes(p@.entry) == old(pool)@.entry_bytes(p@.entry),
        forall|j: int|
            0 <= j < old(pool)@.num_entries && j != r@.entry ==> final(pool)@.entry_bytes(j) == old(
                pool,
            )@.entry_bytes(j),
{
    let ghost pre = old(pool)@;
    let dup_opt = alloc_pkt(pool, p.len);
    let dup = dup_opt.unwrap();
    proof {
        assert(pre.free.contains(pre.free.last()));
    }
    let mut i: usize = 0;
    while i < p.len
        invariant
            pre == old(pool)@,
            pre.wf(),
            pre.free.len() > 0,
            pool@.wf(),
            i <= p@.len,
            p@.wf_for(pool@),
            dup@.wf_for(pool@),
            dup@.len == p@.len,
            dup@.entry == pre.free.last(),
            dup@.entry != p@.entry,
            pool@.base_addr == pre.base_addr,
            pool@.num_entries == pre.num_entries,
            pool@.entry_size == pre.entry_size,
            pool@.phys == pre.phys,
            pool@.free == pre.free.drop_last(),
            pool@.entry_bytes(dup@.entry).subrange(0, i as int) == pre.entry_bytes(
                p@.entry,
            ).subrange(0, i as int),
            forall|j: int|
                0 <= j < pre.num_entries && j != dup@.entry ==> pool@.entry_bytes(j)
                    == pre.entry_bytes(j),
        decreases p@.len - i,
    {
        let ghost before = pool@;
        let b = pool.read_byte(p.pool_entry, i);
        proof {
            assert(before.entry_bytes(p@.entry) == pre.entry_bytes(p@.entry));
            assert(b == pre.entry_bytes(p@.entry)[i as int]);
        }
        pool.write_byte(dup.pool_entry, i, b);
        proof {
            crate::mempool::lemma_entry_range(pre, dup@.entry);
            crate::mempool::lemma_entry_range(pre, p@.entry);
            let lhs = pool@.entry_bytes(dup@.entry).subrange(0, i + 1);
            let rhs = pre.entry_bytes(p@.entry).subrange(0, i + 1);
            assert(pool@.entry_bytes(dup@.entry) == before.entry_bytes(dup@.entry).update(
                i as int,
                b,
            ));
            assert forall|k: int| 0 <= k < i + 1 implies lhs[k] == rhs[k] by {
                if k < i {
                    assert(before.entry_bytes(dup@.entry).subrange(0, i as int)[k]
                        == pre.entry_bytes(p@.entry).subrange(0, i as int)[k]);
                }
            }
            assert(lhs =~= rhs);
        }
        i += 1;
    }
    proof {
        assert(!pool@.free.contains(dup@.entry)) by {
            if pool@.free.contains(dup@.entry) {
                let k = choose|k: int|
                    0 <= k < pool@.free.len() && pool@.free[k] == dup@.entry;
                assert(pre.free[k] == pre.free[pre.free.len() - 1]);
            }
        }
        assert(!pool@.free.contains(p@.entry)) by {
            if pool@.free.contains(p@.entry) {
                let k = choose|k: int| 0 <= k < pool@.free.len() && pool@.free[k] == p@.entry;
                assert(pre.free[k] == p@.entry);
                assert(pre.free.contains(p@.entry));
            }
        }
    }
    dup
}

/// Fills `buffer` with up to `num_packets` packets of logical length
/// `packet_size` from `pool`, stopping early once the pool is exhausted, and
/// returns how many were appended: all `num_packets` when enough entries are
/// free, else exactly the number of free entries. Exhaustion is an expected
/// signal the caller handles, not an error.
pub fn alloc_pkt_batch(
    pool: &mut Mempool,
    buffer: &mut VecDeque<Packet>,
    num_packets: usize,
    packet_size: usize,
) -> (r: usize)
    requires
        old(pool)@.wf(),
    ensures
        final(pool)@.wf(),
        eq_except_free(old(pool)@, final(pool)@),
        r as int == if packet_size <= old(pool)@.entry_size {
            vstd::math::min(num_packets as int, old(pool)@.free.len() as int)
        } else {
            0
        },
        final(pool)@.free == old(pool)@.free.take(old(pool)@.free.len() - r),
        final(buffer)@.len() == old(buffer)@.len() + r,
        final(buffer)@.subrange(0, old(buffer)@.len() as int) == old(buffer)@,
        forall|k: int|
            0 <= k < r ==> {
                let p = #[trigger] final(buffer)@[old(buffer)@.len() + k];
                &&& p@.wf_for(final(pool)@)
                &&& p@.len == packet_size
                &&& p@.entry == old(pool)@.free[old(pool)@.free.len() - 1 - k]
            },
{
    let mut allocated: usize = 0;
    let mut exhausted = false;
    while allocated < num_packets && !exhausted
        invariant
            old(pool)@.wf(),
            pool@.wf(),
            eq_except_free(old(pool)@, pool@),
            allocated <= num_packets,
            allocated <= old(pool)@.free.len(),
            packet_size > old(pool)@.entry_size ==> allocated == 0,
            exhausted ==> (packet_size > old(pool)@.entry_size || pool@.free.len() == 0),
            pool@.free == old(pool)@.free.take(old(pool)@.free.len() - allocated),
            buffer@.len() == old(buffer)@.len() + allocated,
            buffer@.subrange(0, old(buffer)@.len() as int) == old(buffer)@,
            forall|k: int|
                0 <= k < allocated ==> {
                    let p = #[trigger] buffer@[old(buffer)@.len() + k];
                    &&& p@.wf_for(pool@)
                    &&& p@.len == packet_size
                    &&& p@.entry == old(pool)@.free[old(pool)@.free.len() - 1 - k]
                },
        decreases num_packets - allocated, (if exhausted { 0int } else { 1int }),
    {
        let ghost mid = pool@;
        let ghost buf_mid = buffer@;
        match alloc_pkt(pool, packet_size) {
            Some(p) => {
                proof {
                    assert(mid.free.len() > 0);
                    assert(mid.free.last() == old(pool)@.free[old(pool)@.free.len() - 1
                        - allocated]);
                    assert(pool@.free =~= old(pool)@.free.take(
                        old(pool)@.free.len() - (allocated + 1),
                    ));
                }
                buffer.push_back(p);
                allocated += 1;
                proof {
                    assert(buffer@.subrange(0, old(buffer)@.len() as int) =~= buf_mid.subrange(
                        0,
                        old(buffer)@.len() as int,
                    ));
                }
            },
            None => {
                exhausted = true;
            },
        }
    }
    proof {
        if packet_size <= old(pool)@.entry_size {
            if allocated < num_packets {
                assert(pool@.free.len() == 0);
                assert(allocated == old(pool)@.free.len());
            }
        }
        assert(final(buffer)@.subrange(0, old(buffer)@.len() as int) == old(buffer)@);
    }
    allocated
}

} // verus!
