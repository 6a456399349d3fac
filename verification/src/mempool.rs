//! Fixed-entry packet-buffer pool.
//!
//! A `Mempool` partitions one DMA region into `num_entries` slots of
//! `entry_size` bytes, precomputes each slot's device-visible address, and
//! keeps a free list of available entry indices. At every instant the free
//! list and the set of indices held by live packet handles partition
//! `0 .. num_entries` exactly; `lemma_partition` and `lemma_no_double_issue`
//! state that discipline.

use vstd::prelude::*;
use vstd::arithmetic::mul::lemma_mul_inequality;
use vstd::set_lib::{set_int_range, lemma_int_range};
use crate::dma::{Dma, HUGE_PAGE_SIZE, VFIO_CONTAINER_UNSET};

verus! {

/// Entry size used when a pool is created with an entry size of zero.
pub const DEFAULT_ENTRY_SIZE: usize = 2048;

/// Mathematical model of a `Mempool`.
pub struct MempoolModel {
    /// Virtual base address of the pool's region; also the pool's identity.
    pub base_addr: int,
    /// Number of fixed-size entries.
    pub num_entries: int,
    /// Byte capacity of each entry.
    pub entry_size: int,
    /// Device-visible address of each entry, by index.
    pub phys: Seq<int>,
    /// Free entry indices, top of the stack last.
    pub free: Seq<int>,
    /// The bytes of the whole region, entry after entry.
    pub buf: Seq<u8>,
}

impl MempoolModel {
    /// Well-formedness: the catalog is consistent and the free list holds
    /// only in-range indices, each at most once.
    pub open spec fn wf(self) -> bool {
        &&& 0 < self.entry_size
        &&& 0 <= self.num_entries
        &&& self.phys.len() == self.num_entries
        &&& self.buf.len() == self.num_entries * self.entry_size
        &&& self.free.no_duplicates()
        &&& (forall|k: int|
            0 <= k < self.free.len() ==> 0 <= #[trigger] self.free[k] < self.num_entries)
        &&& self.base_addr + self.num_entries * self.entry_size <= usize::MAX
    }

    /// The set of entry indices currently in the free list.
    pub open spec fn free_index_set(self) -> Set<int> {
        self.free.to_set()
    }

    /// The set of entry indices currently held by live packet handles:
    /// exactly the in-range indices that are not free.
    pub open spec fn live_index_set(self) -> Set<int> {
        set_int_range(0, self.num_entries).difference(self.free_index_set())
    }

    /// The bytes of entry `i`.
    pub open spec fn entry_bytes(self, i: int) -> Seq<u8> {
        self.buf.subrange(i * self.entry_size, (i + 1) * self.entry_size)
    }
}

/// The two models agree on everything except the free list.
pub open spec fn eq_except_free(pre: MempoolModel, post: MempoolModel) -> bool {
    &&& post.base_addr == pre.base_addr
    &&& post.num_entries == pre.num_entries
    &&& post.entry_size == pre.entry_size
    &&& post.phys == pre.phys
    &&& post.buf == pre.buf
}

/// The two models agree on everything except the region's bytes.
pub open spec fn eq_except_buf(pre: MempoolModel, post: MempoolModel) -> bool {
    &&& post.base_addr == pre.base_addr
    &&& post.num_entries == pre.num_entries
    &&& post.entry_size == pre.entry_size
    &&& post.phys == pre.phys
    &&& post.free == pre.free
}

/// The entry size a pool created with `size` actually uses: zero selects the
/// default.
pub open spec fn spec_effective_entry_size(size: int) -> int {
    if size == 0 {
        DEFAULT_ENTRY_SIZE as int
    } else {
        size
    }
}

/// Executable counterpart of `spec_effective_entry_size`.
pub fn effective_entry_size(size: usize) -> (r: usize)
    ensures
        r == spec_effective_entry_size(size as int),
        0 < r,
{
    if size == 0 {
        DEFAULT_ENTRY_SIZE
    } else {
        size
    }
}

/// Whether `size` is acceptable as a pool entry size under the given IOMMU
/// container state: without an IOMMU the (defaulted) entry size must evenly
/// divide the huge-page size, or pool creation is a fatal configuration
/// error.
pub fn entry_size_valid(size: usize, vfio_container: i32) -> (r: bool)
    ensures
        r == (vfio_container != VFIO_CONTAINER_UNSET || HUGE_PAGE_SIZE as int
            % spec_effective_entry_size(size as int) == 0),
{
    vfio_container != VFIO_CONTAINER_UNSET || HUGE_PAGE_SIZE % effective_entry_size(size) == 0
}

/// A fixed catalog of `num_entries` buffer slots of `entry_size` bytes each,
/// carved out of one DMA region, with a free list of available indices.
pub struct Mempool {
    base_addr: usize,
    num_entries: usize,
    entry_size: usize,
    phys_addresses: Vec<usize>,
    free_stack: Vec<usize>,
    buf: Vec<u8>,
}

impl View for Mempool {
    type V = MempoolModel;

    closed spec fn view(&self) -> MempoolModel {
        MempoolModel {
            base_addr: self.base_addr as int,
            num_entries: self.num_entries as int,
            entry_size: self.entry_size as int,
            phys: self.phys_addresses@.map_values(|a: usize| a as int),
            free: self.free_stack@.map_values(|i: usize| i as int),
            buf: self.buf@,
        }
    }
}

/// Overwrites every byte of `buf` with `value`. The pool's creation-time
/// zero fill goes through here; the embedding program mirrors it with
/// non-elidable writes on the mapped region, since that memory is observed
/// by hardware.
fn memset(buf: &mut Vec<u8>, value: u8)
    ensures
        final(buf)@ == Seq::new(old(buf)@.len(), |i: int| value),
{
    let mut i: usize = 0;
    while i < buf.len()
        invariant
            i <= buf@.len(),
            buf@.len() == old(buf)@.len(),
            forall|k: int| 0 <= k < i ==> buf@[k] == value,
        decreases buf@.len() - i,
    {
        buf[i] = value;
        i += 1;
    }
    proof {
        assert(buf@ =~= Seq::new(old(buf)@.len(), |i: int| value));
    }
}

impl Mempool {
    /// Partitions `region` into `entries` slots of (defaulted) entry size
    /// `size`, zero-fills the whole region, precomputes every entry's
    /// device-visible address, and fills the free list with every index in
    /// ascending order.
    ///
    /// The embedding program has already mapped `region` (sized to at least
    /// `entries` entries) and, when no IOMMU container is set, resolved each
    /// entry's physical address through the address translator into
    /// `resolved_phys`; under an IOMMU the region is one contiguous I/O
    /// range, so the table is the flat offsets from the region's address.
    /// An entry size that does not divide the huge-page size in the no-IOMMU
    /// path is a fatal configuration error and is excluded here; callers
    /// test it with `entry_size_valid`.
    pub fn allocate(
        entries: usize,
        size: usize,
        region: Dma,
        vfio_container: i32,
        resolved_phys: Vec<usize>,
    ) -> (r: Mempool)
        requires
            region.wf(),
            entries * spec_effective_entry_size(size as int) <= region.size,
            vfio_container == VFIO_CONTAINER_UNSET ==> HUGE_PAGE_SIZE as int
                % spec_effective_entry_size(size as int) == 0,
            vfio_container == VFIO_CONTAINER_UNSET ==> resolved_phys@.len() == entries,
        ensures
            r@.wf(),
            r@.base_addr == region.virt,
            r@.num_entries == entries,
            r@.entry_size == spec_effective_entry_size(size as int),
            r@.free == Seq::new(entries as nat, |i: int| i),
            r@.buf == Seq::new((entries * spec_effective_entry_size(size as int)) as nat, |i: int| 0u8),
            vfio_container != VFIO_CONTAINER_UNSET ==> forall|i: int|
                0 <= i < entries ==> r@.phys[i] == region.phys + i * r@.entry_size,
            vfio_container == VFIO_CONTAINER_UNSET ==> r@.phys == resolved_phys@.map_values(
                |a: usize| a as int,
            ),
    {
        let entry_size = effective_entry_size(size);
        let total = entries * entry_size;
        let mut phys_addresses: Vec<usize> = Vec::new();
        if vfio_container != VFIO_CONTAINER_UNSET {
            let mut i: usize = 0;
            while i < entries
                invariant
                    i <= entries,
                    region.wf(),
                    0 < entry_size,
                    entries * entry_size <= region.size,
                    phys_addresses@.len() == i,
                    forall|k: int|
                        0 <= k < i ==> #[trigger] phys_addresses@[k] == region.phys + k
                            * entry_size,
                decreases entries - i,
            {
                proof {
                    lemma_mul_inequality(i + 1, entries as int, entry_size as int);
                    assert((i + 1) * entry_size == i * entry_size + entry_size) by (nonlinear_arith);
                }
                phys_addresses.push(region.phys + i * entry_size);
                i += 1;
            }
        } else {
            phys_addresses = resolved_phys;
        }
        let mut buf: Vec<u8> = vec![0u8; total];
        memset(&mut buf, 0x00);
        let mut free_stack: Vec<usize> = Vec::new();
        let mut i: usize = 0;
        while i < entries
            invariant
                i <= entries,
                free_stack@.len() == i,
                forall|k: int| 0 <= k < i ==> #[trigger] free_stack@[k] == k as usize,
            decreases entries - i,
        {
            free_stack.push(i);
            i += 1;
        }
        let pool = Mempool {
            base_addr: region.virt,
            num_entries: entries,
            entry_size,
            phys_addresses,
            free_stack,
            buf,
        };
        proof {
            assert(pool@.free =~= Seq::new(entries as nat, |i: int| i));
            assert(pool@.buf =~= Seq::new(
                (entries * spec_effective_entry_size(size as int)) as nat,
                |i: int| 0u8,
            ));
            assert(pool@.free.no_duplicates());
            if vfio_container == VFIO_CONTAINER_UNSET {
                assert(pool@.phys =~= resolved_phys@.map_values(|a: usize| a as int));
            }
        }
        pool
    }

    /// Number of entries the pool was created with.
    pub fn num_entries(&self) -> (r: usize)
        ensures
            r == self@.num_entries,
    {
        self.num_entries
    }

    /// Byte capacity of each entry.
    pub fn entry_size(&self) -> (r: usize)
        ensures
            r == self@.entry_size,
    {
        self.entry_size
    }

    /// Virtual base address of the pool's region; doubles as the pool's
    /// identity.
    pub fn base_addr(&self) -> (r: usize)
        ensures
            r == self@.base_addr,
    {
        self.base_addr
    }

    /// How many entries are currently free.
    pub fn free_count(&self) -> (r: usize)
        ensures
            r == self@.free.len(),
    {
        self.free_stack.len()
    }

    /// Whether entry index `id` is currently in the free list. Callers that
    /// cannot otherwise track ownership test this before releasing an index.
    pub fn is_free(&self, id: usize) -> (r: bool)
        ensures
            r == self@.free.contains(id as int),
    {
        let mut i: usize = 0;
        let mut found = false;
        while i < self.free_stack.len()
            invariant
                i <= self@.free.len(),
                found == exists|k: int| 0 <= k < i && #[trigger] self@.free[k] == id as int,
            decreases self@.free.len() - i,
        {
            if self.free_stack[i] == id {
                found = true;
                proof {
                    assert(self@.free[i as int] == id as int);
                }
            } else {
                proof {
                    assert(self@.free[i as int] != id as int);
                }
            }
            i += 1;
        }
        found
    }

    /// Checks one entry index out of the free list, or returns `None` when
    /// the pool is exhausted — an expected condition, not an error.
    pub fn alloc_buf(&mut self) -> (r: Option<usize>)
        requires
            old(self)@.wf(),
        ensures
            final(self)@.wf(),
            eq_except_free(old(self)@, final(self)@),
            match r {
                Some(i) => {
                    &&& old(self)@.free.len() > 0
                    &&& i as int == old(self)@.free.last()
                    &&& i < old(self)@.num_entries
                    &&& final(self)@.free == old(self)@.free.drop_last()
                    &&& !final(self)@.free.contains(i as int)
                },
                None => {
                    &&& old(self)@.free.len() == 0
                    &&& final(self)@ == old(self)@
                },
            },
    {
        let r = self.free_stack.pop();
        proof {
            if old(self).free_stack@.len() > 0 {
                assert(self@.free =~= old(self)@.free.drop_last());
                assert(old(self)@.free.last() == old(self).free_stack@[old(
                    self,
                ).free_stack@.len() - 1] as int);
                // the checked-out index left the free list: the list had no
                // duplicates, so its former last element occurs nowhere else
                assert(!self@.free.contains(old(self)@.free.last())) by {
                    if self@.free.contains(old(self)@.free.last()) {
                        let k = choose|k: int|
                            0 <= k < self@.free.len() && self@.free[k] == old(self)@.free.last();
                        assert(old(self)@.free[k] == old(self)@.free[old(self)@.free.len() - 1]);
                    }
                }
            } else {
                assert(self@ == old(self)@);
            }
        }
        r
    }

    /// Returns entry index `id` to the free list. The caller must hold `id`
    /// checked out: releasing an index that is currently free breaks the
    /// pool's ownership discipline and is excluded here.
    pub fn free_buf(&mut self, id: usize)
        requires
            old(self)@.wf(),
            id < old(self)@.num_entries,
            !old(self)@.free.contains(id as int),
        ensures
            final(self)@.wf(),
            eq_except_free(old(self)@, final(self)@),
            final(self)@.free == old(self)@.free.push(id as int),
    {
        self.free_stack.push(id);
        proof {
            assert(self@.free =~= old(self)@.free.push(id as int));
            assert forall|a: int, b: int|
                0 <= a < self@.free.len() && 0 <= b < self@.free.len() && a != b implies self@.free[a]
                != self@.free[b] by {
                if a < self@.free.len() - 1 && b < self@.free.len() - 1 {
                } else if a == self@.free.len() - 1 {
                    assert(old(self)@.free[b] != id as int) by {
                        assert(!old(self)@.free.contains(id as int));
                    }
                } else {
                    assert(!old(self)@.free.contains(id as int));
                }
            }
        }
    }

    /// Virtual address of entry `id`: the pool base plus the entry's offset.
    pub fn get_virt_addr(&self, id: usize) -> (r: usize)
        requires
            self@.wf(),
            id < self@.num_entries,
        ensures
            r == self@.base_addr + id as int * self@.entry_size,
    {
        proof {
            lemma_mul_inequality(id as int, self@.num_entries, self@.entry_size);
        }
        self.base_addr + id * self.entry_size
    }

    /// Device-visible address of entry `id`, from the precomputed table.
    pub fn get_phys_addr(&self, id: usize) -> (r: usize)
        requires
            self@.wf(),
            id < self@.num_entries,
        ensures
            r == self@.phys[id as int],
    {
        self.phys_addresses[id]
    }

    /// Reads the byte at `offset` within entry `entry`.
    pub fn read_byte(&self, entry: usize, offset: usize) -> (r: u8)
        requires
            self@.wf(),
            entry < self@.num_entries,
            offset < self@.entry_size,
        ensures
            r == self@.entry_bytes(entry as int)[offset as int],
    {
        proof {
            lemma_entry_range(self@, entry as int);
        }
        self.buf[entry * self.entry_size + offset]
    }

    /// Writes `value` at `offset` within entry `entry`. No byte outside that
    /// entry changes: every other entry's bytes are exactly as before.
    pub fn write_byte(&mut self, entry: usize, offset: usize, value: u8)
        requires
            old(self)@.wf(),
            entry < old(self)@.num_entries,
            offset < old(self)@.entry_size,
        ensures
            final(self)@.wf(),
            eq_except_buf(old(self)@, final(self)@),
            final(self)@.buf == old(self)@.buf.update(
                entry as int * old(self)@.entry_size + offset as int,
                value,
            ),
            final(self)@.entry_bytes(entry as int) == old(self)@.entry_bytes(entry as int).update(
                offset as int,
                value,
            ),
            forall|j: int|
                0 <= j < old(self)@.num_entries && j != entry ==> final(self)@.entry_bytes(j) == old(
                    self,
                )@.entry_bytes(j),
    {
        proof {
            lemma_entry_range(self@, entry as int);
        }
        self.buf[entry * self.entry_size + offset] = value;
        proof {
            let m = old(self)@;
            let es = m.entry_size;
            let pos = entry as int * es + offset as int;
            assert(final(self)@.entry_bytes(entry as int) =~= m.entry_bytes(entry as int).update(
                offset as int,
                value,
            ));
            assert forall|j: int|
                0 <= j < m.num_entries && j != entry implies final(self)@.entry_bytes(j)
                == m.entry_bytes(j) by {
                lemma_entry_update_independent(m, entry as int, offset as int, value, j);
            }
        }
    }
}

/// Entry `i` occupies `buf[i*entry_size .. (i+1)*entry_size]`, which lies
/// within the region.
pub proof fn lemma_entry_range(m: MempoolModel, i: int)
    requires
        m.wf(),
        0 <= i < m.num_entries,
    ensures
        0 <= i * m.entry_size,
        (i + 1) * m.entry_size <= m.buf.len(),
        i * m.entry_size + m.entry_size == (i + 1) * m.entry_size,
{
    lemma_mul_inequality(i + 1, m.num_entries, m.entry_size);
    assert(i * m.entry_size >= 0) by (nonlinear_arith)
        requires
            i >= 0,
            m.entry_size >= 0,
    ;
    assert(i * m.entry_size + m.entry_size == (i + 1) * m.entry_size) by (nonlinear_arith);
}

/// Entries do not overlap: updating one byte of entry `j` leaves the bytes
/// of every other entry `i` exactly as they were.
pub proof fn lemma_entry_update_independent(m: MempoolModel, j: int, off: int, v: u8, i: int)
    requires
        m.wf(),
        0 <= j < m.num_entries,
        0 <= off < m.entry_size,
        0 <= i < m.num_entries,
        i != j,
    ensures
        m.buf.update(j * m.entry_size + off, v).subrange(i * m.entry_size, (i + 1) * m.entry_size)
            == m.entry_bytes(i),
{
    let es = m.entry_size;
    let pos = j * es + off;
    lemma_entry_range(m, i);
    lemma_entry_range(m, j);
    if j < i {
        assert((j + 1) * es <= i * es) by {
            lemma_mul_inequality(j + 1, i, es);
        }
        assert(pos < i * es);
    } else {
        assert((i + 1) * es <= j * es) by {
            lemma_mul_inequality(i + 1, j, es);
        }
        assert(pos >= (i + 1) * es);
    }
    assert(m.buf.update(pos, v).subrange(i * es, (i + 1) * es) =~= m.entry_bytes(i));
}

/// Zero initialization: in a pool whose region bytes are all zero — as
/// `Mempool::allocate` leaves them — every byte of every entry reads zero.
pub proof fn lemma_zero_initialized(m: MempoolModel, i: int, k: int)
    requires
        m.wf(),
        forall|j: int| 0 <= j < m.buf.len() ==> m.buf[j] == 0u8,
        0 <= i < m.num_entries,
        0 <= k < m.entry_size,
    ensures
        m.entry_bytes(i)[k] == 0u8,
{
    lemma_entry_range(m, i);
}

/// Partition invariant: the free indices and the indices held by live
/// handles are disjoint and together cover `0 .. num_entries` exactly; their
/// cardinalities sum to `num_entries`.
pub proof fn lemma_partition(m: MempoolModel)
    requires
        m.wf(),
    ensures
        m.free_index_set().disjoint(m.live_index_set()),
        m.free_index_set().union(m.live_index_set()) == set_int_range(0, m.num_entries),
        m.free_index_set().len() == m.free.len(),
        m.free_index_set().len() + m.live_index_set().len() == m.num_entries,
{
    let all = set_int_range(0, m.num_entries);
    let fs = m.free_index_set();
    let ls = m.live_index_set();
    m.free.unique_seq_to_set();
    lemma_int_range(0, m.num_entries);
    assert forall|x: int| fs.contains(x) implies all.contains(x) by {
        let k = choose|k: int| 0 <= k < m.free.len() && m.free[k] == x;
        assert(0 <= m.free[k] < m.num_entries);
    }
    assert(fs.union(ls) =~= all);
    assert(fs.disjoint(ls));
    assert(ls.finite()) by {
        vstd::set_lib::lemma_len_difference(all, fs);
    }
    lemma_len_disjoint_union(fs, ls);
}

/// The cardinality of a union of two disjoint finite sets is the sum of
/// their cardinalities.
proof fn lemma_len_disjoint_union<A>(s1: Set<A>, s2: Set<A>)
    requires
        s1.finite(),
        s2.finite(),
        s1.disjoint(s2),
    ensures
        s1.union(s2).len() == s1.len() + s2.len(),
    decreases s1.len(),
{
    broadcast use vstd::set::group_set_axioms;

    if s1.is_empty() {
        assert(s1.union(s2) =~= s2);
        assert(s1 =~= Set::empty());
    } else {
        let a = s1.choose();
        assert(s1.contains(a));
        assert(s1.remove(a).disjoint(s2));
        lemma_len_disjoint_union(s1.remove(a), s2);
        assert(s1.union(s2).remove(a) =~= s1.remove(a).union(s2));
        assert(s1.union(s2).contains(a));
        assert(s1.union(s2).len() == s1.union(s2).remove(a).len() + 1);
    }
}

/// No double-issue: an index held by a live handle is absent from the free
/// list, so a checkout — which only ever returns the free list's top — can
/// never return it while the handle lives.
pub proof fn lemma_no_double_issue(m: MempoolModel, i: int)
    requires
        m.wf(),
        m.live_index_set().contains(i),
    ensures
        !m.free.contains(i),
        m.free.len() > 0 ==> m.free.last() != i,
{
    assert(!m.free_index_set().contains(i));
    if m.free.len() > 0 {
        assert(m.free.contains(m.free.last()));
    }
}

/// Release then checkout: returning a live entry to the free list puts it
/// there exactly once — the list stays duplicate-free — and the very next
/// checkout pops that same index.
pub proof fn lemma_release_then_checkout(m: MempoolModel, i: int)
    requires
        m.wf(),
        0 <= i < m.num_entries,
        !m.free.contains(i),
    ensures
        m.free.push(i).no_duplicates(),
        m.free.push(i).contains(i),
        m.free.push(i).last() == i,
{
    let pushed = m.free.push(i);
    assert forall|a: int, b: int|
        0 <= a < pushed.len() && 0 <= b < pushed.len() && a != b implies pushed[a] != pushed[b] by {
        if a == pushed.len() - 1 {
            assert(!m.free.contains(i));
        } else if b == pushed.len() - 1 {
            assert(!m.free.contains(i));
        }
    }
    assert(pushed[pushed.len() - 1] == i);
}

} // verus!
