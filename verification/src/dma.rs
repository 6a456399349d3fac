//! Huge-page DMA region model.
//!
//! A `Dma` value records a region of locked, huge-page-backed memory by its
//! virtual base address, its device-visible (physical or IOMMU I/O-virtual)
//! base address, and its byte length. The mapping itself is performed by the
//! embedding program; this module holds the verified planning logic: size
//! rounding, allocation-strategy selection, and the page-table-record
//! arithmetic of the address translator.

use vstd::prelude::*;
use vstd::arithmetic::div_mod::{lemma_fundamental_div_mod, lemma_mod_multiples_basic};

verus! {

/// Size in bytes of one huge page on the reference platform (2 MiB).
pub const HUGE_PAGE_SIZE: usize = 0x20_0000;

/// The smallest multiple of the huge-page size that is at least `size`.
pub open spec fn huge_page_multiple(size: int) -> int {
    if size % (HUGE_PAGE_SIZE as int) == 0 {
        size
    } else {
        (size / (HUGE_PAGE_SIZE as int) + 1) * (HUGE_PAGE_SIZE as int)
    }
}

/// `huge_page_multiple(size)` is a huge-page multiple, is at least `size`,
/// and exceeds `size` by less than one huge page.
pub proof fn lemma_huge_page_multiple_bounds(size: int)
    requires
        0 <= size,
    ensures
        huge_page_multiple(size) % (HUGE_PAGE_SIZE as int) == 0,
        size <= huge_page_multiple(size),
        huge_page_multiple(size) < size + HUGE_PAGE_SIZE,
{
    let h = HUGE_PAGE_SIZE as int;
    lemma_fundamental_div_mod(size, h);
    if size % h != 0 {
        lemma_mod_multiples_basic(size / h + 1, h);
    }
}

/// Minimality: every huge-page multiple that is at least `size` is at least
/// `huge_page_multiple(size)`. Together with `lemma_huge_page_multiple_bounds`
/// this pins `huge_page_multiple(size)` as the smallest such multiple.
pub proof fn lemma_huge_page_multiple_minimal(size: int, m: int)
    requires
        0 <= size,
        m % (HUGE_PAGE_SIZE as int) == 0,
        size <= m,
    ensures
        huge_page_multiple(size) <= m,
{
    let h = HUGE_PAGE_SIZE as int;
    lemma_fundamental_div_mod(size, h);
    lemma_fundamental_div_mod(m, h);
    let q = size / h;
    let k = m / h;
    if size % h != 0 {
        assert(h * k > h * q) by (nonlinear_arith)
            requires
                h * k == m,
                m >= size,
                size == h * q + size % h,
                size % h > 0,
                h > 0,
        ;
        assert(k >= q + 1) by (nonlinear_arith)
            requires
                h * k > h * q,
                h > 0,
        ;
        assert(h * k >= h * (q + 1)) by (nonlinear_arith)
            requires
                k >= q + 1,
                h > 0,
        ;
    }
}

/// A huge-page-backed DMA region, recorded by its virtual base address, its
/// device-visible (physical or IOMMU I/O-virtual) base address, and its byte
/// length. The embedding program performs the mapping and constructs this
/// record from the plan returned by `Dma::plan_allocate`.
pub struct Dma {
    /// Virtual base address of the mapped region.
    pub virt: usize,
    /// Device-visible base address: an IOVA under an IOMMU, else physical.
    pub phys: usize,
    /// Region length in bytes, always a huge-page multiple.
    pub size: usize,
}

/// Recoverable failures of DMA region allocation.
#[derive(Clone, Copy, PartialEq, Eq, Structural, Debug)]
pub enum DmaError {
    /// The anonymous huge-page mapping failed (IOMMU path).
    MapFailed,
    /// Physical contiguity was required but cannot be promised past one huge page.
    ContiguityUnavailable,
    /// The huge-page file could not be created: huge pages are likely not configured.
    HugepagesMissing,
    /// Mapping the huge-page file failed.
    HugepageMapFailed,
    /// Locking the mapped pages into physical memory failed.
    LockFailed,
    /// The IOMMU collaborator failed to map the region.
    IommuMapFailed,
    /// The page-table-introspection file could not be opened or read.
    PagemapUnavailable,
}

/// Which allocation strategy a DMA allocation will use.
#[derive(Clone, Copy, PartialEq, Eq, Structural, Debug)]
pub enum DmaPath {
    /// Map an anonymous huge-page region, then ask the IOMMU collaborator to
    /// map it; the device-visible address is the returned IOVA.
    Iommu,
    /// Create a uniquely named file in the huge-page filesystem, map it
    /// shared, lock it, and resolve each physical address independently.
    HugetlbFile,
}

/// The decision a DMA allocation makes before any system call.
#[derive(Clone, Copy, PartialEq, Eq, Structural, Debug)]
pub struct DmaPlan {
    /// Length of the region to map: the request rounded up to a huge-page multiple.
    pub size: usize,
    /// Strategy selected from the process-wide IOMMU container state.
    pub path: DmaPath,
}

/// Sentinel value of the process-wide IOMMU container slot meaning "unset".
pub const VFIO_CONTAINER_UNSET: i32 = -1;

impl Dma {
    /// The region's address ranges stay within the machine's address space.
    pub open spec fn wf(self) -> bool {
        &&& self.virt + self.size <= usize::MAX
        &&& self.phys + self.size <= usize::MAX
    }

    /// Decides how a DMA region of `size` bytes will be allocated, given the
    /// process-wide IOMMU container slot (`VFIO_CONTAINER_UNSET` if never
    /// set). Fails exactly when contiguity is required without an IOMMU and
    /// the rounded size exceeds one huge page, where physical contiguity
    /// cannot be promised.
    pub fn plan_allocate(size: usize, require_contiguous: bool, vfio_container: i32) -> (r: Result<
        DmaPlan,
        DmaError,
    >)
        requires
            size <= usize::MAX - (HUGE_PAGE_SIZE - 1),
        ensures
            ({
                let rounded = huge_page_multiple(size as int);
                match r {
                    Ok(plan) => {
                        &&& plan.size == rounded
                        &&& (plan.path is Iommu <==> vfio_container != VFIO_CONTAINER_UNSET)
                        &&& !(vfio_container == VFIO_CONTAINER_UNSET && require_contiguous
                            && rounded > HUGE_PAGE_SIZE)
                    },
                    Err(e) => {
                        &&& e == DmaError::ContiguityUnavailable
                        &&& vfio_container == VFIO_CONTAINER_UNSET
                        &&& require_contiguous
                        &&& rounded > HUGE_PAGE_SIZE
                    },
                }
            }),
    {
        let rounded = round_to_huge_page(size);
        if vfio_container != VFIO_CONTAINER_UNSET {
            Ok(DmaPlan { size: rounded, path: DmaPath::Iommu })
        } else if require_contiguous && rounded > HUGE_PAGE_SIZE {
            Err(DmaError::ContiguityUnavailable)
        } else {
            Ok(DmaPlan { size: rounded, path: DmaPath::HugetlbFile })
        }
    }
}

/// Rounds `size` up to the next multiple of the huge-page size, as every DMA
/// allocation does before any mapping occurs.
pub fn round_to_huge_page(size: usize) -> (r: usize)
    requires
        size <= usize::MAX - (HUGE_PAGE_SIZE - 1),
    ensures
        r == huge_page_multiple(size as int),
        r % HUGE_PAGE_SIZE == 0,
        size <= r,
        r < size + HUGE_PAGE_SIZE,
{
    proof {
        lemma_huge_page_multiple_bounds(size as int);
    }
    if size % HUGE_PAGE_SIZE != 0 {
        (size / HUGE_PAGE_SIZE + 1) * HUGE_PAGE_SIZE
    } else {
        size
    }
}

} // verus!
