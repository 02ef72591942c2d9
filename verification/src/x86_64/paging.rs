//! FinnOS-owned four-level x86-64 paging: addresses, entries, permissions,
//! deterministic mapping plans, and the table walk over table memory.
use vstd::prelude::*;
use std::collections::HashMap;

verus! {

/// Bytes in one 4 KiB page.
pub const PAGE_SIZE: u64 = 4096;
/// Entries in one page-table page.
pub const TABLE_ENTRIES: usize = 512;
/// Page-table pages reserved for one address space.
pub const MAX_PAGE_TABLE_PAGES: usize = 64;
/// Requests one mapping plan can hold.
pub const MAX_MAPPING_REQUESTS: usize = 64;
/// Scratch virtual address used by paging self-tests.
pub const SCRATCH_VIRTUAL_ADDRESS: u64 = 0x0000_4000_0000_0000;
/// Mask of the physical frame address held in an entry.
pub const ENTRY_ADDRESS_MASK: u64 = 0x000f_ffff_ffff_f000;

/// Paging failures.
#[derive(Clone, Copy, Debug, PartialEq, Eq, Structural)]
pub enum PagingError {
    UnsupportedFiveLevelPaging,
    PagingNotEnabled,
    PaeNotEnabled,
    LongModeNotActive,
    NxUnsupported,
    InvalidPhysicalAddressWidth,
    InvalidCanonicalAddress,
    AddressNotPageAligned,
    AddressOverflow,
    PageCountOverflow,
    InvalidKernelLayout,
    KernelSectionOutsideImage,
    GuardPageOverlap,
    InvalidBootInfoRange,
    InvalidMemoryMapRange,
    InvalidFramebufferRange,
    InvalidAcpiRange,
    PageTablePoolExhausted,
    PageTablePageNotAccessible,
    PageTablePageAlreadyUsed,
    InvalidPageTableEntry,
    UnexpectedHugePage,
    MappingConflict,
    AlreadyMapped,
    NotMapped,
    WritableExecutableMapping,
    UserMappingForbidden,
    RequiredMappingMissing,
    RequiredPermissionMismatch,
    Cr3ActivationFailed,
    Cr0WriteProtectFailed,
    EferNxFailed,
    NullPageMapped,
    GuardPageMapped,
    MappingPlanCapacityExceeded,
    CorruptPageTableState,
    PhysicalAddressTooWide,
    ZeroPageRange,
}

/// A physical address that fits the CPU's physical-address width.
#[derive(Clone, Copy, Debug, PartialEq, Eq, Structural)]
pub struct PhysicalAddress(pub u64);

/// Mask of the addresses representable in `width` bits.
pub open spec fn width_mask(width: u8) -> u64
    recommends
        width < 64,
{
    ((1u64 << width) - 1) as u64
}

/// A physical-address width the kernel supports.
pub open spec fn width_supported(width: u8) -> bool {
    36 <= width <= 52
}

impl PhysicalAddress {
    /// Checks `value` against a supported physical-address width.
    pub fn new(value: u64, width: u8) -> (result: Result<PhysicalAddress, PagingError>)
        ensures
            !width_supported(width) ==> result == Err::<PhysicalAddress, PagingError>(
                PagingError::InvalidPhysicalAddressWidth,
            ),
            width_supported(width) && value & !width_mask(width) != 0 ==> result == Err::<
                PhysicalAddress,
                PagingError,
            >(PagingError::PhysicalAddressTooWide),
            width_supported(width) && value & !width_mask(width) == 0 ==> result == Ok::<
                PhysicalAddress,
                PagingError,
            >(PhysicalAddress(value)),
    {
        if width < 36 || width > 52 {
            return Err(PagingError::InvalidPhysicalAddressWidth);
        }
        proof {
            lemma_small_bit_facts(width);
        }
        if value & !((1u64 << width) - 1) != 0 {
            return Err(PagingError::PhysicalAddressTooWide);
        }
        Ok(PhysicalAddress(value))
    }

    /// The raw address.
    pub fn value(self) -> (v: u64)
        ensures
            v == self.0,
    {
        self.0
    }
}

/// Bits 48..63 are all clear or all set.
pub open spec fn canonical(address: u64) -> bool {
    address >> 48u64 == 0 || address >> 48u64 == 0xffff
}

/// A canonical virtual address.
#[derive(Clone, Copy, Debug, PartialEq, Eq, Structural)]
pub struct VirtualAddress(pub u64);

impl VirtualAddress {
    /// Accepts `value` only if it is canonical.
    pub fn new(value: u64) -> (result: Result<VirtualAddress, PagingError>)
        ensures
            canonical(value) ==> result == Ok::<VirtualAddress, PagingError>(VirtualAddress(value)),
            !canonical(value) ==> result == Err::<VirtualAddress, PagingError>(
                PagingError::InvalidCanonicalAddress,
            ),
    {
        if !is_canonical(value) {
            return Err(PagingError::InvalidCanonicalAddress);
        }
        Ok(VirtualAddress(value))
    }

    /// The raw address.
    pub fn value(self) -> (v: u64)
        ensures
            v == self.0,
    {
        self.0
    }
}

/// A page-aligned physical frame.
#[derive(Clone, Copy, Debug, PartialEq, Eq, Structural)]
pub struct PhysicalFrame(pub PhysicalAddress);

/// The outcome of `PhysicalFrame::new(value, width)`.
pub open spec fn frame_result(value: u64, width: u8) -> Result<PhysicalFrame, PagingError> {
    if value % PAGE_SIZE != 0 {
        Err(PagingError::AddressNotPageAligned)
    } else if !width_supported(width) {
        Err(PagingError::InvalidPhysicalAddressWidth)
    } else if value & !width_mask(width) != 0 {
        Err(PagingError::PhysicalAddressTooWide)
    } else {
        Ok(PhysicalFrame(PhysicalAddress(value)))
    }
}

impl PhysicalFrame {
    /// Accepts a page-aligned address that fits `width`.
    pub fn new(value: u64, width: u8) -> (result: Result<PhysicalFrame, PagingError>)
        ensures
            result == frame_result(value, width),
    {
        if !value.is_multiple_of(PAGE_SIZE) {
            return Err(PagingError::AddressNotPageAligned);
        }
        match PhysicalAddress::new(value, width) {
            Ok(address) => Ok(PhysicalFrame(address)),
            Err(e) => Err(e),
        }
    }

    /// The frame's physical address.
    pub fn address(self) -> (a: u64)
        ensures
            a == self.0.0,
    {
        self.0.0
    }
}

/// A page-aligned canonical virtual page.
#[derive(Clone, Copy, Debug, PartialEq, Eq, Structural)]
pub struct VirtualPage(pub VirtualAddress);

/// The outcome of `VirtualPage::new(value)`.
pub open spec fn page_result(value: u64) -> Result<VirtualPage, PagingError> {
    if value % PAGE_SIZE != 0 {
        Err(PagingError::AddressNotPageAligned)
    } else if !canonical(value) {
        Err(PagingError::InvalidCanonicalAddress)
    } else {
        Ok(VirtualPage(VirtualAddress(value)))
    }
}

impl VirtualPage {
    /// Accepts a page-aligned canonical address.
    pub fn new(value: u64) -> (result: Result<VirtualPage, PagingError>)
        ensures
            result == page_result(value),
    {
        if !value.is_multiple_of(PAGE_SIZE) {
            return Err(PagingError::AddressNotPageAligned);
        }
        match VirtualAddress::new(value) {
            Ok(address) => Ok(VirtualPage(address)),
            Err(e) => Err(e),
        }
    }

    /// The page's virtual address.
    pub fn address(self) -> (a: u64)
        ensures
            a == self.0.0,
    {
        self.0.0
    }
}

/// Whether bits 48..63 are all clear or all set.
pub fn is_canonical(address: u64) -> (ok: bool)
    ensures
        ok == canonical(address),
{
    let upper = address >> 48u64;
    upper == 0 || upper == 0xffff
}

/// Round down to a page boundary.
pub fn align_down(address: u64) -> (aligned: u64)
    ensures
        aligned == address & !0xfffu64,
        aligned % PAGE_SIZE == 0,
        aligned <= address,
        address - aligned < PAGE_SIZE,
{
    let r = address & !(PAGE_SIZE - 1);
    assert(r == address & !0xfffu64 && r % 4096 == 0 && r <= address && address - r < 4096)
        by (bit_vector)
        requires
            r == address & !0xfffu64,
    ;
    r
}

/// Round up to a page boundary.
pub fn align_up(address: u64) -> (result: Result<u64, PagingError>)
    ensures
        address + (PAGE_SIZE - 1) > u64::MAX ==> result == Err::<u64, PagingError>(
            PagingError::AddressOverflow,
        ),
        address + (PAGE_SIZE - 1) <= u64::MAX ==> result == Ok::<u64, PagingError>(
            ((address + 0xfff) as u64) & !0xfffu64,
        ),
        result matches Ok(a) ==> a % PAGE_SIZE == 0 && address <= a && a - address < PAGE_SIZE,
{
    let adjusted = match address.checked_add(PAGE_SIZE - 1) {
        Some(v) => v,
        None => return Err(PagingError::AddressOverflow),
    };
    let aligned = align_down(adjusted);
    assert(aligned >= address) by (bit_vector)
        requires
            adjusted == address + 0xfff,
            aligned == adjusted & !0xfffu64,
    ;
    Ok(aligned)
}

/// Index into the PML4 (bits 39..47).
pub open spec fn pml4_slot(address: u64) -> u64 {
    (address >> 39u64) & 0x1ff
}

/// Index into a page-directory-pointer table (bits 30..38).
pub open spec fn pdpt_slot(address: u64) -> u64 {
    (address >> 30u64) & 0x1ff
}

/// Index into a page directory (bits 21..29).
pub open spec fn pd_slot(address: u64) -> u64 {
    (address >> 21u64) & 0x1ff
}

/// Index into a page table (bits 12..20).
pub open spec fn pt_slot(address: u64) -> u64 {
    (address >> 12u64) & 0x1ff
}

/// The walk of `a` in `space` passes three present entries above the leaf
/// level: the leaf table for `a` already exists.
pub open spec fn path_present(space: ActiveAddressSpace, a: u64) -> bool {
    let (e0, e1, e2, e3) = path_entries(space.table_pages(), space.spec_root(), a);
    &&& e0 & ENTRY_PRESENT != 0
    &&& e1 & ENTRY_PRESENT != 0
    &&& e2 & ENTRY_PRESENT != 0
}

/// A live translation passes three present upper entries.
pub proof fn lemma_live_path_present(space: ActiveAddressSpace, a: u64)
    requires
        space.translate_spec(a) matches Ok(Some(_)),
    ensures
        path_present(space, a),
{
}

/// Each table slot of an address is below 512.
pub proof fn lemma_slot_bounds(address: u64)
    ensures
        pml4_slot(address) < 512,
        pdpt_slot(address) < 512,
        pd_slot(address) < 512,
        pt_slot(address) < 512,
{
    assert((address >> 39u64) & 0x1ff < 512 && (address >> 30u64) & 0x1ff < 512 && (address
        >> 21u64) & 0x1ff < 512 && (address >> 12u64) & 0x1ff < 512) by (bit_vector);
}

/// A zero entry is not present, and a width below 64 gives a non-zero bound.
pub proof fn lemma_small_bit_facts(width: u8)
    requires
        width < 64,
    ensures
        0u64 & ENTRY_PRESENT == 0,
        1u64 << width >= 1,
{
    assert(0u64 & 1u64 == 0 && 1u64 << width >= 1) by (bit_vector)
        requires
            width < 64,
    ;
}

/// PML4 index of `address`.
pub fn pml4_index(address: u64) -> (index: usize)
    ensures
        index == pml4_slot(address),
        index < TABLE_ENTRIES,
{
    proof {
        lemma_slot_bounds(address);
    }
    let v = (address >> 39u64) & 0x1ff;
    v as usize
}

/// Page-directory-pointer-table index of `address`.
pub fn pdpt_index(address: u64) -> (index: usize)
    ensures
        index == pdpt_slot(address),
        index < TABLE_ENTRIES,
{
    proof {
        lemma_slot_bounds(address);
    }
    let v = (address >> 30u64) & 0x1ff;
    v as usize
}

/// Page-directory index of `address`.
pub fn page_directory_index(address: u64) -> (index: usize)
    ensures
        index == pd_slot(address),
        index < TABLE_ENTRIES,
{
    proof {
        lemma_slot_bounds(address);
    }
    let v = (address >> 21u64) & 0x1ff;
    v as usize
}

/// Page-table index of `address`.
pub fn page_table_index(address: u64) -> (index: usize)
    ensures
        index == pt_slot(address),
        index < TABLE_ENTRIES,
{
    proof {
        lemma_slot_bounds(address);
    }
    let v = (address >> 12u64) & 0x1ff;
    v as usize
}

/// Offset of `address` inside its page.
pub fn page_offset(address: u64) -> (offset: u64)
    ensures
        offset == address & 0xfff,
        offset == address % PAGE_SIZE,
        offset < PAGE_SIZE,
{
    let r = address & (PAGE_SIZE - 1);
    assert(r == address % 4096 && r < 4096) by (bit_vector)
        requires
            r == address & 0xfff,
    ;
    r
}

/// Requested access rights and cache policy for a mapping.
#[derive(Clone, Copy, Debug, PartialEq, Eq, Structural)]
pub struct MappingPermissions {
    pub writable: bool,
    pub executable: bool,
    pub user: bool,
    pub write_through: bool,
    pub cache_disable: bool,
}

/// The permission error of `p`, if any: user mappings and W+X are refused.
pub open spec fn permissions_error(p: MappingPermissions) -> Option<PagingError> {
    if p.user {
        Some(PagingError::UserMappingForbidden)
    } else if p.writable && p.executable {
        Some(PagingError::WritableExecutableMapping)
    } else {
        None
    }
}

impl MappingPermissions {
    /// Kernel read/execute.
    pub fn kernel_rx() -> (p: MappingPermissions)
        ensures
            p == (MappingPermissions {
                writable: false,
                executable: true,
                user: false,
                write_through: false,
                cache_disable: false,
            }),
    {
        MappingPermissions {
            writable: false,
            executable: true,
            user: false,
            write_through: false,
            cache_disable: false,
        }
    }

    /// Kernel read-only, no execute.
    pub fn kernel_r_nx() -> (p: MappingPermissions)
        ensures
            p == (MappingPermissions {
                writable: false,
                executable: false,
                user: false,
                write_through: false,
                cache_disable: false,
            }),
    {
        MappingPermissions {
            writable: false,
            executable: false,
            user: false,
            write_through: false,
            cache_disable: false,
        }
    }

    /// Kernel read/write, no execute.
    pub fn kernel_rw_nx() -> (p: MappingPermissions)
        ensures
            p == (MappingPermissions {
                writable: true,
                executable: false,
                user: false,
                write_through: false,
                cache_disable: false,
            }),
    {
        MappingPermissions {
            writable: true,
            executable: false,
            user: false,
            write_through: false,
            cache_disable: false,
        }
    }

    /// Device registers: read/write, no execute, strong uncacheable (both
    /// write-through and cache-disable set).
    pub fn kernel_mmio_rw_nx() -> (p: MappingPermissions)
        ensures
            p == (MappingPermissions {
                writable: true,
                executable: false,
                user: false,
                write_through: true,
                cache_disable: true,
            }),
    {
        MappingPermissions {
            writable: true,
            executable: false,
            user: false,
            write_through: true,
            cache_disable: true,
        }
    }

    /// Framebuffer: read/write, no execute, write-through and uncached.
    pub fn framebuffer() -> (p: MappingPermissions)
        ensures
            p == (MappingPermissions {
                writable: true,
                executable: false,
                user: false,
                write_through: true,
                cache_disable: true,
            }),
    {
        MappingPermissions {
            writable: true,
            executable: false,
            user: false,
            write_through: true,
            cache_disable: true,
        }
    }

    /// Refuses user mappings and writable-executable mappings.
    pub fn validate(self) -> (result: Result<(), PagingError>)
        ensures
            result == (match permissions_error(self) {
                Some(e) => Err(e),
                None => Ok::<(), PagingError>(()),
            }),
    {
        if self.user {
            return Err(PagingError::UserMappingForbidden);
        }
        if self.writable && self.executable {
            return Err(PagingError::WritableExecutableMapping);
        }
        Ok(())
    }
}

/// Why a range is mapped.
#[derive(Clone, Copy, Debug, PartialEq, Eq, Structural)]
pub enum MappingPurpose {
    KernelText,
    KernelReadOnly,
    KernelData,
    KernelBss,
    KernelStack,
    BootInfo,
    MemoryMapStorage,
    Framebuffer,
    PageTableStorage,
    AcpiRsdp,
    TestScratch,
}

/// One contiguous range to map.
#[derive(Clone, Copy, Debug, PartialEq, Eq, Structural)]
pub struct MappingRequest {
    pub virtual_start: u64,
    pub physical_start: u64,
    pub page_count: u64,
    pub permissions: MappingPermissions,
    pub purpose: MappingPurpose,
}

/// Exclusive virtual end of a request, as an integer.
pub open spec fn request_virtual_end(r: MappingRequest) -> int {
    r.virtual_start + r.page_count * PAGE_SIZE
}

/// Two requests' virtual ranges intersect.
pub open spec fn requests_overlap(a: MappingRequest, b: MappingRequest) -> bool {
    a.virtual_start < request_virtual_end(b) && b.virtual_start < request_virtual_end(a)
}

/// A request the plan accepts on its own.
pub open spec fn request_valid(r: MappingRequest) -> bool {
    &&& permissions_error(r.permissions).is_none()
    &&& r.page_count > 0
    &&& r.virtual_start % PAGE_SIZE == 0
    &&& r.physical_start % PAGE_SIZE == 0
    &&& request_virtual_end(r) <= u64::MAX
    &&& canonical(r.virtual_start)
    &&& canonical((request_virtual_end(r) - 1) as u64)
    &&& r.virtual_start != 0
}

/// The error a request earns on its own, before comparison with the plan.
pub open spec fn request_error(r: MappingRequest) -> Option<PagingError> {
    if permissions_error(r.permissions).is_some() {
        permissions_error(r.permissions)
    } else if r.page_count == 0 {
        Some(PagingError::ZeroPageRange)
    } else if r.virtual_start % PAGE_SIZE != 0 || r.physical_start % PAGE_SIZE != 0 {
        Some(PagingError::AddressNotPageAligned)
    } else if r.page_count * PAGE_SIZE > u64::MAX {
        Some(PagingError::PageCountOverflow)
    } else if request_virtual_end(r) > u64::MAX {
        Some(PagingError::AddressOverflow)
    } else if !canonical(r.virtual_start) || !canonical((request_virtual_end(r) - 1) as u64) {
        Some(PagingError::InvalidCanonicalAddress)
    } else if r.virtual_start == 0 {
        Some(PagingError::NullPageMapped)
    } else {
        None
    }
}

/// A bounded list of valid, pairwise-disjoint requests in ascending virtual order.
pub open spec fn plan_wf(s: Seq<MappingRequest>) -> bool {
    &&& s.len() <= MAX_MAPPING_REQUESTS
    &&& forall|i: int| 0 <= i < s.len() ==> request_valid(#[trigger] s[i])
    &&& forall|i: int, j: int|
        0 <= i < j < s.len() ==> #[trigger] s[i].virtual_start < #[trigger] s[j].virtual_start
    &&& forall|i: int, j: int|
        0 <= i < s.len() && 0 <= j < s.len() && i != j ==> !requests_overlap(
            #[trigger] s[i],
            #[trigger] s[j],
        )
}

/// Index of the first planned request that overlaps `r`, if any.
pub open spec fn first_overlap(s: Seq<MappingRequest>, r: MappingRequest) -> Option<int>
    decreases s.len(),
{
    if s.len() == 0 {
        None
    } else {
        match first_overlap(s.drop_last(), r) {
            Some(i) => Some(i),
            None => if requests_overlap(s.last(), r) {
                Some(s.len() - 1)
            } else {
                None
            },
        }
    }
}

/// A deterministic, sorted, conflict-free mapping plan.
#[derive(Clone, Debug, PartialEq, Eq)]
pub struct MappingPlan {
    requests: Vec<MappingRequest>,
}

impl View for MappingPlan {
    type V = Seq<MappingRequest>;

    closed spec fn view(&self) -> Seq<MappingRequest> {
        self.requests@
    }
}

impl MappingPlan {
    /// Well-formedness: at most 64 valid, disjoint requests sorted by virtual start.
    pub open spec fn wf(&self) -> bool {
        plan_wf(self@)
    }

    /// An empty plan.
    pub fn new() -> (plan: MappingPlan)
        ensures
            plan@ == Seq::<MappingRequest>::empty(),
            plan.wf(),
    {
        MappingPlan { requests: Vec::new() }
    }

    /// Number of planned requests.
    pub fn len(&self) -> (n: usize)
        ensures
            n == self@.len(),
    {
        self.requests.len()
    }

    /// The planned requests, in ascending virtual order.
    pub fn as_slice(&self) -> (s: &[MappingRequest])
        ensures
            s@ == self@,
    {
        self.requests.as_slice()
    }

    /// Adds `request`, keeping the plan sorted by virtual start.
    ///
    /// A request that overlaps an earlier one is accepted without change only
    /// when it has the same permissions and physical start as the first
    /// overlapping request; otherwise it is a conflict.
    pub fn push(&mut self, request: MappingRequest) -> (result: Result<(), PagingError>)
        requires
            old(self).wf(),
        ensures
            final(self).wf(),
            request_error(request).is_some() ==> result == Err::<(), PagingError>(
                request_error(request).unwrap(),
            ) && final(self)@ == old(self)@,
            request_error(request).is_none() ==> match first_overlap(old(self)@, request) {
                Some(i) => final(self)@ == old(self)@ && (if old(self)@[i].permissions
                    == request.permissions && old(self)@[i].physical_start
                    == request.physical_start {
                    result == Ok::<(), PagingError>(())
                } else {
                    result == Err::<(), PagingError>(PagingError::MappingConflict)
                }),
                None => if old(self)@.len() == MAX_MAPPING_REQUESTS {
                    result == Err::<(), PagingError>(PagingError::MappingPlanCapacityExceeded)
                        && final(self)@ == old(self)@
                } else {
                    result == Ok::<(), PagingError>(()) && final(self)@ == old(self)@.insert(
                        insertion_point(old(self)@, request),
                        request,
                    ) && 0 <= insertion_point(old(self)@, request) <= old(self)@.len()
                },
            },
    {
        match request.permissions.validate() {
            Ok(()) => {},
            Err(e) => return Err(e),
        }
        if request.page_count == 0 {
            return Err(PagingError::ZeroPageRange);
        }
        if !request.virtual_start.is_multiple_of(PAGE_SIZE)
            || !request.physical_start.is_multiple_of(PAGE_SIZE) {
            return Err(PagingError::AddressNotPageAligned);
        }
        let byte_len = match request.page_count.checked_mul(PAGE_SIZE) {
            Some(v) => v,
            None => return Err(PagingError::PageCountOverflow),
        };
        let v_end = match request.virtual_start.checked_add(byte_len) {
            Some(v) => v,
            None => return Err(PagingError::AddressOverflow),
        };
        if !is_canonical(request.virtual_start) || !is_canonical(v_end - 1) {
            return Err(PagingError::InvalidCanonicalAddress);
        }
        if request.virtual_start == 0 {
            return Err(PagingError::NullPageMapped);
        }
        let ghost s = self@;
        let n = self.requests.len();
        let mut i: usize = 0;
        while i < n
            invariant
                self@ == s,
                plan_wf(s),
                n == s.len(),
                i <= n,
                request_error(request).is_none(),
                v_end == request_virtual_end(request),
                first_overlap(s.take(i as int), request).is_none(),
            decreases n - i,
        {
            let old_request = self.requests[i];
            assert(s.take(i + 1).drop_last() == s.take(i as int));
            assert(s.take(i + 1).last() == s[i as int]);
            assert(request_valid(s[i as int]));
            let old_end = old_request.virtual_start + old_request.page_count * PAGE_SIZE;
            if request.virtual_start < old_end && old_request.virtual_start < v_end {
                proof {
                    lemma_first_overlap_prefix(s, request, (i + 1) as int);
                }
                if old_request.permissions == request.permissions && old_request.physical_start
                    == request.physical_start {
                    return Ok(());
                }
                return Err(PagingError::MappingConflict);
            }
            i += 1;
        }
        assert(s.take(n as int) == s);
        if n == MAX_MAPPING_REQUESTS {
            return Err(PagingError::MappingPlanCapacityExceeded);
        }
        let mut k: usize = 0;
        while k < n && self.requests[k].virtual_start < request.virtual_start
            invariant
                self@ == s,
                n == s.len(),
                k <= n,
                forall|j: int| 0 <= j < k ==> #[trigger] s[j].virtual_start < request.virtual_start,
            decreases n - k,
        {
            k += 1;
        }
        proof {
            lemma_no_overlap_all(s, request);
            lemma_insert_wf(s, request, k as int);
            lemma_insertion_point(s, request, k as int);
        }
        self.requests.insert(k, request);
        Ok(())
    }
}

/// Where a request goes in a plan sorted by virtual start: after every
/// request that starts below it.
pub open spec fn insertion_point(s: Seq<MappingRequest>, r: MappingRequest) -> int
    decreases s.len(),
{
    if s.len() == 0 {
        0
    } else if s.last().virtual_start < r.virtual_start {
        s.len() as int
    } else {
        insertion_point(s.drop_last(), r)
    }
}

/// In a sorted plan, the first index not starting below `r` is its insertion point.
proof fn lemma_insertion_point(s: Seq<MappingRequest>, r: MappingRequest, k: int)
    requires
        forall|i: int, j: int|
            0 <= i < j < s.len() ==> #[trigger] s[i].virtual_start < #[trigger] s[j].virtual_start,
        0 <= k <= s.len(),
        forall|j: int| 0 <= j < k ==> #[trigger] s[j].virtual_start < r.virtual_start,
        k < s.len() ==> s[k].virtual_start >= r.virtual_start,
    ensures
        insertion_point(s, r) == k,
    decreases s.len(),
{
    if s.len() > 0 {
        let n = s.len() - 1;
        if s.last().virtual_start < r.virtual_start {
            if k < s.len() {
                if k < n {
                    assert(s[k].virtual_start < s[n].virtual_start);
                }
            }
        } else {
            if k == s.len() {
                assert(s[n].virtual_start < r.virtual_start);
            }
            let t = s.drop_last();
            assert forall|i: int, j: int| 0 <= i < j < t.len() implies #[trigger] t[i].virtual_start
                < #[trigger] t[j].virtual_start by {
                assert(t[i] == s[i] && t[j] == s[j]);
            }
            assert forall|j: int| 0 <= j < k implies #[trigger] t[j].virtual_start < r.virtual_start by {
                assert(t[j] == s[j]);
            }
            if k < t.len() {
                assert(t[k] == s[k]);
            }
            lemma_insertion_point(t, r, k);
        }
    }
}

proof fn lemma_first_overlap_prefix(s: Seq<MappingRequest>, r: MappingRequest, k: int)
    requires
        0 < k <= s.len(),
        first_overlap(s.take(k - 1), r).is_none(),
        requests_overlap(s[k - 1], r),
    ensures
        first_overlap(s, r) == Some(k - 1),
    decreases s.len() - k,
{
    if k == s.len() {
        assert(s.drop_last() == s.take(k - 1));
    } else {
        assert(s.drop_last().take(k - 1) == s.take(k - 1));
        assert(s.drop_last()[k - 1] == s[k - 1]);
        lemma_first_overlap_prefix(s.drop_last(), r, k);
    }
}

proof fn lemma_no_overlap_all(s: Seq<MappingRequest>, r: MappingRequest)
    requires
        first_overlap(s, r).is_none(),
    ensures
        forall|j: int| 0 <= j < s.len() ==> !requests_overlap(#[trigger] s[j], r),
    decreases s.len(),
{
    if s.len() > 0 {
        lemma_no_overlap_all(s.drop_last(), r);
        assert forall|j: int| 0 <= j < s.len() implies !requests_overlap(#[trigger] s[j], r) by {
            if j < s.len() - 1 {
                assert(s[j] == s.drop_last()[j]);
            }
        }
    }
}

proof fn lemma_insert_wf(s: Seq<MappingRequest>, r: MappingRequest, k: int)
    requires
        plan_wf(s),
        s.len() < MAX_MAPPING_REQUESTS,
        request_error(r).is_none(),
        0 <= k <= s.len(),
        forall|j: int| 0 <= j < k ==> #[trigger] s[j].virtual_start < r.virtual_start,
        k < s.len() ==> s[k].virtual_start >= r.virtual_start,
        forall|j: int| 0 <= j < s.len() ==> !requests_overlap(#[trigger] s[j], r),
    ensures
        plan_wf(s.insert(k, r)),
{
    let t = s.insert(k, r);
    assert forall|i: int| 0 <= i < t.len() implies request_valid(#[trigger] t[i]) by {
        if i < k {
            assert(t[i] == s[i]);
        } else if i > k {
            assert(t[i] == s[i - 1]);
        }
    }
    assert forall|j: int| k < j < t.len() implies r.virtual_start < #[trigger] t[j].virtual_start by {
        assert(t[j] == s[j - 1]);
        assert(!requests_overlap(s[j - 1], r));
        if j - 1 > k {
            assert(s[k].virtual_start < s[j - 1].virtual_start);
        }
    }
    assert forall|i: int, j: int| 0 <= i < j < t.len() implies #[trigger] t[i].virtual_start
        < #[trigger] t[j].virtual_start by {
        if i < k && j < k {
            assert(t[i] == s[i] && t[j] == s[j]);
        } else if i < k && j == k {
            assert(t[i] == s[i]);
        } else if i < k && j > k {
            assert(t[i] == s[i] && t[j] == s[j - 1]);
        } else if i == k {
            assert(r.virtual_start < t[j].virtual_start);
        } else {
            assert(t[i] == s[i - 1] && t[j] == s[j - 1]);
        }
    }
    assert forall|i: int, j: int|
        0 <= i < t.len() && 0 <= j < t.len() && i != j implies !requests_overlap(
        #[trigger] t[i],
        #[trigger] t[j],
    ) by {
        if i == k {
            if j < k {
                assert(t[j] == s[j]);
            } else {
                assert(t[j] == s[j - 1]);
            }
        } else if j == k {
            if i < k {
                assert(t[i] == s[i]);
            } else {
                assert(t[i] == s[i - 1]);
            }
        } else {
            let si = if i < k {
                i
            } else {
                i - 1
            };
            let sj = if j < k {
                j
            } else {
                j - 1
            };
            assert(t[i] == s[si] && t[j] == s[sj]);
        }
    }
}


/// Entry bit: present.
pub const ENTRY_PRESENT: u64 = 1;
/// Entry bit: writable.
pub const ENTRY_WRITABLE: u64 = 0x2;
/// Entry bit: user accessible.
pub const ENTRY_USER: u64 = 0x4;
/// Entry bit: write-through caching.
pub const ENTRY_WRITE_THROUGH: u64 = 0x8;
/// Entry bit: caching disabled.
pub const ENTRY_CACHE_DISABLE: u64 = 0x10;
/// Entry bit: large page at this level.
pub const ENTRY_HUGE: u64 = 0x80;
/// Entry bit: no-execute.
pub const ENTRY_NO_EXECUTE: u64 = 0x8000_0000_0000_0000;

/// Whether a raw entry's address bits exceed `width`.
pub open spec fn entry_too_wide(raw: u64, width: u8) -> bool {
    raw & !width_mask(width) & ENTRY_ADDRESS_MASK != 0
}

/// The raw leaf entry for `frame_address` with the given permission bits.
pub open spec fn leaf_bits(
    frame_address: u64,
    writable: bool,
    write_through: bool,
    cache_disable: bool,
    executable: bool,
) -> u64 {
    1u64 | (if writable {
        2u64
    } else {
        0u64
    }) | (if write_through {
        8u64
    } else {
        0u64
    }) | (if cache_disable {
        0x10u64
    } else {
        0u64
    }) | (if executable {
        0u64
    } else {
        0x8000_0000_0000_0000u64
    }) | frame_address
}

/// The raw leaf entry for `frame_address` with `p`'s permission bits.
pub open spec fn leaf_raw(frame_address: u64, p: MappingPermissions) -> u64 {
    leaf_bits(frame_address, p.writable, p.write_through, p.cache_disable, p.executable)
}

/// The raw entry that links to the next-level table at `table_address`.
pub open spec fn table_raw(table_address: u64) -> u64 {
    ENTRY_PRESENT | ENTRY_WRITABLE | table_address
}

/// The result of `PageTableEntry::leaf(frame, p)`.
pub open spec fn leaf_result(frame: PhysicalFrame, p: MappingPermissions) -> Result<
    PageTableEntry,
    PagingError,
> {
    if p.user {
        Err(PagingError::UserMappingForbidden)
    } else if p.writable && p.executable {
        Err(PagingError::WritableExecutableMapping)
    } else {
        Ok(PageTableEntry(leaf_raw(frame.0.0, p)))
    }
}

/// An address a table or leaf entry can hold: page aligned, below 2^52.
pub open spec fn entry_address_ok(address: u64) -> bool {
    address & !ENTRY_ADDRESS_MASK == 0
}

/// A raw page-table entry.
#[derive(Clone, Copy, Debug, PartialEq, Eq, Structural)]
pub struct PageTableEntry(pub u64);

impl PageTableEntry {
    /// The non-present entry.
    pub fn empty() -> (e: PageTableEntry)
        ensures
            e.0 == 0,
    {
        PageTableEntry(0)
    }

    /// The raw 64-bit value.
    pub fn raw(self) -> (r: u64)
        ensures
            r == self.0,
    {
        self.0
    }

    /// Present bit.
    pub fn is_present(self) -> (b: bool)
        ensures
            b == (self.0 & ENTRY_PRESENT != 0),
    {
        self.0 & ENTRY_PRESENT != 0
    }

    /// Large-page bit.
    pub fn is_huge(self) -> (b: bool)
        ensures
            b == (self.0 & ENTRY_HUGE != 0),
    {
        self.0 & ENTRY_HUGE != 0
    }

    /// Writable bit.
    pub fn writable(self) -> (b: bool)
        ensures
            b == (self.0 & ENTRY_WRITABLE != 0),
    {
        self.0 & ENTRY_WRITABLE != 0
    }

    /// User bit.
    pub fn user(self) -> (b: bool)
        ensures
            b == (self.0 & ENTRY_USER != 0),
    {
        self.0 & ENTRY_USER != 0
    }

    /// Executable: the no-execute bit is clear.
    pub fn executable(self) -> (b: bool)
        ensures
            b == (self.0 & ENTRY_NO_EXECUTE == 0),
    {
        self.0 & ENTRY_NO_EXECUTE == 0
    }

    /// Cache-disable bit.
    pub fn cache_disable(self) -> (b: bool)
        ensures
            b == (self.0 & ENTRY_CACHE_DISABLE != 0),
    {
        self.0 & ENTRY_CACHE_DISABLE != 0
    }

    /// Write-through bit.
    pub fn write_through(self) -> (b: bool)
        ensures
            b == (self.0 & ENTRY_WRITE_THROUGH != 0),
    {
        self.0 & ENTRY_WRITE_THROUGH != 0
    }

    /// The frame address, refused when it has bits beyond `width`.
    pub fn address(self, width: u8) -> (result: Result<u64, PagingError>)
        requires
            width < 64,
        ensures
            entry_too_wide(self.0, width) ==> result == Err::<u64, PagingError>(
                PagingError::InvalidPageTableEntry,
            ),
            !entry_too_wide(self.0, width) ==> result == Ok::<u64, PagingError>(
                self.0 & ENTRY_ADDRESS_MASK,
            ),
    {
        proof {
            lemma_small_bit_facts(width);
        }
        if self.0 & !((1u64 << width) - 1) & ENTRY_ADDRESS_MASK != 0 {
            return Err(PagingError::InvalidPageTableEntry);
        }
        Ok(self.0 & ENTRY_ADDRESS_MASK)
    }

    /// A kernel leaf for `frame`: user and writable-executable mappings are refused.
    pub fn leaf(frame: PhysicalFrame, permissions: MappingPermissions) -> (result: Result<
        PageTableEntry,
        PagingError,
    >)
        ensures
            result == leaf_result(frame, permissions),
    {
        if permissions.user {
            return Err(PagingError::UserMappingForbidden);
        }
        if permissions.writable && permissions.executable {
            return Err(PagingError::WritableExecutableMapping);
        }
        let w = permissions.writable;
        let wt = permissions.write_through;
        let cd = permissions.cache_disable;
        let x = permissions.executable;
        let address = frame.address();
        let raw = ENTRY_PRESENT | if w {
            ENTRY_WRITABLE
        } else {
            0
        } | if wt {
            ENTRY_WRITE_THROUGH
        } else {
            0
        } | if cd {
            ENTRY_CACHE_DISABLE
        } else {
            0
        } | if x {
            0
        } else {
            ENTRY_NO_EXECUTE
        };
        let out = raw | address;
        assert(out == leaf_bits(address, w, wt, cd, x)) by (bit_vector)
            requires
                raw == 1u64 | (if w {
                    2u64
                } else {
                    0u64
                }) | (if wt {
                    8u64
                } else {
                    0u64
                }) | (if cd {
                    0x10u64
                } else {
                    0u64
                }) | (if x {
                    0u64
                } else {
                    0x8000_0000_0000_0000u64
                }),
                out == raw | address,
        ;
        Ok(PageTableEntry(out))
    }

    /// The present, writable link to the next-level table at `frame`.
    pub fn table(frame: PhysicalFrame) -> (e: PageTableEntry)
        ensures
            e.0 == table_raw(frame.0.0),
    {
        PageTableEntry(ENTRY_PRESENT | ENTRY_WRITABLE | frame.address())
    }
}

/// A leaf built from an aligned frame below 2^52 decodes back to the frame
/// and exactly the requested permission bits.
pub proof fn lemma_leaf_round_trip(frame_address: u64, p: MappingPermissions)
    requires
        entry_address_ok(frame_address),
    ensures
        leaf_raw(frame_address, p) & ENTRY_PRESENT != 0,
        leaf_raw(frame_address, p) & ENTRY_HUGE == 0,
        (leaf_raw(frame_address, p) & ENTRY_WRITABLE != 0) == p.writable,
        leaf_raw(frame_address, p) & ENTRY_USER == 0,
        (leaf_raw(frame_address, p) & ENTRY_NO_EXECUTE == 0) == p.executable,
        (leaf_raw(frame_address, p) & ENTRY_CACHE_DISABLE != 0) == p.cache_disable,
        (leaf_raw(frame_address, p) & ENTRY_WRITE_THROUGH != 0) == p.write_through,
        leaf_raw(frame_address, p) & ENTRY_ADDRESS_MASK == frame_address,
{
    let w = p.writable;
    let wt = p.write_through;
    let cd = p.cache_disable;
    let x = p.executable;
    let r = leaf_bits(frame_address, w, wt, cd, x);
    assert(r & 1 != 0 && r & 0x80 == 0 && (r & 2 != 0) == w && r & 4 == 0 && (r
        & 0x8000_0000_0000_0000 == 0) == x && (r & 0x10 != 0) == cd && (r & 8 != 0) == wt && r
        & 0x000f_ffff_ffff_f000 == frame_address) by (bit_vector)
        requires
            frame_address & !0x000f_ffff_ffff_f000u64 == 0,
            r == 1u64 | (if w {
                2u64
            } else {
                0u64
            }) | (if wt {
                8u64
            } else {
                0u64
            }) | (if cd {
                0x10u64
            } else {
                0u64
            }) | (if x {
                0u64
            } else {
                0x8000_0000_0000_0000u64
            }) | frame_address,
    ;
}

/// A table link decodes as present, writable, supervisor, executable,
/// cacheable, not large, and pointing at the table.
pub proof fn lemma_table_round_trip(table_address: u64)
    requires
        entry_address_ok(table_address),
    ensures
        table_raw(table_address) & ENTRY_PRESENT != 0,
        table_raw(table_address) & ENTRY_HUGE == 0,
        table_raw(table_address) & ENTRY_WRITABLE != 0,
        table_raw(table_address) & ENTRY_USER == 0,
        table_raw(table_address) & ENTRY_NO_EXECUTE == 0,
        table_raw(table_address) & ENTRY_CACHE_DISABLE == 0,
        table_raw(table_address) & ENTRY_WRITE_THROUGH == 0,
        table_raw(table_address) & ENTRY_ADDRESS_MASK == table_address,
{
    let r = table_raw(table_address);
    assert(r & 1 != 0 && r & 0x80 == 0 && r & 2 != 0 && r & 4 == 0 && r & 0x8000_0000_0000_0000
        == 0 && r & 0x10 == 0 && r & 8 == 0 && r & 0x000f_ffff_ffff_f000 == table_address)
        by (bit_vector)
        requires
            table_address & !0x000f_ffff_ffff_f000u64 == 0,
            r == 1u64 | 2u64 | table_address,
    ;
}

/// What a successful walk reports for one virtual address.
#[derive(Clone, Copy, Debug, PartialEq, Eq, Structural)]
pub struct Translation {
    pub physical_address: u64,
    pub page_size: u64,
    pub effective_writable: bool,
    pub effective_user: bool,
    pub effective_executable: bool,
    pub cache_disable: bool,
    pub write_through: bool,
}


/// The raw entry at `index` of the table page `table`; absent pages and
/// slots read as zero.
pub open spec fn entry_of(m: Map<u64, Seq<u64>>, table: u64, index: u64) -> u64 {
    if m.contains_key(table) && index < m[table].len() {
        m[table][index as int]
    } else {
        0
    }
}

/// One step of a table walk.
pub enum WalkStep {
    /// The entry is not present.
    Absent,
    /// The entry cannot be followed.
    Fault(PagingError),
    /// The entry links to this address.
    Next(u64),
}

/// How a walk treats the raw entry `raw`.
pub open spec fn step_of(raw: u64, width: u8) -> WalkStep {
    if raw & ENTRY_PRESENT == 0 {
        WalkStep::Absent
    } else if raw & ENTRY_HUGE != 0 {
        WalkStep::Fault(PagingError::UnexpectedHugePage)
    } else if entry_too_wide(raw, width) {
        WalkStep::Fault(PagingError::InvalidPageTableEntry)
    } else {
        WalkStep::Next(raw & ENTRY_ADDRESS_MASK)
    }
}

/// The four entries a walk of `address` reads, level by level, each table
/// named by the previous entry's address bits.
pub open spec fn path_entries(m: Map<u64, Seq<u64>>, root: u64, address: u64) -> (
    u64,
    u64,
    u64,
    u64,
) {
    let page = address & !0xfffu64;
    let e0 = entry_of(m, root, pml4_slot(page));
    let e1 = entry_of(m, e0 & ENTRY_ADDRESS_MASK, pdpt_slot(page));
    let e2 = entry_of(m, e1 & ENTRY_ADDRESS_MASK, pd_slot(page));
    let e3 = entry_of(m, e2 & ENTRY_ADDRESS_MASK, pt_slot(page));
    (e0, e1, e2, e3)
}

/// The translation reported for `address` through the entries `e0..e3`:
/// write and execute need every level, user needs every level, caching
/// attributes apply from any level.
pub open spec fn translation_of(e0: u64, e1: u64, e2: u64, e3: u64, address: u64) -> Translation {
    Translation {
        physical_address: ((e3 & ENTRY_ADDRESS_MASK) + (address & 0xfffu64)) as u64,
        page_size: PAGE_SIZE,
        effective_writable: e0 & ENTRY_WRITABLE != 0 && e1 & ENTRY_WRITABLE != 0 && e2
            & ENTRY_WRITABLE != 0 && e3 & ENTRY_WRITABLE != 0,
        effective_user: e0 & ENTRY_USER != 0 && e1 & ENTRY_USER != 0 && e2 & ENTRY_USER != 0 && e3
            & ENTRY_USER != 0,
        effective_executable: e0 & ENTRY_NO_EXECUTE == 0 && e1 & ENTRY_NO_EXECUTE == 0 && e2
            & ENTRY_NO_EXECUTE == 0 && e3 & ENTRY_NO_EXECUTE == 0,
        cache_disable: e0 & ENTRY_CACHE_DISABLE != 0 || e1 & ENTRY_CACHE_DISABLE != 0 || e2
            & ENTRY_CACHE_DISABLE != 0 || e3 & ENTRY_CACHE_DISABLE != 0,
        write_through: e0 & ENTRY_WRITE_THROUGH != 0 || e1 & ENTRY_WRITE_THROUGH != 0 || e2
            & ENTRY_WRITE_THROUGH != 0 || e3 & ENTRY_WRITE_THROUGH != 0,
    }
}

/// The outcome of walking the four-level tables `m` from `root` for `address`.
pub open spec fn walk_result(m: Map<u64, Seq<u64>>, root: u64, width: u8, address: u64) -> Result<
    Option<Translation>,
    PagingError,
> {
    let (e0, e1, e2, e3) = path_entries(m, root, address);
    if !canonical(address & !0xfffu64) {
        Err(PagingError::InvalidCanonicalAddress)
    } else {
        match step_of(e0, width) {
            WalkStep::Absent => Ok(None),
            WalkStep::Fault(x) => Err(x),
            WalkStep::Next(_) => match step_of(e1, width) {
                WalkStep::Absent => Ok(None),
                WalkStep::Fault(x) => Err(x),
                WalkStep::Next(_) => match step_of(e2, width) {
                    WalkStep::Absent => Ok(None),
                    WalkStep::Fault(x) => Err(x),
                    WalkStep::Next(_) => match step_of(e3, width) {
                        WalkStep::Absent => Ok(None),
                        WalkStep::Fault(x) => Err(x),
                        WalkStep::Next(_) => Ok(Some(translation_of(e0, e1, e2, e3, address))),
                    },
                },
            },
        }
    }
}

/// The outcome of clearing the leaf for the page at `address`: the frame it
/// held, or why there is none.
pub open spec fn clear_result(m: Map<u64, Seq<u64>>, root: u64, width: u8, address: u64) -> Result<
    u64,
    PagingError,
> {
    let (e0, e1, e2, e3) = path_entries(m, root, address);
    match step_of(e0, width) {
        WalkStep::Absent => Err(PagingError::NotMapped),
        WalkStep::Fault(x) => Err(x),
        WalkStep::Next(_) => match step_of(e1, width) {
            WalkStep::Absent => Err(PagingError::NotMapped),
            WalkStep::Fault(x) => Err(x),
            WalkStep::Next(_) => match step_of(e2, width) {
                WalkStep::Absent => Err(PagingError::NotMapped),
                WalkStep::Fault(x) => Err(x),
                WalkStep::Next(_) => if e3 & ENTRY_PRESENT == 0 {
                    Err(PagingError::NotMapped)
                } else if entry_too_wide(e3, width) {
                    Err(PagingError::InvalidPageTableEntry)
                } else {
                    Ok(e3 & ENTRY_ADDRESS_MASK)
                },
            },
        },
    }
}

/// The translation a present leaf `raw`, reached through table links,
/// gives for `address`.
pub open spec fn leaf_translation(raw: u64, address: u64) -> Translation {
    Translation {
        physical_address: ((raw & ENTRY_ADDRESS_MASK) + (address & 0xfffu64)) as u64,
        page_size: PAGE_SIZE,
        effective_writable: raw & ENTRY_WRITABLE != 0,
        effective_user: false,
        effective_executable: raw & ENTRY_NO_EXECUTE == 0,
        cache_disable: raw & ENTRY_CACHE_DISABLE != 0,
        write_through: raw & ENTRY_WRITE_THROUGH != 0,
    }
}

/// Physical pages reserved up front for page-table storage.
#[derive(Clone, Copy, Debug, PartialEq, Eq)]
pub struct PageTablePagePool {
    pages: [u64; 64],
    reserved_count: usize,
    used_count: usize,
}

impl PageTablePagePool {
    /// The reserved page addresses, in reservation order (all 64 slots).
    pub closed spec fn spec_pages(&self) -> Seq<u64> {
        self.pages@
    }

    /// Pages reserved.
    pub closed spec fn spec_reserved(&self) -> nat {
        self.reserved_count as nat
    }

    /// Pages handed out so far.
    pub closed spec fn spec_used(&self) -> nat {
        self.used_count as nat
    }

    /// Counts are ordered and bounded by the capacity.
    pub open spec fn wf(&self) -> bool {
        &&& self.spec_used() <= self.spec_reserved() <= MAX_PAGE_TABLE_PAGES
        &&& self.spec_pages().len() == MAX_PAGE_TABLE_PAGES
    }

    /// A pool with nothing reserved.
    pub fn empty() -> (pool: PageTablePagePool)
        ensures
            pool.wf(),
            pool.spec_reserved() == 0,
            pool.spec_used() == 0,
            pool.spec_pages() == Seq::new(MAX_PAGE_TABLE_PAGES as nat, |i: int| 0u64),
    {
        let pool = PageTablePagePool { pages: [0; 64], reserved_count: 0, used_count: 0 };
        assert(pool.spec_pages() =~= Seq::new(MAX_PAGE_TABLE_PAGES as nat, |i: int| 0u64));
        pool
    }

    /// Reserves the first `MAX_PAGE_TABLE_PAGES` of the pages an allocator
    /// hands out, in order; fails when fewer are available.
    pub fn reserve(available: &[u64]) -> (result: Result<PageTablePagePool, PagingError>)
        ensures
            available@.len() < MAX_PAGE_TABLE_PAGES ==> result == Err::<
                PageTablePagePool,
                PagingError,
            >(PagingError::PageTablePoolExhausted),
            available@.len() >= MAX_PAGE_TABLE_PAGES ==> (result matches Ok(pool) && pool.wf()
                && pool.spec_reserved() == MAX_PAGE_TABLE_PAGES && pool.spec_used() == 0
                && pool.spec_pages() == available@.subrange(0, MAX_PAGE_TABLE_PAGES as int)),
    {
        if available.len() < MAX_PAGE_TABLE_PAGES {
            return Err(PagingError::PageTablePoolExhausted);
        }
        let mut pool = PageTablePagePool::empty();
        while pool.reserved_count < MAX_PAGE_TABLE_PAGES
            invariant
                pool.reserved_count <= MAX_PAGE_TABLE_PAGES,
                pool.used_count == 0,
                available@.len() >= MAX_PAGE_TABLE_PAGES,
                forall|i: int|
                    0 <= i < pool.reserved_count ==> #[trigger] pool.pages@[i] == available@[i],
            decreases MAX_PAGE_TABLE_PAGES - pool.reserved_count,
        {
            pool.pages[pool.reserved_count] = available[pool.reserved_count];
            pool.reserved_count += 1;
        }
        assert(pool.pages@ == available@.subrange(0, MAX_PAGE_TABLE_PAGES as int));
        Ok(pool)
    }

    /// Pages reserved.
    pub fn reserved_count(&self) -> (n: usize)
        ensures
            n == self.spec_reserved(),
    {
        self.reserved_count
    }

    /// Pages handed out so far.
    pub fn used_count(&self) -> (n: usize)
        ensures
            n == self.spec_used(),
    {
        self.used_count
    }

    /// Hands out the next reserved page: refused when none is left or the
    /// page is not aligned (the pool is then unchanged).
    pub fn take(&mut self) -> (result: Result<u64, PagingError>)
        requires
            old(self).wf(),
        ensures
            final(self).wf(),
            final(self).spec_pages() == old(self).spec_pages(),
            final(self).spec_reserved() == old(self).spec_reserved(),
            old(self).spec_used() >= old(self).spec_reserved() ==> result == Err::<u64, PagingError>(
                PagingError::PageTablePoolExhausted,
            ) && final(self).spec_used() == old(self).spec_used(),
            old(self).spec_used() < old(self).spec_reserved() && old(self).spec_pages()[old(self).spec_used() as int] % PAGE_SIZE != 0 ==> result == Err::<u64, PagingError>(
                PagingError::AddressNotPageAligned,
            ) && final(self).spec_used() == old(self).spec_used(),
            old(self).spec_used() < old(self).spec_reserved() && old(self).spec_pages()[old(self).spec_used() as int] % PAGE_SIZE == 0 ==> result == Ok::<u64, PagingError>(
                old(self).spec_pages()[old(self).spec_used() as int],
            ) && final(self).spec_used() == old(self).spec_used() + 1,
    {
        if self.used_count >= self.reserved_count {
            return Err(PagingError::PageTablePoolExhausted);
        }
        let page = self.pages[self.used_count];
        if !page.is_multiple_of(PAGE_SIZE) {
            return Err(PagingError::AddressNotPageAligned);
        }
        self.used_count += 1;
        Ok(page)
    }

    /// The reserved pages.
    pub fn pages(&self) -> (s: &[u64])
        requires
            self.wf(),
        ensures
            s@ == self.spec_pages().subrange(0, self.spec_reserved() as int),
    {
        let (prefix, _) = self.pages.as_slice().split_at(self.reserved_count);
        prefix
    }
}

/// Whether a new mapping was written or an identical one was already there.
#[derive(Clone, Copy, Debug, PartialEq, Eq, Structural)]
pub enum MapOutcome {
    Created,
    AlreadyPresent,
}


/// Every present link in a table above the leaf level is exactly a table
/// link to a known page one level further down.
pub open spec fn links_ok(t: Map<u64, Seq<u64>>, lv: Map<u64, nat>) -> bool {
    forall|p: u64, i: int|
        #![trigger t[p][i]]
        t.contains_key(p) && lv[p] < 3 && 0 <= i < TABLE_ENTRIES && t[p][i] & ENTRY_PRESENT != 0
            ==> t[p][i] == table_raw(t[p][i] & ENTRY_ADDRESS_MASK) && t.contains_key(
            t[p][i] & ENTRY_ADDRESS_MASK,
        ) && lv[t[p][i] & ENTRY_ADDRESS_MASK] == lv[p] + 1
}

/// No two present links above the leaf level name the same table: the
/// tables form a tree.
pub open spec fn links_unique(t: Map<u64, Seq<u64>>, lv: Map<u64, nat>) -> bool {
    forall|p1: u64, i1: int, p2: u64, i2: int|
        #![trigger t[p1][i1], t[p2][i2]]
        t.contains_key(p1) && t.contains_key(p2) && lv[p1] < 3 && lv[p2] < 3 && 0 <= i1
            < TABLE_ENTRIES && 0 <= i2 < TABLE_ENTRIES && t[p1][i1] & ENTRY_PRESENT != 0
            && t[p2][i2] & ENTRY_PRESENT != 0 && t[p1][i1] & ENTRY_ADDRESS_MASK == t[p2][i2]
            & ENTRY_ADDRESS_MASK ==> p1 == p2 && i1 == i2
}

/// The address bits of a raw entry, and the page-offset-free slots of an
/// address, as plain bit facts.
pub proof fn lemma_entry_address_fits(raw: u64, width: u8)
    requires
        width < 64,
        !entry_too_wide(raw, width),
    ensures
        (raw & ENTRY_ADDRESS_MASK) & !width_mask(width) == 0,
        (raw & ENTRY_ADDRESS_MASK) % PAGE_SIZE == 0,
{
    let m = width_mask(width);
    assert((raw & 0x000f_ffff_ffff_f000u64) & !m == 0 && (raw & 0x000f_ffff_ffff_f000u64) % 4096
        == 0) by (bit_vector)
        requires
            raw & !m & 0x000f_ffff_ffff_f000u64 == 0,
    ;
}

/// The slots of an address are the slots of its page.
pub proof fn lemma_slots_of_page(address: u64)
    ensures
        pml4_slot(address & !0xfffu64) == pml4_slot(address),
        pdpt_slot(address & !0xfffu64) == pdpt_slot(address),
        pd_slot(address & !0xfffu64) == pd_slot(address),
        pt_slot(address & !0xfffu64) == pt_slot(address),
        address % PAGE_SIZE == 0 ==> address & !0xfffu64 == address && address & 0xfffu64 == 0,
{
    assert((address & !0xfffu64) >> 39u64 & 0x1ff == address >> 39u64 & 0x1ff && (address
        & !0xfffu64) >> 30u64 & 0x1ff == address >> 30u64 & 0x1ff && (address & !0xfffu64) >> 21u64
        & 0x1ff == address >> 21u64 & 0x1ff && (address & !0xfffu64) >> 12u64 & 0x1ff == address
        >> 12u64 & 0x1ff) by (bit_vector);
    assert(address % 4096 == 0 ==> address & !0xfffu64 == address && address & 0xfffu64 == 0)
        by (bit_vector);
}

/// A page-aligned address that fits a supported width fits in an entry.
pub proof fn lemma_frame_fits_entry(address: u64, width: u8)
    requires
        width_supported(width),
        address % PAGE_SIZE == 0,
        address & !width_mask(width) == 0,
    ensures
        entry_address_ok(address),
{
    let m = width_mask(width);
    assert(m == ((1u64 << width) - 1) as u64);
    assert(address & !0x000f_ffff_ffff_f000u64 == 0) by (bit_vector)
        requires
            36 <= width <= 52,
            address % 4096 == 0,
            address & !m == 0,
            m == ((1u64 << width) - 1) as u64,
    ;
}

/// An entry built from an address that fits `width` is not too wide.
pub proof fn lemma_entry_fits_width(raw: u64, address: u64, width: u8)
    requires
        width < 64,
        address & !width_mask(width) == 0,
        raw & ENTRY_ADDRESS_MASK == address,
    ensures
        !entry_too_wide(raw, width),
{
    let m = width_mask(width);
    assert(raw & !m & 0x000f_ffff_ffff_f000u64 == 0) by (bit_vector)
        requires
            address & !m == 0,
            raw & 0x000f_ffff_ffff_f000u64 == address,
    ;
}

/// Address bits of any raw entry are bounded by the address mask.
pub proof fn lemma_entry_address_bounded(raw: u64)
    ensures
        raw & ENTRY_ADDRESS_MASK <= ENTRY_ADDRESS_MASK,
        entry_address_ok(raw & ENTRY_ADDRESS_MASK),
{
    assert(raw & 0x000f_ffff_ffff_f000u64 <= 0x000f_ffff_ffff_f000u64 && (raw
        & 0x000f_ffff_ffff_f000u64) & !0x000f_ffff_ffff_f000u64 == 0) by (bit_vector);
}

/// The translation of `address` in a page mapped to `frame_address` with `p`.
pub open spec fn mapped_translation(frame_address: u64, p: MappingPermissions, address: u64) -> Translation {
    Translation {
        physical_address: (frame_address + (address & 0xfffu64)) as u64,
        page_size: PAGE_SIZE,
        effective_writable: p.writable,
        effective_user: false,
        effective_executable: p.executable,
        cache_disable: p.cache_disable,
        write_through: p.write_through,
    }
}

/// The four slots of an address are those of its page.
pub proof fn lemma_page_slots(address: u64, page: u64)
    requires
        address & !0xfffu64 == page,
    ensures
        pml4_slot(address & !0xfffu64) == pml4_slot(page),
        pdpt_slot(address & !0xfffu64) == pdpt_slot(page),
        pd_slot(address & !0xfffu64) == pd_slot(page),
        pt_slot(address & !0xfffu64) == pt_slot(page),
{
}

/// Tables linked root -> t1 -> t2 -> t3 along `page`'s slots, ending in a
/// leaf for `frame_address` with `p`, translate every address of the page.
pub proof fn lemma_map_path_translates(
    t: Map<u64, Seq<u64>>,
    root: u64,
    width: u8,
    page: u64,
    t1: u64,
    t2: u64,
    t3: u64,
    frame_address: u64,
    p: MappingPermissions,
)
    requires
        width_supported(width),
        canonical(page),
        page % PAGE_SIZE == 0,
        frame_address % PAGE_SIZE == 0,
        frame_address & !width_mask(width) == 0,
        entry_address_ok(t1) && t1 & !width_mask(width) == 0,
        entry_address_ok(t2) && t2 & !width_mask(width) == 0,
        entry_address_ok(t3) && t3 & !width_mask(width) == 0,
        entry_of(t, root, pml4_slot(page)) == table_raw(t1),
        entry_of(t, t1, pdpt_slot(page)) == table_raw(t2),
        entry_of(t, t2, pd_slot(page)) == table_raw(t3),
        entry_of(t, t3, pt_slot(page)) == leaf_raw(frame_address, p),
    ensures
        forall|a: u64|
            (a & !0xfffu64) == page ==> #[trigger] walk_result(t, root, width, a) == Ok::<
                Option<Translation>,
                PagingError,
            >(Some(mapped_translation(frame_address, p, a))),
{
    lemma_frame_fits_entry(frame_address, width);
    lemma_table_round_trip(t1);
    lemma_table_round_trip(t2);
    lemma_table_round_trip(t3);
    lemma_leaf_round_trip(frame_address, p);
    lemma_entry_fits_width(table_raw(t1), t1, width);
    lemma_entry_fits_width(table_raw(t2), t2, width);
    lemma_entry_fits_width(table_raw(t3), t3, width);
    lemma_entry_fits_width(leaf_raw(frame_address, p), frame_address, width);
    assert forall|a: u64| (a & !0xfffu64) == page implies #[trigger] walk_result(
        t,
        root,
        width,
        a,
    ) == Ok::<Option<Translation>, PagingError>(Some(mapped_translation(frame_address, p, a))) by {
        let (e0, e1, e2, e3) = path_entries(t, root, a);
        assert(e0 == table_raw(t1));
        assert(e1 == table_raw(t2));
        assert(e2 == table_raw(t3));
        assert(e3 == leaf_raw(frame_address, p));
    }
}

/// Whether two addresses select the same four table slots.
pub open spec fn same_slots(a: u64, b: u64) -> bool {
    &&& pml4_slot(a) == pml4_slot(b)
    &&& pdpt_slot(a) == pdpt_slot(b)
    &&& pd_slot(a) == pd_slot(b)
    &&& pt_slot(a) == pt_slot(b)
}

/// The tables after linking entry `index` of `table` to the new zeroed table `c`.
pub open spec fn linked(t: Map<u64, Seq<u64>>, table: u64, index: u64, c: u64) -> Map<u64, Seq<u64>> {
    t.insert(c, Seq::new(TABLE_ENTRIES as nat, |i: int| 0u64)).insert(
        table,
        t[table].update(index as int, table_raw(c)),
    )
}

/// Structural facts every walk relies on.
pub open spec fn tables_ok(t: Map<u64, Seq<u64>>, lv: Map<u64, nat>, root: u64) -> bool {
    &&& links_ok(t, lv)
    &&& t.contains_key(root)
    &&& lv[root] == 0
    &&& forall|p: u64| #[trigger] t.contains_key(p) ==> t[p].len() == TABLE_ENTRIES
}

/// Linking an absent entry above the leaf level to a new zeroed table
/// changes no translation: the new path ends at an absent entry.
pub proof fn lemma_walk_after_link(
    t: Map<u64, Seq<u64>>,
    lv: Map<u64, nat>,
    root: u64,
    width: u8,
    table: u64,
    index: u64,
    c: u64,
    a: u64,
)
    requires
        tables_ok(t, lv, root),
        t.contains_key(table),
        lv[table] < 3,
        index < TABLE_ENTRIES,
        t[table][index as int] & ENTRY_PRESENT == 0,
        !t.contains_key(c),
        entry_address_ok(c),
        c & !width_mask(width) == 0,
        width < 64,
    ensures
        walk_result(linked(t, table, index, c), root, width, a) == walk_result(t, root, width, a),
{
    let t2 = linked(t, table, index, c);
    lemma_table_round_trip(c);
    lemma_entry_fits_width(table_raw(c), c, width);
    lemma_small_bit_facts(0);
    let page = a & !0xfffu64;
    let s0 = pml4_slot(page);
    let s1 = pdpt_slot(page);
    let s2 = pd_slot(page);
    let s3 = pt_slot(page);
    lemma_slot_bounds(page);
    let (e0, e1, e2, e3) = path_entries(t, root, a);
    let (f0, f1, f2, f3) = path_entries(t2, root, a);
    assert(root != c);
    if root == table && s0 == index {
        assert(f0 == table_raw(c));
        assert(f1 == 0);
    } else {
        assert(f0 == e0);
        if e0 & ENTRY_PRESENT != 0 {
            let q1 = e0 & ENTRY_ADDRESS_MASK;
            assert(t.contains_key(q1) && lv[q1] == 1);
            assert(q1 != c);
            if q1 == table && s1 == index {
                assert(f1 == table_raw(c));
                assert(f2 == 0);
            } else {
                assert(f1 == e1);
                if e1 & ENTRY_PRESENT != 0 {
                    let q2 = e1 & ENTRY_ADDRESS_MASK;
                    assert(t.contains_key(q2) && lv[q2] == 2);
                    assert(q2 != c);
                    if q2 == table && s2 == index {
                        assert(f2 == table_raw(c));
                        assert(f3 == 0);
                    } else {
                        assert(f2 == e2);
                        if e2 & ENTRY_PRESENT != 0 {
                            let q3 = e2 & ENTRY_ADDRESS_MASK;
                            assert(t.contains_key(q3) && lv[q3] == 3);
                            assert(q3 != c && q3 != table);
                            assert(f3 == e3);
                        }
                    }
                }
            }
        }
    }
}

/// Writing the leaf reached from `root` through `t1`, `t2`, `t3` along
/// `page`'s slots changes only the translations of addresses with the
/// same slots: the tables form a tree, so no other path reaches that entry.
pub proof fn lemma_walk_after_leaf_write(
    t: Map<u64, Seq<u64>>,
    lv: Map<u64, nat>,
    root: u64,
    width: u8,
    page: u64,
    t1: u64,
    t2: u64,
    t3: u64,
    raw: u64,
    a: u64,
)
    requires
        tables_ok(t, lv, root),
        links_unique(t, lv),
        t.contains_key(t1) && lv[t1] == 1,
        t.contains_key(t2) && lv[t2] == 2,
        t.contains_key(t3) && lv[t3] == 3,
        t[root][pml4_slot(page) as int] == table_raw(t1),
        t[t1][pdpt_slot(page) as int] == table_raw(t2),
        t[t2][pd_slot(page) as int] == table_raw(t3),
        entry_address_ok(t1) && entry_address_ok(t2) && entry_address_ok(t3),
        !same_slots(a & !0xfffu64, page),
    ensures
        walk_result(t.insert(t3, t[t3].update(pt_slot(page) as int, raw)), root, width, a)
            == walk_result(t, root, width, a),
{
    let tn = t.insert(t3, t[t3].update(pt_slot(page) as int, raw));
    lemma_table_round_trip(t1);
    lemma_table_round_trip(t2);
    lemma_table_round_trip(t3);
    let pa = a & !0xfffu64;
    let s0 = pml4_slot(pa);
    let s1 = pdpt_slot(pa);
    let s2 = pd_slot(pa);
    let s3 = pt_slot(pa);
    lemma_slot_bounds(pa);
    let p0 = pml4_slot(page);
    let p1 = pdpt_slot(page);
    let p2 = pd_slot(page);
    let p3 = pt_slot(page);
    lemma_slot_bounds(page);
    let (e0, e1, e2, e3) = path_entries(t, root, a);
    let (f0, f1, f2, f3) = path_entries(tn, root, a);
    assert(root != t3);
    assert(f0 == e0);
    if e0 & ENTRY_PRESENT != 0 {
        let q1 = e0 & ENTRY_ADDRESS_MASK;
        assert(t.contains_key(q1) && lv[q1] == 1);
        assert(q1 != t3);
        assert(f1 == e1);
        if e1 & ENTRY_PRESENT != 0 {
            let q2 = e1 & ENTRY_ADDRESS_MASK;
            assert(t.contains_key(q2) && lv[q2] == 2);
            assert(q2 != t3);
            assert(f2 == e2);
            if e2 & ENTRY_PRESENT != 0 {
                let q3 = e2 & ENTRY_ADDRESS_MASK;
                assert(t.contains_key(q3) && lv[q3] == 3);
                if q3 == t3 && s3 == p3 {
                    assert(t[t2][p2 as int] & ENTRY_ADDRESS_MASK == t3);
                    assert(t[t2][p2 as int] & ENTRY_PRESENT != 0);
                    assert(q2 == t2 && s2 == p2);
                    assert(t[t1][p1 as int] & ENTRY_ADDRESS_MASK == t2);
                    assert(q1 == t1 && s1 == p1);
                    assert(t[root][p0 as int] & ENTRY_ADDRESS_MASK == t1);
                    assert(s0 == p0);
                    assert(false);
                }
                assert(f3 == e3);
            }
        }
    }
}

/// Clearing a page whose walk succeeds returns the frame the walk reports.
pub proof fn lemma_clear_returns_translated_frame(
    m: Map<u64, Seq<u64>>,
    root: u64,
    width: u8,
    page: u64,
)
    requires
        page % PAGE_SIZE == 0,
    ensures
        match walk_result(m, root, width, page) {
            Ok(Some(tr)) => clear_result(m, root, width, page) == Ok::<u64, PagingError>(
                tr.physical_address,
            ),
            _ => true,
        },
{
    lemma_slots_of_page(page);
    let (e0, e1, e2, e3) = path_entries(m, root, page);
    lemma_entry_address_bounded(e3);
}

/// Distinct page-aligned addresses below 2^48 use different leaf slots.
pub proof fn lemma_pages_apart(a: u64, b: u64)
    requires
        a % PAGE_SIZE == 0,
        b % PAGE_SIZE == 0,
        a < 0x1_0000_0000_0000u64,
        b < 0x1_0000_0000_0000u64,
        a != b,
    ensures
        !same_slots(a, b),
{
    assert((a >> 39u64) & 0x1ff == (b >> 39u64) & 0x1ff && (a >> 30u64) & 0x1ff == (b >> 30u64)
        & 0x1ff && (a >> 21u64) & 0x1ff == (b >> 21u64) & 0x1ff && (a >> 12u64) & 0x1ff == (b
        >> 12u64) & 0x1ff ==> a == b) by (bit_vector)
        requires
            a % 4096 == 0,
            b % 4096 == 0,
            a < 0x1_0000_0000_0000u64,
            b < 0x1_0000_0000_0000u64,
    ;
}

/// Addresses of the lower half below 2^48 are canonical.
pub proof fn lemma_low_half_canonical(a: u64)
    requires
        a < 0x1_0000_0000_0000u64,
    ensures
        canonical(a),
{
    assert(a >> 48u64 == 0) by (bit_vector)
        requires
            a < 0x1_0000_0000_0000u64,
    ;
}

/// A page whose walk ends in a leaf clears to the leaf's frame, and that
/// frame is one the tables' width accepts.
pub proof fn lemma_leaf_frame(space: ActiveAddressSpace, a: u64)
    requires
        space.wf(),
        a % PAGE_SIZE == 0,
        space.translate_spec(a) is Ok,
        space.translate_spec(a)->Ok_0 is Some,
    ensures
        ({
            let t = space.translate_spec(a)->Ok_0->Some_0;
            &&& t.physical_address % PAGE_SIZE == 0
            &&& space.clear_spec(a) == Ok::<u64, PagingError>(t.physical_address)
            &&& frame_result(t.physical_address, space.spec_width()) == Ok::<PhysicalFrame, PagingError>(
                PhysicalFrame(PhysicalAddress(t.physical_address)),
            )
        }),
{
    let m = space.table_pages();
    let w = space.spec_width();
    lemma_slots_of_page(a);
    lemma_clear_returns_translated_frame(m, space.spec_root(), w, a);
    let (e0, e1, e2, e3) = path_entries(m, space.spec_root(), a);
    let f = e3 & ENTRY_ADDRESS_MASK;
    let wm = width_mask(w);
    assert(!entry_too_wide(e3, w));
    assert(f % 4096 == 0 && f & !wm == 0) by (bit_vector)
        requires
            f == e3 & 0x000f_ffff_ffff_f000u64,
            e3 & !wm & 0x000f_ffff_ffff_f000u64 == 0,
    ;
}

/// Consuming at most the next pool page keeps the rest of the fresh pages fresh.
proof fn lemma_fresh_after(a: ActiveAddressSpace, b: ActiveAddressSpace, n: int)
    requires
        n >= 1,
        a.fresh_pool_pages(n),
        b.spec_pool().spec_pages() == a.spec_pool().spec_pages(),
        b.spec_pool().spec_reserved() == a.spec_pool().spec_reserved(),
        b.spec_width() == a.spec_width(),
        b.spec_pool().spec_used() == a.spec_pool().spec_used() ==> forall|p: u64|
            #[trigger] b.table_pages().contains_key(p) ==> a.table_pages().contains_key(p),
        b.spec_pool().spec_used() == a.spec_pool().spec_used() + 1 ==> forall|p: u64|
            #[trigger] b.table_pages().contains_key(p) && !a.table_pages().contains_key(p) ==> p
                == a.spec_pool().spec_pages()[a.spec_pool().spec_used() as int],
        b.spec_pool().spec_used() == a.spec_pool().spec_used() || b.spec_pool().spec_used()
            == a.spec_pool().spec_used() + 1,
    ensures
        b.fresh_pool_pages(n - 1),
{
    let u = a.spec_pool().spec_used() as int;
    let pages = a.spec_pool().spec_pages();
    assert forall|k: int|
        b.spec_pool().spec_used() <= k < b.spec_pool().spec_used() + (n - 1) implies !b.table_pages().contains_key(
        #[trigger] b.spec_pool().spec_pages()[k],
    ) by {
        if b.spec_pool().spec_used() == u + 1 {
            assert(pages[u] != pages[k]);
        }
    }
}

/// Total pages requested by a plan.
pub open spec fn plan_page_total(s: Seq<MappingRequest>) -> int
    decreases s.len(),
{
    if s.len() == 0 {
        0
    } else {
        plan_page_total(s.drop_last()) + s.last().page_count
    }
}

/// Two addresses share every table above the leaf: the same slot at the
/// three upper levels.
pub open spec fn same_upper_slots(a: u64, b: u64) -> bool {
    &&& pml4_slot(a) == pml4_slot(b)
    &&& pdpt_slot(a) == pdpt_slot(b)
    &&& pd_slot(a) == pd_slot(b)
}

/// How many of the first `n` pages of `pages` start a run of pages that
/// share their upper tables with the page before.
pub open spec fn pool_region_starts(pages: Seq<u64>, n: int) -> int
    decreases n,
{
    if n <= 0 {
        0
    } else {
        pool_region_starts(pages, n - 1) + if n - 1 == 0 || !same_upper_slots(pages[n - 1], pages[n - 2]) {
            1int
        } else {
            0int
        }
    }
}

/// Virtual page `k` of request `r`.
pub open spec fn request_page(r: MappingRequest, k: int) -> u64 {
    (r.virtual_start + k * PAGE_SIZE) as u64
}

/// Physical frame `k` of request `r`.
pub open spec fn request_frame(r: MappingRequest, k: int) -> u64 {
    (r.physical_start + k * PAGE_SIZE) as u64
}

/// How many of the first `n` pages of request `r` start a run of pages that
/// share their upper tables with the page before.
pub open spec fn request_region_starts(r: MappingRequest, n: int) -> int
    decreases n,
{
    if n <= 0 {
        0
    } else {
        request_region_starts(r, n - 1) + if n - 1 == 0 || !same_upper_slots(
            request_page(r, n - 1),
            request_page(r, n - 2),
        ) {
            1int
        } else {
            0int
        }
    }
}

/// Region starts over every request of a plan.
pub open spec fn plan_region_starts(s: Seq<MappingRequest>) -> int
    decreases s.len(),
{
    if s.len() == 0 {
        0
    } else {
        plan_region_starts(s.drop_last()) + request_region_starts(s.last(), s.last().page_count as int)
    }
}

/// Table pages a build may need: three for every run of pages that does
/// not share its upper tables with the page mapped just before.
pub open spec fn build_table_budget(plan: Seq<MappingRequest>, pool: PageTablePagePool) -> int {
    3 * (pool_region_starts(pool.spec_pages(), pool.spec_reserved() as int) + plan_region_starts(plan))
}

/// What building tables for `plan` from `pool` needs to succeed: a root
/// page, enough further distinct pool pages the tables accept for the
/// budget, every pool page and every planned page and frame valid, all
/// pages distinct, and a mapped-page count that fits.
pub open spec fn build_ready(plan: Seq<MappingRequest>, pool: PageTablePagePool, width: u8) -> bool {
    let used = pool.spec_used() as int;
    let reserved = pool.spec_reserved() as int;
    let pages = pool.spec_pages();
    let root = pages[used];
    let budget = build_table_budget(plan, pool);
    &&& used < reserved
    &&& frame_result(root, width) is Ok
    &&& used + 1 + budget <= reserved
    &&& forall|k: int|
        used + 1 <= k < used + 1 + budget ==> #[trigger] pages[k] % PAGE_SIZE == 0 && pages[k]
            & !width_mask(width) == 0 && pages[k] != root
    &&& forall|k1: int, k2: int|
        used + 1 <= k1 < k2 < used + 1 + budget ==> #[trigger] pages[k1] != #[trigger] pages[k2]
    &&& forall|i: int|
        0 <= i < reserved ==> page_result(#[trigger] pages[i]) == Ok::<VirtualPage, PagingError>(
            VirtualPage(VirtualAddress(pages[i])),
        ) && frame_result(pages[i], width) == Ok::<PhysicalFrame, PagingError>(
            PhysicalFrame(PhysicalAddress(pages[i])),
        ) && leaf_result(PhysicalFrame(PhysicalAddress(pages[i])), rw_nx()) is Ok
    &&& forall|r: int, k: int|
        0 <= r < plan.len() && 0 <= k < plan[r].page_count ==> plan[r].physical_start + k * PAGE_SIZE
            <= u64::MAX && plan[r].virtual_start + k * PAGE_SIZE <= u64::MAX && page_result(#[trigger] request_page(plan[r], k)) == Ok::<
            VirtualPage,
            PagingError,
        >(VirtualPage(VirtualAddress(request_page(plan[r], k)))) && frame_result(
            request_frame(plan[r], k),
            width,
        ) == Ok::<PhysicalFrame, PagingError>(
            PhysicalFrame(PhysicalAddress(request_frame(plan[r], k))),
        ) && leaf_result(PhysicalFrame(PhysicalAddress(request_frame(plan[r], k))), plan[r].permissions)
            is Ok
    &&& forall|i: int, j: int|
        0 <= i < reserved && 0 <= j < reserved && i != j ==> !same_slots(
            #[trigger] pages[i],
            #[trigger] pages[j],
        )
    &&& forall|i: int, r: int, k: int|
        0 <= i < reserved && 0 <= r < plan.len() && 0 <= k < plan[r].page_count ==> !same_slots(
            #[trigger] pages[i],
            #[trigger] request_page(plan[r], k),
        )
    &&& forall|r: int, k: int, q: int, j: int|
        0 <= r < plan.len() && 0 <= k < plan[r].page_count && 0 <= q < plan.len() && 0 <= j
            < plan[q].page_count && (r != q || k != j) ==> !same_slots(
            #[trigger] request_page(plan[r], k),
            #[trigger] request_page(plan[q], j),
        )
    &&& reserved + plan_page_total(plan) <= u64::MAX
}

/// Region starts only grow with the number of pages counted.
pub proof fn lemma_pool_starts_grow(pages: Seq<u64>, i: int, n: int)
    requires
        0 <= i <= n,
    ensures
        pool_region_starts(pages, i) <= pool_region_starts(pages, n),
    decreases n - i,
{
    if i < n {
        lemma_pool_starts_grow(pages, i, n - 1);
    }
}

/// Region starts of a request only grow with the number of pages counted.
pub proof fn lemma_request_starts_grow(r: MappingRequest, i: int, n: int)
    requires
        0 <= i <= n,
    ensures
        0 <= request_region_starts(r, i) <= request_region_starts(r, n),
    decreases n,
{
    if n > 0 {
        if i < n {
            lemma_request_starts_grow(r, i, n - 1);
        } else {
            lemma_request_starts_grow(r, n - 1, n - 1);
        }
    }
}

/// Plan prefixes: the starts and page totals of the first `r + 1` requests
/// extend those of the first `r`, and never pass the whole plan's.
pub proof fn lemma_plan_prefix(s: Seq<MappingRequest>, r: int)
    requires
        0 <= r < s.len(),
    ensures
        plan_region_starts(s.take(r + 1)) == plan_region_starts(s.take(r)) + request_region_starts(
            s[r],
            s[r].page_count as int,
        ),
        plan_page_total(s.take(r + 1)) == plan_page_total(s.take(r)) + s[r].page_count,
        plan_region_starts(s.take(r + 1)) <= plan_region_starts(s),
        plan_page_total(s.take(r + 1)) <= plan_page_total(s),
        0 <= plan_region_starts(s.take(r)),
        0 <= plan_page_total(s.take(r)),
    decreases s.len() - r,
{
    assert(s.take(r + 1).drop_last() =~= s.take(r));
    assert(s.take(r + 1).last() == s[r]);
    lemma_plan_nonneg(s.take(r));
    if r + 1 < s.len() {
        lemma_plan_prefix(s, r + 1);
        lemma_request_starts_grow(s[r + 1], 0, s[r + 1].page_count as int);
    } else {
        assert(s.take(r + 1) =~= s);
    }
}

/// Starts and page totals are never negative.
pub proof fn lemma_plan_nonneg(s: Seq<MappingRequest>)
    ensures
        0 <= plan_region_starts(s),
        0 <= plan_page_total(s),
    decreases s.len(),
{
    if s.len() > 0 {
        lemma_plan_nonneg(s.drop_last());
        lemma_request_starts_grow(s.last(), 0, s.last().page_count as int);
    }
}

/// A page sharing its upper tables with a page whose leaf table exists
/// has its leaf table too.
pub proof fn lemma_upper_shared(space: ActiveAddressSpace, a: u64, b: u64)
    requires
        same_upper_slots(a, b),
        path_present(space, b),
    ensures
        path_present(space, a),
{
    lemma_slots_of_page(a);
    lemma_slots_of_page(b);
}

/// Kernel read/write, no-execute permissions.
pub open spec fn rw_nx() -> MappingPermissions {
    MappingPermissions {
        writable: true,
        executable: false,
        user: false,
        write_through: false,
        cache_disable: false,
    }
}

/// An address space whose page-table pages come from its own pool. The
/// table pages are kept as their entries, keyed by page address.
pub struct ActiveAddressSpace {
    root: PhysicalFrame,
    pool: PageTablePagePool,
    mapped_pages: u64,
    width: u8,
    tables: HashMap<u64, Vec<u64>>,
    levels: Ghost<Map<u64, nat>>,
}

impl ActiveAddressSpace {
    /// The table pages and their entries.
    pub closed spec fn table_pages(&self) -> Map<u64, Seq<u64>> {
        self.tables@.map_values(|v: Vec<u64>| v@)
    }

    /// The level of each table page (0 for the root, 3 for leaf tables).
    pub closed spec fn table_levels(&self) -> Map<u64, nat> {
        self.levels@
    }

    /// The root table's physical address.
    pub closed spec fn spec_root(&self) -> u64 {
        self.root.0.0
    }

    /// The physical-address width entries are checked against.
    pub closed spec fn spec_width(&self) -> u8 {
        self.width
    }

    /// Pages mapped while building.
    pub closed spec fn spec_mapped_pages(&self) -> u64 {
        self.mapped_pages
    }

    /// The table-page pool.
    pub closed spec fn spec_pool(&self) -> PageTablePagePool {
        self.pool
    }

    /// The next `n` unused pool pages can become tables: they are aligned,
    /// fit the physical width, are distinct, and none is a table yet.
    pub open spec fn fresh_pool_pages(&self, n: int) -> bool {
        let pool = self.spec_pool();
        &&& pool.spec_used() + n <= pool.spec_reserved()
        &&& forall|k: int|
            pool.spec_used() <= k < pool.spec_used() + n ==> {
                let p = #[trigger] pool.spec_pages()[k];
                &&& p % PAGE_SIZE == 0
                &&& p & !width_mask(self.spec_width()) == 0
                &&& !self.table_pages().contains_key(p)
            }
        &&& forall|k1: int, k2: int|
            pool.spec_used() <= k1 < k2 < pool.spec_used() + n ==> #[trigger] pool.spec_pages()[k1]
                != #[trigger] pool.spec_pages()[k2]
    }

    /// What a walk of these tables reports for `address`.
    pub open spec fn translate_spec(&self, address: u64) -> Result<Option<Translation>, PagingError> {
        walk_result(self.table_pages(), self.spec_root(), self.spec_width(), address)
    }

    /// What clearing the leaf for the page at `address` would return.
    pub open spec fn clear_spec(&self, address: u64) -> Result<u64, PagingError> {
        clear_result(self.table_pages(), self.spec_root(), self.spec_width(), address)
    }

    /// Every address of the page at `page` translates into `frame` with `p`.
    pub open spec fn maps(&self, page: u64, frame: u64, p: MappingPermissions) -> bool {
        forall|a: u64|
            (a & !0xfffu64) == page ==> #[trigger] self.translate_spec(a) == Ok::<
                Option<Translation>,
                PagingError,
            >(Some(mapped_translation(frame, p, a)))
    }

    /// Page `k` of `request` is mapped as the request asks.
    pub open spec fn maps_request_page(&self, request: MappingRequest, k: int) -> bool {
        self.maps(
            (request.virtual_start + k * PAGE_SIZE) as u64,
            (request.physical_start + k * PAGE_SIZE) as u64,
            request.permissions,
        )
    }

    /// The page at `address` is identity mapped read/write, no-execute.
    pub open spec fn maps_identity(&self, address: u64) -> bool {
        self.maps(address, address, rw_nx())
    }

    /// The tables form levels below a level-0 root and links only point one
    /// level down at known pages.
    pub closed spec fn wf(&self) -> bool {
        let t = self.table_pages();
        let lv = self.levels@;
        &&& width_supported(self.width)
        &&& self.pool.wf()
        &&& self.pool.spec_used() >= 1
        &&& forall|p: u64| #[trigger] t.contains_key(p) <==> lv.contains_key(p)
        &&& t.contains_key(self.root.0.0)
        &&& lv[self.root.0.0] == 0
        &&& forall|p: u64|
            #[trigger] t.contains_key(p) ==> t[p].len() == TABLE_ENTRIES && entry_address_ok(p)
                && p & !width_mask(self.width) == 0 && lv[p] <= 3
        &&& links_ok(t, lv)
        &&& links_unique(t, lv)
    }

    /// The root table frame.
    pub fn root(&self) -> (r: PhysicalFrame)
        ensures
            r.0.0 == self.spec_root(),
    {
        self.root
    }

    /// Pages mapped while building.
    pub fn mapped_pages(&self) -> (n: u64)
        ensures
            n == self.spec_mapped_pages(),
    {
        self.mapped_pages
    }

    /// The table-page pool.
    pub fn pool(&self) -> (p: &PageTablePagePool)
        ensures
            *p == self.spec_pool(),
            self.wf() ==> p.wf(),
    {
        &self.pool
    }

    /// The physical-address width.
    pub fn width(&self) -> (w: u8)
        ensures
            w == self.spec_width(),
    {
        self.width
    }

    /// The entries of table page `table`, in index order, when it holds a
    /// table: what has to be written to that physical page before the tables
    /// are used.
    pub fn table_entries(&self, table: u64) -> (entries: Option<Vec<u64>>)
        ensures
            entries matches Some(v) ==> self.table_pages().contains_key(table) && v@
                == self.table_pages()[table],
            entries is None ==> !self.table_pages().contains_key(table),
    {
        broadcast use vstd::std_specs::hash::group_hash_axioms;

        match self.tables.get(&table) {
            Some(stored) => {
                let mut copy: Vec<u64> = Vec::new();
                let mut index: usize = 0;
                while index < stored.len()
                    invariant
                        index <= stored@.len(),
                        copy@ == stored@.take(index as int),
                    decreases stored@.len() - index,
                {
                    copy.push(stored[index]);
                    index += 1;
                    assert(copy@ =~= stored@.take(index as int));
                }
                assert(copy@ =~= stored@);
                Some(copy)
            },
            None => None,
        }
    }

    /// The raw entry `index` of table page `table`.
    fn read_entry(&self, table: u64, index: usize) -> (raw: u64)
        ensures
            raw == entry_of(self.table_pages(), table, index as u64),
    {
        broadcast use vstd::std_specs::hash::group_hash_axioms;

        match self.tables.get(&table) {
            Some(entries) => {
                if index < entries.len() {
                    entries[index]
                } else {
                    0
                }
            },
            None => 0,
        }
    }

    /// Stores `raw` as entry `index` of the existing table page `table`.
    fn write_entry(&mut self, table: u64, index: usize, raw: u64)
        requires
            old(self).table_pages().contains_key(table),
            index < old(self).table_pages()[table].len(),
        ensures
            final(self).table_pages() == old(self).table_pages().insert(
                table,
                old(self).table_pages()[table].update(index as int, raw),
            ),
            final(self).levels@ == old(self).levels@,
            final(self).root == old(self).root,
            final(self).pool == old(self).pool,
            final(self).mapped_pages == old(self).mapped_pages,
            final(self).width == old(self).width,
    {
        broadcast use vstd::std_specs::hash::group_hash_axioms;

        let removed = self.tables.remove(&table);
        match removed {
            Some(mut entries) => {
                entries.set(index, raw);
                self.tables.insert(table, entries);
            },
            None => {},
        }
        assert(self.table_pages() =~= old(self).table_pages().insert(
            table,
            old(self).table_pages()[table].update(index as int, raw),
        ));
    }

    /// Adds the zeroed table page `page` at `level`.
    fn insert_table(&mut self, page: u64, level: Ghost<nat>)
        requires
            !old(self).table_pages().contains_key(page),
        ensures
            final(self).table_pages() == old(self).table_pages().insert(
                page,
                Seq::new(TABLE_ENTRIES as nat, |i: int| 0u64),
            ),
            final(self).levels@ == old(self).levels@.insert(page, level@),
            final(self).root == old(self).root,
            final(self).pool == old(self).pool,
            final(self).mapped_pages == old(self).mapped_pages,
            final(self).width == old(self).width,
    {
        broadcast use vstd::std_specs::hash::group_hash_axioms;

        let mut entries: Vec<u64> = Vec::new();
        while entries.len() < TABLE_ENTRIES
            invariant
                entries.len() <= TABLE_ENTRIES,
                forall|i: int| 0 <= i < entries.len() ==> #[trigger] entries@[i] == 0u64,
            decreases TABLE_ENTRIES - entries.len(),
        {
            entries.push(0);
        }
        assert(entries@ =~= Seq::new(TABLE_ENTRIES as nat, |i: int| 0u64));
        self.tables.insert(page, entries);
        self.levels = Ghost(self.levels@.insert(page, level@));
        assert(self.table_pages() =~= old(self).table_pages().insert(
            page,
            Seq::new(TABLE_ENTRIES as nat, |i: int| 0u64),
        ));
    }

    /// Every present entry above the leaf level of `self` is still in
    /// `after`, in a table of the same level.
    pub closed spec fn upper_entries_kept(&self, after: ActiveAddressSpace) -> bool {
        forall|p: u64, i: int|
            #![trigger self.table_pages()[p][i]]
            self.table_pages().contains_key(p) && self.levels@[p] < 3 && 0 <= i < TABLE_ENTRIES
                && self.table_pages()[p][i] & ENTRY_PRESENT != 0 ==> after.table_pages().contains_key(p)
                && after.levels@[p] == self.levels@[p] && after.table_pages()[p][i]
                == self.table_pages()[p][i]
    }

    /// Follows entry `index` of `table` to the next-level table, first
    /// linking a zeroed table taken from the pool when the entry is absent;
    /// a pool page that already holds a table is refused.
    fn next_table(&mut self, table: u64, index: usize, level: Ghost<nat>) -> (result: Result<
        u64,
        PagingError,
    >)
        requires
            old(self).wf(),
            old(self).table_pages().contains_key(table),
            old(self).levels@[table] == level@,
            level@ < 3,
            index < TABLE_ENTRIES,
        ensures
            final(self).wf(),
            final(self).root == old(self).root,
            final(self).width == old(self).width,
            final(self).mapped_pages == old(self).mapped_pages,
            final(self).pool.spec_pages() == old(self).pool.spec_pages(),
            final(self).pool.spec_reserved() == old(self).pool.spec_reserved(),
            final(self).pool.spec_used() >= old(self).pool.spec_used(),
            forall|p: u64|
                #[trigger] old(self).table_pages().contains_key(p) ==> final(self).table_pages().contains_key(p) && final(self).levels@[p] == old(self).levels@[p],
            forall|p: u64|
                #[trigger] old(self).table_pages().contains_key(p) && p != table ==> final(self).table_pages()[p] == old(self).table_pages()[p],
            forall|j: int|
                0 <= j < TABLE_ENTRIES && j != index ==> #[trigger] final(self).table_pages()[table][j] == old(self).table_pages()[table][j],
            old(self).table_pages()[table][index as int] & ENTRY_PRESENT != 0 ==> final(self).table_pages() == old(self).table_pages(),
            old(self).table_pages()[table][index as int] & ENTRY_PRESENT == 0 ==> (result matches Ok(next)
                ==> !old(self).table_pages().contains_key(next) && forall|j: int|
                0 <= j < TABLE_ENTRIES ==> #[trigger] final(self).table_pages()[next][j] == 0),
            forall|p: u64|
                #[trigger] final(self).table_pages().contains_key(p) && !old(self).table_pages().contains_key(p) ==> result == Ok::<u64, PagingError>(p) && old(self).table_pages()[table][index as int] & ENTRY_PRESENT == 0 && forall|j: int|
                    0 <= j < TABLE_ENTRIES ==> #[trigger] final(self).table_pages()[p][j] == 0,
            forall|a: u64|
                #[trigger] walk_result(final(self).table_pages(), final(self).root.0.0, final(self).width, a)
                    == walk_result(old(self).table_pages(), old(self).root.0.0, old(self).width, a),
            result matches Ok(next) ==> {
                &&& final(self).table_pages().contains_key(next)
                &&& final(self).levels@[next] == level@ + 1
                &&& final(self).table_pages()[table][index as int] == table_raw(next)
                &&& entry_address_ok(next)
                &&& next & !width_mask(final(self).width) == 0
            },
            old(self).table_pages()[table][index as int] & ENTRY_PRESENT != 0 ==> result is Ok
                && final(self).pool.spec_used() == old(self).pool.spec_used(),
            old(self).table_pages()[table][index as int] & ENTRY_PRESENT == 0 && old(self).fresh_pool_pages(1)
                ==> result == Ok::<u64, PagingError>(old(self).pool.spec_pages()[old(self).pool.spec_used() as int])
                && final(self).pool.spec_used() == old(self).pool.spec_used() + 1,
            old(self).upper_entries_kept(*final(self)),
            old(self).table_pages()[table][index as int] & ENTRY_PRESENT != 0 ==> final(self).pool
                == old(self).pool,
    {
        let ghost t = self.table_pages();
        let ghost lv = self.levels@;
        let raw = self.read_entry(table, index);
        let entry = PageTableEntry(raw);
        if entry.is_present() {
            let ghost next = raw & ENTRY_ADDRESS_MASK;
            proof {
                assert(t[table][index as int] == raw);
                assert(raw == table_raw(next) && t.contains_key(next) && lv[next] == lv[table] + 1);
                lemma_table_round_trip(next);
                lemma_entry_fits_width(raw, next, self.width);
            }
            if entry.is_huge() {
                return Err(PagingError::UnexpectedHugePage);
            }
            return entry.address(self.width);
        }
        let child_page = match self.pool.take() {
            Ok(p) => p,
            Err(e) => return Err(e),
        };
        let child = match PhysicalFrame::new(child_page, self.width) {
            Ok(f) => f,
            Err(e) => return Err(e),
        };
        let c = child.address();
        if self.tables.contains_key(&c) {
            return Err(PagingError::PageTablePageAlreadyUsed);
        }
        proof {
            lemma_frame_fits_entry(c, self.width);
            lemma_table_round_trip(c);
            assert(!t.contains_key(c));
        }
        self.insert_table(c, Ghost((level@ + 1) as nat));
        let link = PageTableEntry::table(child).raw();
        self.write_entry(table, index, link);
        proof {
            let t2 = self.table_pages();
            let lv2 = self.levels@;
            assert(t2 == t.insert(c, Seq::new(TABLE_ENTRIES as nat, |i: int| 0u64)).insert(
                table,
                t[table].update(index as int, link),
            ));
            assert(lv2 == lv.insert(c, (level@ + 1) as nat));
            assert(table != c);
            assert forall|p: u64, i: int|
                #![trigger t2[p][i]]
                t2.contains_key(p) && lv2[p] < 3 && 0 <= i < TABLE_ENTRIES && t2[p][i]
                    & ENTRY_PRESENT != 0 implies t2[p][i] == table_raw(
                t2[p][i] & ENTRY_ADDRESS_MASK,
            ) && t2.contains_key(t2[p][i] & ENTRY_ADDRESS_MASK) && lv2[t2[p][i]
                & ENTRY_ADDRESS_MASK] == lv2[p] + 1 by {
                if p == c {
                    assert(t2[p][i] == 0u64);
                    lemma_small_bit_facts(0);
                } else if p == table && i == index {
                    assert(t2[p][i] == link);
                } else {
                    assert(t2[p][i] == t[p][i]);
                    assert(t.contains_key(p));
                    let q = t[p][i] & ENTRY_ADDRESS_MASK;
                    assert(t.contains_key(q));
                    assert(q != c);
                }
            }
            assert(links_ok(t2, lv2));
            assert(t2 == linked(t, table, index as u64, c));
            assert forall|a: u64|
                #[trigger] walk_result(t2, self.root.0.0, self.width, a) == walk_result(
                    t,
                    self.root.0.0,
                    self.width,
                    a,
                ) by {
                lemma_walk_after_link(t, lv, self.root.0.0, self.width, table, index as u64, c, a);
            }
            assert forall|p1: u64, i1: int, p2: u64, i2: int|
                #![trigger t2[p1][i1], t2[p2][i2]]
                t2.contains_key(p1) && t2.contains_key(p2) && lv2[p1] < 3 && lv2[p2] < 3 && 0 <= i1
                    < TABLE_ENTRIES && 0 <= i2 < TABLE_ENTRIES && t2[p1][i1] & ENTRY_PRESENT != 0
                    && t2[p2][i2] & ENTRY_PRESENT != 0 && t2[p1][i1] & ENTRY_ADDRESS_MASK
                    == t2[p2][i2] & ENTRY_ADDRESS_MASK implies p1 == p2 && i1 == i2 by {
                lemma_small_bit_facts(0);
                if p1 == c {
                    assert(t2[p1][i1] == 0u64);
                } else if p2 == c {
                    assert(t2[p2][i2] == 0u64);
                } else {
                    let new1 = p1 == table && i1 == index;
                    let new2 = p2 == table && i2 == index;
                    if new1 && !new2 {
                        assert(t2[p2][i2] == t[p2][i2]);
                        assert(t.contains_key(t[p2][i2] & ENTRY_ADDRESS_MASK));
                    } else if new2 && !new1 {
                        assert(t2[p1][i1] == t[p1][i1]);
                        assert(t.contains_key(t[p1][i1] & ENTRY_ADDRESS_MASK));
                    } else if !new1 && !new2 {
                        assert(t2[p1][i1] == t[p1][i1]);
                        assert(t2[p2][i2] == t[p2][i2]);
                    }
                }
            }
            assert(links_unique(t2, lv2));
            assert forall|p: u64| #[trigger]
                t2.contains_key(p) implies t2[p].len() == TABLE_ENTRIES && entry_address_ok(p) && p
                & !width_mask(self.width) == 0 && lv2[p] <= 3 by {
                if p != c {
                    assert(t.contains_key(p));
                }
            }
        }
        Ok(c)
    }

    /// Maps `page` to `frame` with `permissions`, creating missing tables
    /// from the pool. An identical existing leaf is reported as already
    /// present; a different one is refused.
    #[verifier::rlimit(80)]
    #[verifier::spinoff_prover]
    pub fn map_page(
        &mut self,
        page: VirtualPage,
        frame: PhysicalFrame,
        permissions: MappingPermissions,
    ) -> (result: Result<MapOutcome, PagingError>)
        requires
            old(self).wf(),
        ensures
            final(self).wf(),
            final(self).spec_root() == old(self).spec_root(),
            final(self).spec_width() == old(self).spec_width(),
            final(self).spec_mapped_pages() == if result == Ok::<MapOutcome, PagingError>(
                MapOutcome::Created,
            ) && old(self).spec_mapped_pages() < u64::MAX {
                (old(self).spec_mapped_pages() + 1) as u64
            } else {
                old(self).spec_mapped_pages()
            },
            final(self).spec_pool().spec_pages() == old(self).spec_pool().spec_pages(),
            final(self).spec_pool().spec_reserved() == old(self).spec_pool().spec_reserved(),
            result is Ok ==> leaf_result(frame, permissions) is Ok,
            result == Ok::<MapOutcome, PagingError>(MapOutcome::AlreadyPresent) ==> final(self).table_pages() == old(self).table_pages(),
            result == Ok::<MapOutcome, PagingError>(MapOutcome::Created) ==> forall|a: u64|
                same_slots(a, page.0.0) ==> !(#[trigger] old(self).translate_spec(a) matches Ok(Some(_))),
            result is Err ==> forall|a: u64|
                #[trigger] final(self).translate_spec(a) == old(self).translate_spec(a),
            old(self).translate_spec(page.0.0) == Ok::<Option<Translation>, PagingError>(None)
                && leaf_result(frame, permissions) is Ok && old(self).fresh_pool_pages(3) ==> result
                == Ok::<MapOutcome, PagingError>(MapOutcome::Created),
            result is Ok ==> forall|n: int|
                3 <= n && #[trigger] old(self).fresh_pool_pages(n) ==> final(self).fresh_pool_pages(n - 3),
            forall|a: u64|
                !same_slots(a, page.0.0) ==> #[trigger] final(self).translate_spec(a) == old(self).translate_spec(a),
            forall|a: u64|
                (old(self).translate_spec(a) matches Ok(Some(_))) ==> #[trigger] final(self).translate_spec(a)
                    == old(self).translate_spec(a),
            result is Ok && page_result(page.0.0) == Ok::<VirtualPage, PagingError>(page)
                && frame_result(frame.0.0, old(self).spec_width()) == Ok::<
                PhysicalFrame,
                PagingError,
            >(frame) ==> forall|a: u64|
                (a & !0xfffu64) == page.0.0 ==> #[trigger] final(self).translate_spec(a) == Ok::<
                    Option<Translation>,
                    PagingError,
                >(Some(mapped_translation(frame.0.0, permissions, a))),
            old(self).upper_entries_kept(*final(self)),
            result is Ok ==> path_present(*final(self), page.0.0),
            path_present(*old(self), page.0.0) && old(self).translate_spec(page.0.0) == Ok::<
                Option<Translation>,
                PagingError,
            >(None) && leaf_result(frame, permissions) is Ok ==> result == Ok::<MapOutcome, PagingError>(
                MapOutcome::Created,
            ),
            path_present(*old(self), page.0.0) ==> forall|n: int|
                #[trigger] old(self).fresh_pool_pages(n) ==> final(self).fresh_pool_pages(n),
    {
        let address = page.address();
        let root = self.root.address();
        let i0 = pml4_index(address);
        let i1 = pdpt_index(address);
        let i2 = page_directory_index(address);
        let i3 = page_table_index(address);
        let ghost s0 = self.table_pages();
        let ghost a0 = *self;
        proof {
            lemma_slots_of_page(address);
            lemma_slot_bounds(address);
            if path_present(a0, address) {
                assert(s0[root][i0 as int] & ENTRY_PRESENT != 0);
            }
        }
        let t1 = match self.next_table(root, i0, Ghost(0)) {
            Ok(t) => t,
            Err(e) => return Err(e),
        };
        let ghost s1 = self.table_pages();
        let ghost a1 = *self;
        proof {
            if a0.fresh_pool_pages(3) {
                lemma_fresh_after(a0, a1, 3);
            }
            if path_present(a0, address) {
                assert(s1 == s0);
                lemma_table_round_trip(t1);
                assert(s0[root][i0 as int] & ENTRY_ADDRESS_MASK == t1);
                assert(s1[t1][i1 as int] & ENTRY_PRESENT != 0);
            }
        }
        let t2 = match self.next_table(t1, i1, Ghost(1)) {
            Ok(t) => t,
            Err(e) => return Err(e),
        };
        let ghost s2 = self.table_pages();
        let ghost a2 = *self;
        proof {
            lemma_kept_trans(a0, a1, a2);
            if path_present(a0, address) {
                assert(s2 == s1);
                lemma_table_round_trip(t2);
                assert(s1[t1][i1 as int] & ENTRY_ADDRESS_MASK == t2);
                assert(s2[t2][i2 as int] & ENTRY_PRESENT != 0);
            }
            if a0.fresh_pool_pages(3) {
                lemma_fresh_after(a1, a2, 2);
            }
        }
        let t3 = match self.next_table(t2, i2, Ghost(2)) {
            Ok(t) => t,
            Err(e) => return Err(e),
        };
        let ghost s3 = self.table_pages();
        let ghost a3 = *self;
        proof {
            lemma_kept_trans(a0, a2, a3);
            lemma_slots_of_page(address);
            lemma_slot_bounds(address);
            if path_present(a0, address) {
                assert(s0[root][i0 as int] & ENTRY_PRESENT != 0);
                assert(s1 == s0);
                assert(a1.pool == a0.pool);
                lemma_table_round_trip(t1);
                assert(s1[t1][i1 as int] & ENTRY_PRESENT != 0);
                assert(s2 == s1);
                assert(a2.pool == a1.pool);
                lemma_table_round_trip(t2);
                assert(s2[t2][i2 as int] & ENTRY_PRESENT != 0);
                assert(s3 == s2);
                assert(a3.pool == a2.pool);
            }
        }
        proof {
            assert forall|n: int| 3 <= n && #[trigger] a0.fresh_pool_pages(n) implies a3.fresh_pool_pages(n - 3) by {
                assert(a0.fresh_pool_pages(1));
                lemma_fresh_after(a0, a1, n);
                assert(a1.fresh_pool_pages(1));
                lemma_fresh_after(a1, a2, n - 1);
                assert(a2.fresh_pool_pages(1));
                lemma_fresh_after(a2, a3, n - 2);
            }
        }
        proof {
            if a0.translate_spec(address) == Ok::<Option<Translation>, PagingError>(None) {
                lemma_small_bit_facts(0);
                lemma_slots_of_page(address);
                if s0[root][i0 as int] & ENTRY_PRESENT == 0 {
                    assert(s1[t1][i1 as int] == 0);
                }
                if s1[t1][i1 as int] & ENTRY_PRESENT == 0 {
                    assert(s2[t2][i2 as int] == 0);
                }
                if s2[t2][i2 as int] & ENTRY_PRESENT == 0 {
                    assert(s3[t3][i3 as int] == 0);
                }
                if s0[root][i0 as int] & ENTRY_PRESENT != 0 && s1[t1][i1 as int] & ENTRY_PRESENT != 0
                    && s2[t2][i2 as int] & ENTRY_PRESENT != 0 {
                    let (e0, e1, e2, e3) = path_entries(s0, root, address);
                    assert(s1 == s0);
                    assert(s0[root][i0 as int] == e0);
                    lemma_table_round_trip(t1);
                    assert(e0 & ENTRY_ADDRESS_MASK == t1);
                    assert(s2 == s1);
                    assert(s1[t1][i1 as int] == e1);
                    lemma_table_round_trip(t2);
                    assert(s3 == s2);
                    assert(s2[t2][i2 as int] == e2);
                    lemma_table_round_trip(t3);
                    assert(s3[t3][i3 as int] == e3);
                }
            }
        }
        let new = match PageTableEntry::leaf(frame, permissions) {
            Ok(e) => e,
            Err(e) => return Err(e),
        };
        let old_raw = self.read_entry(t3, i3);
        let outcome = if old_raw & ENTRY_PRESENT != 0 {
            if old_raw == new.raw() {
                MapOutcome::AlreadyPresent
            } else {
                return Err(PagingError::AlreadyMapped);
            }
        } else {
            self.write_entry(t3, i3, new.raw());
            if self.mapped_pages < u64::MAX {
                self.mapped_pages = self.mapped_pages + 1;
            }
            MapOutcome::Created
        };
        proof {
            let t = self.table_pages();
            assert forall|n: int| 3 <= n && #[trigger] a0.fresh_pool_pages(n) implies self.fresh_pool_pages(n - 3) by {
                assert(a3.fresh_pool_pages(n - 3));
                assert forall|p: u64| #[trigger] t.contains_key(p) <==> s3.contains_key(p) by {}
            }
            if outcome == MapOutcome::AlreadyPresent {
                lemma_small_bit_facts(0);
                assert(t == s3);
                if s2[t2][i2 as int] & ENTRY_PRESENT == 0 {
                    assert(s3[t3][i3 as int] == 0);
                }
                assert(s3 == s2);
                if s1[t1][i1 as int] & ENTRY_PRESENT == 0 {
                    assert(s2[t2][i2 as int] == 0);
                }
                assert(s2 == s1);
                if s0[root][i0 as int] & ENTRY_PRESENT == 0 {
                    assert(s1[t1][i1 as int] == 0);
                }
                assert(s1 == s0);
            }
            assert(root != t1 && root != t2 && root != t3 && t1 != t2 && t1 != t3 && t2 != t3);
            if outcome == MapOutcome::Created {
                let lv = self.levels@;
                assert(t == s3.insert(t3, s3[t3].update(i3 as int, new.0)));
                assert(s3[root][i0 as int] == table_raw(t1));
                assert(s3[t1][i1 as int] == table_raw(t2));
                assert(s3[t2][i2 as int] == table_raw(t3));
                lemma_slots_of_page(address);
                assert forall|a: u64| !same_slots(a, address) implies #[trigger] walk_result(
                    t,
                    root,
                    self.width,
                    a,
                ) == walk_result(s3, root, self.width, a) by {
                    lemma_slots_of_page(a);
                    lemma_walk_after_leaf_write(
                        s3,
                        lv,
                        root,
                        self.width,
                        address,
                        t1,
                        t2,
                        t3,
                        new.0,
                        a,
                    );
                }
                assert forall|a: u64|
                    same_slots(a, address) implies !(#[trigger] walk_result(
                    s0,
                    root,
                    self.width,
                    a,
                ) matches Ok(Some(_))) by {
                    lemma_slots_of_page(a);
                    if walk_result(s0, root, self.width, a) matches Ok(Some(_)) {
                        let (e0, e1, e2, e3) = path_entries(s0, root, a);
                        assert(s0[root][i0 as int] == e0);
                        assert(s1 == s0);
                        lemma_table_round_trip(t1);
                        assert(e0 & ENTRY_ADDRESS_MASK == t1);
                        assert(s1[t1][i1 as int] == e1);
                        assert(s2 == s1);
                        lemma_table_round_trip(t2);
                        assert(s2[t2][i2 as int] == e2);
                        assert(s3 == s2);
                        lemma_table_round_trip(t3);
                        assert(s3[t3][i3 as int] == e3);
                        assert(false);
                    }
                }
            }
            assert(t[root][i0 as int] == table_raw(t1));
            assert(t[t1][i1 as int] == table_raw(t2));
            assert(t[t2][i2 as int] == table_raw(t3));
            assert(t[t3][i3 as int] == new.0);
            lemma_table_round_trip(t1);
            lemma_table_round_trip(t2);
            lemma_table_round_trip(t3);
            assert(path_present(*self, address));
            assert forall|p: u64, i: int|
                #![trigger a3.table_pages()[p][i]]
                a3.table_pages().contains_key(p) && a3.levels@[p] < 3 && 0 <= i < TABLE_ENTRIES
                    && a3.table_pages()[p][i] & ENTRY_PRESENT != 0 implies self.table_pages().contains_key(p)
                && self.levels@[p] == a3.levels@[p] && self.table_pages()[p][i] == a3.table_pages()[p][i] by {
                assert(p != t3);
            }
            assert(a3.upper_entries_kept(*self));
            lemma_kept_trans(a0, a3, *self);
            if page_result(page.0.0) == Ok::<VirtualPage, PagingError>(page) && frame_result(
                frame.0.0,
                self.width,
            ) == Ok::<PhysicalFrame, PagingError>(frame) {
                lemma_map_path_translates(
                    t,
                    root,
                    self.width,
                    address,
                    t1,
                    t2,
                    t3,
                    frame.0.0,
                    permissions,
                );
            }
        }
        Ok(outcome)
    }

    /// Clears the leaf that maps `page` and returns the frame it held.
    pub fn unmap_page(&mut self, page: VirtualPage) -> (result: Result<PhysicalFrame, PagingError>)
        requires
            old(self).wf(),
        ensures
            final(self).wf(),
            final(self).spec_root() == old(self).spec_root(),
            final(self).spec_width() == old(self).spec_width(),
            final(self).spec_mapped_pages() == if result is Ok && old(self).spec_mapped_pages() > 0 {
                (old(self).spec_mapped_pages() - 1) as u64
            } else {
                old(self).spec_mapped_pages()
            },
            match old(self).clear_spec(page.0.0) {
                Ok(f) => result == Ok::<PhysicalFrame, PagingError>(PhysicalFrame(PhysicalAddress(f))),
                Err(e) => result == Err::<PhysicalFrame, PagingError>(e) && final(self).table_pages()
                    == old(self).table_pages(),
            },
            forall|a: u64|
                !same_slots(a, page.0.0) ==> #[trigger] final(self).translate_spec(a) == old(self).translate_spec(a),
            result is Ok ==> forall|a: u64|
                same_slots(a, page.0.0) ==> !(#[trigger] final(self).translate_spec(a) matches Ok(Some(_))),
            result is Ok && canonical(page.0.0 & !0xfffu64) ==> forall|a: u64|
                (a & !0xfffu64) == (page.0.0 & !0xfffu64) ==> #[trigger] final(self).translate_spec(
                    a,
                ) == Ok::<Option<Translation>, PagingError>(None),
            old(self).upper_entries_kept(*final(self)),
    {
        let address = page.address();
        proof {
            lemma_slots_of_page(address);
        }
        let root = self.root.address();
        let e0 = PageTableEntry(self.read_entry(root, pml4_index(address)));
        if !e0.is_present() {
            return Err(PagingError::NotMapped);
        }
        if e0.is_huge() {
            return Err(PagingError::UnexpectedHugePage);
        }
        let t1 = match e0.address(self.width) {
            Ok(a) => a,
            Err(e) => return Err(e),
        };
        let e1 = PageTableEntry(self.read_entry(t1, pdpt_index(address)));
        if !e1.is_present() {
            return Err(PagingError::NotMapped);
        }
        if e1.is_huge() {
            return Err(PagingError::UnexpectedHugePage);
        }
        let t2 = match e1.address(self.width) {
            Ok(a) => a,
            Err(e) => return Err(e),
        };
        let e2 = PageTableEntry(self.read_entry(t2, page_directory_index(address)));
        if !e2.is_present() {
            return Err(PagingError::NotMapped);
        }
        if e2.is_huge() {
            return Err(PagingError::UnexpectedHugePage);
        }
        let t3 = match e2.address(self.width) {
            Ok(a) => a,
            Err(e) => return Err(e),
        };
        let i3 = page_table_index(address);
        let leaf = PageTableEntry(self.read_entry(t3, i3));
        if !leaf.is_present() {
            return Err(PagingError::NotMapped);
        }
        let frame_address = match leaf.address(self.width) {
            Ok(a) => a,
            Err(e) => return Err(e),
        };
        proof {
            lemma_entry_address_fits(leaf.0, self.width);
        }
        let frame = match PhysicalFrame::new(frame_address, self.width) {
            Ok(f) => f,
            Err(e) => return Err(e),
        };
        let ghost t = self.table_pages();
        let ghost lv = self.levels@;
        proof {
            assert(t.contains_key(root) && lv[root] == 0);
            assert(t[root][pml4_slot(address) as int] == e0.0);
            assert(t.contains_key(t1) && lv[t1] == 1);
            assert(t[t1][pdpt_slot(address) as int] == e1.0);
            assert(t.contains_key(t2) && lv[t2] == 2);
            assert(t[t2][pd_slot(address) as int] == e2.0);
            assert(t.contains_key(t3) && lv[t3] == 3);
        }
        self.write_entry(t3, i3, 0);
        if self.mapped_pages > 0 {
            self.mapped_pages = self.mapped_pages - 1;
        }
        proof {
            let t2n = self.table_pages();
            lemma_small_bit_facts(0);
            assert forall|p: u64, i: int|
                #![trigger t2n[p][i]]
                t2n.contains_key(p) && lv[p] < 3 && 0 <= i < TABLE_ENTRIES && t2n[p][i]
                    & ENTRY_PRESENT != 0 implies t2n[p][i] == table_raw(
                t2n[p][i] & ENTRY_ADDRESS_MASK,
            ) && t2n.contains_key(t2n[p][i] & ENTRY_ADDRESS_MASK) && lv[t2n[p][i]
                & ENTRY_ADDRESS_MASK] == lv[p] + 1 by {
                assert(p != t3);
                assert(t2n[p][i] == t[p][i]);
            }
            assert forall|p1: u64, i1: int, p2: u64, i2: int|
                #![trigger t2n[p1][i1], t2n[p2][i2]]
                t2n.contains_key(p1) && t2n.contains_key(p2) && lv[p1] < 3 && lv[p2] < 3 && 0
                    <= i1 < TABLE_ENTRIES && 0 <= i2 < TABLE_ENTRIES && t2n[p1][i1]
                    & ENTRY_PRESENT != 0 && t2n[p2][i2] & ENTRY_PRESENT != 0 && t2n[p1][i1]
                    & ENTRY_ADDRESS_MASK == t2n[p2][i2] & ENTRY_ADDRESS_MASK implies p1 == p2
                && i1 == i2 by {
                assert(t2n[p1][i1] == t[p1][i1]);
                assert(t2n[p2][i2] == t[p2][i2]);
            }
            assert(t[t1][pdpt_slot(address) as int] == table_raw(t2));
            assert forall|a: u64| !same_slots(a, address) implies #[trigger] walk_result(
                t2n,
                root,
                self.width,
                a,
            ) == walk_result(t, root, self.width, a) by {
                lemma_slots_of_page(a);
                lemma_walk_after_leaf_write(t, lv, root, self.width, address, t1, t2, t3, 0, a);
            }
            assert forall|a: u64|
                (a & !0xfffu64) == (address & !0xfffu64) && canonical(
                    address & !0xfffu64,
                ) implies #[trigger] walk_result(t2n, root, self.width, a) == Ok::<
                Option<Translation>,
                PagingError,
            >(None) by {
                lemma_slots_of_page(a);
                assert(t2n[root] == t[root]);
                assert(t2n[t1] == t[t1]);
                assert(t2n[t2] == t[t2]);
                assert(t2n[t3][i3 as int] == 0u64);
            }
            assert forall|a: u64| same_slots(a, address) implies !(#[trigger] walk_result(
                t2n,
                root,
                self.width,
                a,
            ) matches Ok(Some(_))) by {
                lemma_slots_of_page(a);
                assert(t2n[root] == t[root]);
                assert(t2n[t1] == t[t1]);
                assert(t2n[t2] == t[t2]);
                assert(t2n[t3][i3 as int] == 0u64);
            }
        }
        Ok(frame)
    }

    /// Walks the tables for `virtual_address`: `None` when some level is not
    /// present; large pages and entries wider than the address width are refused.
    pub fn translate(&self, virtual_address: u64) -> (result: Result<Option<Translation>, PagingError>)
        requires
            self.wf(),
        ensures
            result == self.translate_spec(virtual_address),
    {
        let aligned = align_down(virtual_address);
        let page = match VirtualPage::new(aligned) {
            Ok(p) => p,
            Err(e) => return Err(e),
        };
        let address = page.address();
        let e0 = PageTableEntry(self.read_entry(self.root.address(), pml4_index(address)));
        if !e0.is_present() {
            return Ok(None);
        }
        if e0.is_huge() {
            return Err(PagingError::UnexpectedHugePage);
        }
        let t1 = match e0.address(self.width) {
            Ok(a) => a,
            Err(e) => return Err(e),
        };
        let e1 = PageTableEntry(self.read_entry(t1, pdpt_index(address)));
        if !e1.is_present() {
            return Ok(None);
        }
        if e1.is_huge() {
            return Err(PagingError::UnexpectedHugePage);
        }
        let t2 = match e1.address(self.width) {
            Ok(a) => a,
            Err(e) => return Err(e),
        };
        let e2 = PageTableEntry(self.read_entry(t2, page_directory_index(address)));
        if !e2.is_present() {
            return Ok(None);
        }
        if e2.is_huge() {
            return Err(PagingError::UnexpectedHugePage);
        }
        let t3 = match e2.address(self.width) {
            Ok(a) => a,
            Err(e) => return Err(e),
        };
        let e3 = PageTableEntry(self.read_entry(t3, page_table_index(address)));
        if !e3.is_present() {
            return Ok(None);
        }
        if e3.is_huge() {
            return Err(PagingError::UnexpectedHugePage);
        }
        let frame = match e3.address(self.width) {
            Ok(a) => a,
            Err(e) => return Err(e),
        };
        proof {
            lemma_entry_address_bounded(e3.0);
        }
        let physical = match frame.checked_add(page_offset(virtual_address)) {
            Some(v) => v,
            None => return Err(PagingError::AddressOverflow),
        };
        Ok(
            Some(
                Translation {
                    physical_address: physical,
                    page_size: PAGE_SIZE,
                    effective_writable: e0.writable() && e1.writable() && e2.writable()
                        && e3.writable(),
                    effective_user: e0.user() && e1.user() && e2.user() && e3.user(),
                    effective_executable: e0.executable() && e1.executable() && e2.executable()
                        && e3.executable(),
                    cache_disable: e0.cache_disable() || e1.cache_disable() || e2.cache_disable()
                        || e3.cache_disable(),
                    write_through: e0.write_through() || e1.write_through() || e2.write_through()
                        || e3.write_through(),
                },
            ),
        )
    }
}


/// Unmapping a page that is mapped to `frame` returns `frame`: a mapping
/// read back by unmapping gives what was written.
pub proof fn lemma_map_unmap_round_trip(
    space: ActiveAddressSpace,
    page: u64,
    frame: u64,
    permissions: MappingPermissions,
)
    requires
        page % PAGE_SIZE == 0,
        space.maps(page, frame, permissions),
    ensures
        space.clear_spec(page) == Ok::<u64, PagingError>(frame),
{
    lemma_slots_of_page(page);
    assert(space.translate_spec(page) == Ok::<Option<Translation>, PagingError>(
        Some(mapped_translation(frame, permissions, page)),
    ));
    lemma_clear_returns_translated_frame(
        space.table_pages(),
        space.spec_root(),
        space.spec_width(),
        page,
    );
}

/// A page mapping survives any change that keeps every existing translation.
pub proof fn lemma_maps_preserved(
    before: ActiveAddressSpace,
    after: ActiveAddressSpace,
    page: u64,
    frame: u64,
    p: MappingPermissions,
)
    requires
        before.maps(page, frame, p),
        forall|a: u64|
            (before.translate_spec(a) matches Ok(Some(_))) ==> #[trigger] after.translate_spec(a)
                == before.translate_spec(a),
    ensures
        after.maps(page, frame, p),
{
    assert forall|a: u64| (a & !0xfffu64) == page implies #[trigger] after.translate_spec(a)
        == Ok::<Option<Translation>, PagingError>(Some(mapped_translation(frame, p, a))) by {
        assert(before.translate_spec(a) == Ok::<Option<Translation>, PagingError>(
            Some(mapped_translation(frame, p, a)),
        ));
    }
}

/// Builds an address space from `pool`: its next page becomes the zeroed
/// root, every reserved pool page is identity mapped read/write
/// no-execute, then every page of every planned request is mapped.
#[verifier::rlimit(100)]
#[verifier::spinoff_prover]
pub fn build(plan: &MappingPlan, pool: PageTablePagePool, width: u8) -> (result: Result<
    ActiveAddressSpace,
    PagingError,
>)
    requires
        pool.wf(),
    ensures
        result matches Ok(space) ==> {
            &&& space.wf()
            &&& space.spec_width() == width
            &&& space.spec_root() == pool.spec_pages()[pool.spec_used() as int]
            &&& space.spec_mapped_pages() == pool.spec_reserved() + plan_page_total(plan@)
            &&& forall|i: int|
                0 <= i < pool.spec_reserved() ==> #[trigger] space.maps_identity(
                    pool.spec_pages()[i],
                )
            &&& forall|r: int, k: int|
                0 <= r < plan@.len() && 0 <= k < plan@[r].page_count
                    ==> #[trigger] space.maps_request_page(plan@[r], k)
        },
        pool.spec_used() >= pool.spec_reserved() ==> result == Err::<ActiveAddressSpace, PagingError>(
            PagingError::PageTablePoolExhausted,
        ),
        pool.spec_used() < pool.spec_reserved() ==> (frame_result(
            pool.spec_pages()[pool.spec_used() as int],
            width,
        ) matches Err(e) ==> result == Err::<ActiveAddressSpace, PagingError>(e)),
        build_ready(plan@, pool, width) ==> result is Ok,
{
    broadcast use vstd::std_specs::hash::group_hash_axioms;

    let mut table_pool = pool;
    let root_page = match table_pool.take() {
        Ok(p) => p,
        Err(e) => return Err(e),
    };
    let root = match PhysicalFrame::new(root_page, width) {
        Ok(f) => f,
        Err(e) => return Err(e),
    };
    proof {
        lemma_frame_fits_entry(root.0.0, width);
    }
    let mut space = ActiveAddressSpace {
        root,
        pool: table_pool,
        mapped_pages: 0,
        width,
        tables: HashMap::new(),
        levels: Ghost(Map::empty()),
    };
    assert(space.table_pages() =~= Map::<u64, Seq<u64>>::empty());
    space.insert_table(root.address(), Ghost(0));
    proof {
        let t = space.table_pages();
        lemma_small_bit_facts(0);
        assert(t.dom() =~= set![root.0.0]);
        assert(links_ok(t, space.levels@));
        assert(links_unique(t, space.levels@));
    }
    let ghost ready = build_ready(plan@, pool, width);
    let ghost pages = pool.spec_pages();
    let ghost total_starts = pool_region_starts(pages, pool.spec_reserved() as int);
    let ghost plan_starts = plan_region_starts(plan@);
    proof {
        lemma_plan_nonneg(plan@);
        lemma_pool_starts_grow(pages, 0, pool.spec_reserved() as int);
        if ready {
            let t = space.table_pages();
            assert(space.fresh_pool_pages(3 * total_starts + 3 * plan_starts));
            assert forall|a: u64|
                page_result(a) == Ok::<VirtualPage, PagingError>(VirtualPage(VirtualAddress(a)))
                    implies #[trigger] space.translate_spec(a) == Ok::<Option<Translation>, PagingError>(
                None,
            ) by {
                lemma_slots_of_page(a);
                lemma_slot_bounds(a);
                assert(t[root.0.0][pml4_slot(a) as int] == 0);
            }
        }
    }
    let pool_count = space.pool.reserved_count();
    let mut mapped: u64 = 0;
    let mut index: usize = 0;
    while index < pool_count
        invariant
            space.wf(),
            space.width == width,
            space.root == root,
            space.pool.spec_pages() == pool.spec_pages(),
            space.pool.spec_reserved() == pool.spec_reserved(),
            pool_count == pool.spec_reserved(),
            index <= pool_count,
            mapped == index,
            forall|i: int| 0 <= i < index ==> #[trigger] space.maps_identity(pool.spec_pages()[i]),
            ready == build_ready(plan@, pool, width),
            pool.spec_used() < pool.spec_reserved(),
            frame_result(pool.spec_pages()[pool.spec_used() as int], width) is Ok,
            pages == pool.spec_pages(),
            total_starts == pool_region_starts(pages, pool.spec_reserved() as int),
            plan_starts == plan_region_starts(plan@),
            0 <= plan_starts,
            ready ==> space.fresh_pool_pages(
                3 * (total_starts - pool_region_starts(pages, index as int)) + 3 * plan_starts,
            ),
            ready && index > 0 ==> path_present(space, pages[index - 1]),
            ready ==> forall|j: int|
                index <= j < pool.spec_reserved() ==> #[trigger] space.translate_spec(pages[j])
                    == Ok::<Option<Translation>, PagingError>(None),
            ready ==> forall|q: int, j: int|
                0 <= q < plan@.len() && 0 <= j < plan@[q].page_count ==> #[trigger] space.translate_spec(
                    request_page(plan@[q], j),
                ) == Ok::<Option<Translation>, PagingError>(None),
        decreases pool_count - index,
    {
        let address = space.pool.pages()[index];
        proof {
            if ready {
                assert(address == pages[index as int]);
                lemma_pool_starts_grow(pages, index + 1, pool.spec_reserved() as int);
                if !(index > 0 && same_upper_slots(pages[index as int], pages[index - 1])) {
                    assert(pool_region_starts(pages, index + 1) == pool_region_starts(pages, index as int) + 1);
                    assert(space.fresh_pool_pages(3));
                } else {
                    assert(pool_region_starts(pages, index + 1) == pool_region_starts(pages, index as int));
                    lemma_upper_shared(space, pages[index as int], pages[index - 1]);
                }
            }
        }
        let page = match VirtualPage::new(address) {
            Ok(p) => p,
            Err(e) => return Err(e),
        };
        let frame = match PhysicalFrame::new(address, width) {
            Ok(f) => f,
            Err(e) => return Err(e),
        };
        let ghost before = space;
        proof {
            if ready {
                assert(page.0.0 == address);
                assert(frame == PhysicalFrame(PhysicalAddress(address)));
                assert(space.translate_spec(page.0.0) == Ok::<Option<Translation>, PagingError>(None));
                assert(leaf_result(frame, rw_nx()) is Ok);
            }
        }
        match space.map_page(page, frame, MappingPermissions::kernel_rw_nx()) {
            Ok(_) => {},
            Err(e) => return Err(e),
        }
        proof {
            assert forall|i: int| 0 <= i < index implies #[trigger] space.maps_identity(
                pool.spec_pages()[i],
            ) by {
                assert(before.maps_identity(pool.spec_pages()[i]));
                lemma_maps_preserved(
                    before,
                    space,
                    pool.spec_pages()[i],
                    pool.spec_pages()[i],
                    rw_nx(),
                );
            }
            assert(space.maps_identity(pool.spec_pages()[index as int]));
            if ready {
                assert forall|j: int|
                    index + 1 <= j < pool.spec_reserved() implies #[trigger] space.translate_spec(pages[j])
                        == Ok::<Option<Translation>, PagingError>(None) by {
                    assert(!same_slots(pages[j], pages[index as int]));
                    assert(before.translate_spec(pages[j]) == Ok::<Option<Translation>, PagingError>(None));
                }
                assert forall|q: int, j: int|
                    0 <= q < plan@.len() && 0 <= j < plan@[q].page_count implies #[trigger] space.translate_spec(
                        request_page(plan@[q], j),
                    ) == Ok::<Option<Translation>, PagingError>(None) by {
                    assert(!same_slots(pages[index as int], request_page(plan@[q], j)));
                    assert(before.translate_spec(request_page(plan@[q], j)) == Ok::<
                        Option<Translation>,
                        PagingError,
                    >(None));
                }
            }
        }
        mapped = match mapped.checked_add(1) {
            Some(v) => v,
            None => return Err(PagingError::AddressOverflow),
        };
        index += 1;
    }
    proof {
        assert(plan@.take(0) =~= Seq::<MappingRequest>::empty());
        assert(pool_region_starts(pages, index as int) == total_starts);
    }
    let requests = plan.as_slice();
    let mut r: usize = 0;
    while r < requests.len()
        invariant
            space.wf(),
            space.width == width,
            space.root == root,
            requests@ == plan@,
            r <= requests@.len(),
            pool.spec_used() < pool.spec_reserved(),
            frame_result(pool.spec_pages()[pool.spec_used() as int], width) is Ok,
            mapped == pool.spec_reserved() + plan_page_total(plan@.take(r as int)),
            forall|i: int|
                0 <= i < pool.spec_reserved() ==> #[trigger] space.maps_identity(
                    pool.spec_pages()[i],
                ),
            forall|q: int, k: int|
                0 <= q < r && 0 <= k < plan@[q].page_count ==> #[trigger] space.maps_request_page(
                    plan@[q],
                    k,
                ),
            ready == build_ready(plan@, pool, width),
            plan_starts == plan_region_starts(plan@),
            ready ==> space.fresh_pool_pages(
                3 * (plan_starts - plan_region_starts(plan@.take(r as int))),
            ),
            ready ==> forall|q: int, j: int|
                r <= q < plan@.len() && 0 <= j < plan@[q].page_count ==> #[trigger] space.translate_spec(
                    request_page(plan@[q], j),
                ) == Ok::<Option<Translation>, PagingError>(None),
        decreases requests@.len() - r,
    {
        let request = requests[r];
        proof {
            lemma_plan_prefix(plan@, r as int);
            lemma_request_starts_grow(request, 0, request.page_count as int);
        }
        let mut k: u64 = 0;
        while k < request.page_count
            invariant
                space.wf(),
                space.width == width,
                space.root == root,
                requests@ == plan@,
                r < requests@.len(),
                pool.spec_used() < pool.spec_reserved(),
                frame_result(pool.spec_pages()[pool.spec_used() as int], width) is Ok,
                request == plan@[r as int],
                k <= request.page_count,
                    mapped == pool.spec_reserved() + plan_page_total(plan@.take(r as int)) + k,
                forall|i: int|
                    0 <= i < pool.spec_reserved() ==> #[trigger] space.maps_identity(
                        pool.spec_pages()[i],
                    ),
                forall|q: int, j: int|
                    0 <= q < r && 0 <= j < plan@[q].page_count
                        ==> #[trigger] space.maps_request_page(plan@[q], j),
                forall|j: int| 0 <= j < k ==> #[trigger] space.maps_request_page(request, j),
                ready == build_ready(plan@, pool, width),
                plan_starts == plan_region_starts(plan@),
                plan_region_starts(plan@.take(r as int)) + request_region_starts(
                    request,
                    request.page_count as int,
                ) <= plan_starts,
                plan_page_total(plan@.take(r as int)) + request.page_count <= plan_page_total(plan@),
                ready ==> space.fresh_pool_pages(
                    3 * (plan_starts - plan_region_starts(plan@.take(r as int))
                        - request_region_starts(request, k as int)),
                ),
                ready && k > 0 ==> path_present(space, request_page(request, k - 1)),
                ready ==> forall|j: int|
                    k <= j < request.page_count ==> #[trigger] space.translate_spec(
                        request_page(request, j),
                    ) == Ok::<Option<Translation>, PagingError>(None),
                ready ==> forall|q: int, j: int|
                    r < q < plan@.len() && 0 <= j < plan@[q].page_count ==> #[trigger] space.translate_spec(
                        request_page(plan@[q], j),
                    ) == Ok::<Option<Translation>, PagingError>(None),
            decreases request.page_count - k,
        {
            proof {
                if ready {
                    let vp = request_page(plan@[r as int], k as int);
                    assert(page_result(vp) == Ok::<VirtualPage, PagingError>(
                        VirtualPage(VirtualAddress(vp)),
                    ));
                    assert(request.virtual_start + k * PAGE_SIZE <= u64::MAX);
                    assert(request.physical_start + k * PAGE_SIZE <= u64::MAX);
                    lemma_request_starts_grow(request, k + 1, request.page_count as int);
                }
            }
            let offset = match k.checked_mul(PAGE_SIZE) {
                Some(v) => v,
                None => return Err(PagingError::AddressOverflow),
            };
            let virtual_address = match request.virtual_start.checked_add(offset) {
                Some(v) => v,
                None => return Err(PagingError::AddressOverflow),
            };
            let physical_address = match request.physical_start.checked_add(offset) {
                Some(v) => v,
                None => return Err(PagingError::AddressOverflow),
            };
            let frame = match PhysicalFrame::new(physical_address, width) {
                Ok(f) => f,
                Err(e) => return Err(e),
            };
            let page = match VirtualPage::new(virtual_address) {
                Ok(p) => p,
                Err(e) => return Err(e),
            };
            let ghost before = space;
            proof {
                if ready {
                    let vp = request_page(request, k as int);
                    assert(page.0.0 == vp);
                    assert(frame == PhysicalFrame(PhysicalAddress(request_frame(request, k as int))));
                    assert(space.translate_spec(vp) == Ok::<Option<Translation>, PagingError>(None));
                    if !(k > 0 && same_upper_slots(vp, request_page(request, k - 1))) {
                        assert(request_region_starts(request, k + 1) == request_region_starts(
                            request,
                            k as int,
                        ) + 1);
                        assert(space.fresh_pool_pages(3));
                    } else {
                        assert(request_region_starts(request, k + 1) == request_region_starts(
                            request,
                            k as int,
                        ));
                        lemma_upper_shared(space, vp, request_page(request, k - 1));
                    }
                }
            }
            match space.map_page(page, frame, request.permissions) {
                Ok(_) => {},
                Err(e) => return Err(e),
            }
            proof {
                if ready {
                    let vp = request_page(request, k as int);
                    assert forall|j: int|
                        k + 1 <= j < request.page_count implies #[trigger] space.translate_spec(
                            request_page(request, j),
                        ) == Ok::<Option<Translation>, PagingError>(None) by {
                        assert(!same_slots(request_page(plan@[r as int], j), request_page(plan@[r as int], k as int)));
                        assert(before.translate_spec(request_page(request, j)) == Ok::<
                            Option<Translation>,
                            PagingError,
                        >(None));
                    }
                    assert forall|q: int, j: int|
                        r < q < plan@.len() && 0 <= j < plan@[q].page_count implies #[trigger] space.translate_spec(
                            request_page(plan@[q], j),
                        ) == Ok::<Option<Translation>, PagingError>(None) by {
                        assert(!same_slots(request_page(plan@[q], j), request_page(plan@[r as int], k as int)));
                        assert(before.translate_spec(request_page(plan@[q], j)) == Ok::<
                            Option<Translation>,
                            PagingError,
                        >(None));
                    }
                }
                assert forall|i: int| 0 <= i < pool.spec_reserved() implies #[trigger] space.maps_identity(
                    pool.spec_pages()[i],
                ) by {
                    assert(before.maps_identity(pool.spec_pages()[i]));
                    lemma_maps_preserved(
                        before,
                        space,
                        pool.spec_pages()[i],
                        pool.spec_pages()[i],
                        rw_nx(),
                    );
                }
                assert forall|q: int, j: int|
                    0 <= q < r && 0 <= j < plan@[q].page_count implies #[trigger] space.maps_request_page(
                    plan@[q],
                    j,
                ) by {
                    assert(before.maps_request_page(plan@[q], j));
                    lemma_maps_preserved(
                        before,
                        space,
                        (plan@[q].virtual_start + j * PAGE_SIZE) as u64,
                        (plan@[q].physical_start + j * PAGE_SIZE) as u64,
                        plan@[q].permissions,
                    );
                }
                assert forall|j: int| 0 <= j < k implies #[trigger] space.maps_request_page(
                    request,
                    j,
                ) by {
                    assert(before.maps_request_page(request, j));
                    lemma_maps_preserved(
                        before,
                        space,
                        (request.virtual_start + j * PAGE_SIZE) as u64,
                        (request.physical_start + j * PAGE_SIZE) as u64,
                        request.permissions,
                    );
                }
                assert(space.maps_request_page(request, k as int));
            }
            mapped = match mapped.checked_add(1) {
                Some(v) => v,
                None => return Err(PagingError::AddressOverflow),
            };
            k += 1;
        }
        proof {
            assert(plan@.take(r + 1).drop_last() =~= plan@.take(r as int));
            assert(plan@.take(r + 1).last() == plan@[r as int]);
            if ready {
                assert forall|q: int, j: int|
                    r + 1 <= q < plan@.len() && 0 <= j < plan@[q].page_count implies #[trigger] space.translate_spec(
                        request_page(plan@[q], j),
                    ) == Ok::<Option<Translation>, PagingError>(None) by {}
            }
        }
        r += 1;
    }
    let ghost before = space;
    space.mapped_pages = mapped;
    proof {
        assert(plan@.take(plan@.len() as int) =~= plan@);
        assert forall|a: u64| #[trigger] space.translate_spec(a) == before.translate_spec(a) by {}
        assert forall|i: int| 0 <= i < pool.spec_reserved() implies #[trigger] space.maps_identity(
            pool.spec_pages()[i],
        ) by {
            assert(before.maps_identity(pool.spec_pages()[i]));
            lemma_maps_preserved(before, space, pool.spec_pages()[i], pool.spec_pages()[i], rw_nx());
        }
        assert forall|q: int, j: int|
            0 <= q < plan@.len() && 0 <= j < plan@[q].page_count implies #[trigger] space.maps_request_page(
            plan@[q],
            j,
        ) by {
            assert(before.maps_request_page(plan@[q], j));
            lemma_maps_preserved(
                before,
                space,
                (plan@[q].virtual_start + j * PAGE_SIZE) as u64,
                (plan@[q].physical_start + j * PAGE_SIZE) as u64,
                plan@[q].permissions,
            );
        }
    }
    Ok(space)
}


/// Paging facts read from the CPU.
#[derive(Clone, Copy, Debug, PartialEq, Eq, Structural)]
pub struct CpuPagingInfo {
    pub physical_address_width: u8,
    pub nx_supported: bool,
    pub old_cr3: u64,
}

/// The paging facts the CPU state gives, or why it cannot run this kernel.
pub open spec fn cpu_info_result(
    max_extended_leaf: u32,
    extended_features_edx: u32,
    address_sizes_eax: u32,
    cr0: u64,
    cr4: u64,
    cr3: u64,
) -> Result<CpuPagingInfo, PagingError> {
    if max_extended_leaf < 0x8000_0001 || extended_features_edx & 0x10_0000 == 0 {
        Err(PagingError::NxUnsupported)
    } else if max_extended_leaf < 0x8000_0008 {
        Err(PagingError::InvalidPhysicalAddressWidth)
    } else if cr4 & 0x1000 != 0 {
        Err(PagingError::UnsupportedFiveLevelPaging)
    } else if cr0 & 0x8000_0000 == 0 {
        Err(PagingError::PagingNotEnabled)
    } else if cr4 & 0x20 == 0 {
        Err(PagingError::PaeNotEnabled)
    } else if !width_supported((address_sizes_eax & 0xff) as u8) {
        Err(PagingError::InvalidPhysicalAddressWidth)
    } else {
        Ok(
            CpuPagingInfo {
                physical_address_width: (address_sizes_eax & 0xff) as u8,
                nx_supported: true,
                old_cr3: cr3,
            },
        )
    }
}

/// Decides whether the CPU state supports this kernel's paging, from the
/// highest extended CPUID leaf, leaf 0x8000_0001 EDX, leaf 0x8000_0008 EAX,
/// and CR0, CR4 and CR3; the leaves beyond `max_extended_leaf` are ignored.
pub fn cpu_paging_info(
    max_extended_leaf: u32,
    extended_features_edx: u32,
    address_sizes_eax: u32,
    cr0: u64,
    cr4: u64,
    cr3: u64,
) -> (result: Result<CpuPagingInfo, PagingError>)
    ensures
        result == cpu_info_result(
            max_extended_leaf,
            extended_features_edx,
            address_sizes_eax,
            cr0,
            cr4,
            cr3,
        ),
{
    if max_extended_leaf < 0x8000_0001 {
        return Err(PagingError::NxUnsupported);
    }
    let nx = extended_features_edx & 0x10_0000 != 0;
    if !nx {
        return Err(PagingError::NxUnsupported);
    }
    if max_extended_leaf < 0x8000_0008 {
        return Err(PagingError::InvalidPhysicalAddressWidth);
    }
    let width = (address_sizes_eax & 0xff) as u8;
    if cr4 & 0x1000 != 0 {
        return Err(PagingError::UnsupportedFiveLevelPaging);
    }
    if cr0 & 0x8000_0000 == 0 {
        return Err(PagingError::PagingNotEnabled);
    }
    if cr4 & 0x20 == 0 {
        return Err(PagingError::PaeNotEnabled);
    }
    if width < 36 || width > 52 {
        return Err(PagingError::InvalidPhysicalAddressWidth);
    }
    Ok(CpuPagingInfo { physical_address_width: width, nx_supported: nx, old_cr3: cr3 })
}

/// EFER with no-execute enable set.
pub fn efer_with_nx(efer: u64) -> (v: u64)
    ensures
        v == efer | 0x800,
{
    efer | 0x800
}

/// CR0 with supervisor write protection set.
pub fn cr0_with_write_protect(cr0: u64) -> (v: u64)
    ensures
        v == cr0 | 0x1_0000,
{
    cr0 | 0x1_0000
}

/// Checks the register read-backs after activating the tables rooted at
/// `root`: no-execute enabled, write protection on, and CR3 naming the root.
pub fn activation_result(efer: u64, cr0: u64, cr3: u64, root: u64) -> (result: Result<(), PagingError>)
    ensures
        result == (if efer & 0x800 == 0 {
            Err(PagingError::EferNxFailed)
        } else if cr0 & 0x1_0000 == 0 {
            Err(PagingError::Cr0WriteProtectFailed)
        } else if cr3 & !0xfffu64 != root {
            Err(PagingError::Cr3ActivationFailed)
        } else {
            Ok(())
        }),
{
    if efer & 0x800 == 0 {
        return Err(PagingError::EferNxFailed);
    }
    if cr0 & 0x1_0000 == 0 {
        return Err(PagingError::Cr0WriteProtectFailed);
    }
    if cr3 & !0xfffu64 != root {
        return Err(PagingError::Cr3ActivationFailed);
    }
    Ok(())
}

/// A space keeps its own present upper entries.
pub proof fn lemma_kept_refl(a: ActiveAddressSpace)
    ensures
        a.upper_entries_kept(a),
{
}

/// Keeping the present upper entries carries over a sequence of changes.
pub proof fn lemma_kept_trans(a: ActiveAddressSpace, b: ActiveAddressSpace, c: ActiveAddressSpace)
    requires
        a.upper_entries_kept(b),
        b.upper_entries_kept(c),
    ensures
        a.upper_entries_kept(c),
{
    assert forall|p: u64, i: int|
        #![trigger a.table_pages()[p][i]]
        a.table_pages().contains_key(p) && a.levels@[p] < 3 && 0 <= i < TABLE_ENTRIES
            && a.table_pages()[p][i] & ENTRY_PRESENT != 0 implies c.table_pages().contains_key(p)
        && c.levels@[p] == a.levels@[p] && c.table_pages()[p][i] == a.table_pages()[p][i] by {
        assert(b.table_pages()[p][i] == a.table_pages()[p][i]);
    }
}

/// A walk whose leaf table exists still reaches it, through the same
/// entries, after a change that keeps every present upper entry.
pub proof fn lemma_path_kept(before: ActiveAddressSpace, after: ActiveAddressSpace, a: u64)
    requires
        before.wf(),
        after.wf(),
        after.spec_root() == before.spec_root(),
        before.upper_entries_kept(after),
        path_present(before, a),
    ensures
        path_present(after, a),
        path_entries(after.table_pages(), after.spec_root(), a).0 == path_entries(
            before.table_pages(),
            before.spec_root(),
            a,
        ).0,
        path_entries(after.table_pages(), after.spec_root(), a).1 == path_entries(
            before.table_pages(),
            before.spec_root(),
            a,
        ).1,
        path_entries(after.table_pages(), after.spec_root(), a).2 == path_entries(
            before.table_pages(),
            before.spec_root(),
            a,
        ).2,
{
    let t = before.table_pages();
    let u = after.table_pages();
    let lv = before.levels@;
    let root = before.spec_root();
    let page = a & !0xfffu64;
    lemma_slot_bounds(page);
    let (e0, e1, e2, e3) = path_entries(t, root, a);
    let i0 = pml4_slot(page) as int;
    let i1 = pdpt_slot(page) as int;
    let i2 = pd_slot(page) as int;
    assert(t.contains_key(root) && lv[root] == 0);
    assert(e0 == t[root][i0]);
    assert(u[root][i0] == e0);
    let q1 = e0 & ENTRY_ADDRESS_MASK;
    assert(t.contains_key(q1) && lv[q1] == 1);
    assert(e1 == t[q1][i1]);
    assert(u[q1][i1] == e1);
    let q2 = e1 & ENTRY_ADDRESS_MASK;
    assert(t.contains_key(q2) && lv[q2] == 2);
    assert(e2 == t[q2][i2]);
    assert(u[q2][i2] == e2);
    assert(u.contains_key(root) && u.contains_key(q1) && u.contains_key(q2));
}

} // verus!
