//! EL1 translation tables for the initial AArch64 identity map: requests,
//! plans, descriptors, the four-level walk, and control-register values.
use vstd::prelude::*;

verus! {

/// Architectural page and translation-table granule.
pub const PAGE_SIZE: u64 = 4096;
/// Entries in every translation table.
pub const TABLE_ENTRIES: usize = 512;
/// Maximum number of mapping requests in a plan.
pub const MAX_MAPPING_REQUESTS: usize = 64;
/// Maximum number of pages a plan maps.
pub const MAX_MAPPED_PAGES: u64 = 32_768;
/// Pages reserved for translation tables.
pub const MAX_TABLE_PAGES: usize = 64;
/// PL011 physical base on the QEMU `virt` machine.
pub const PL011_BASE: u64 = 0x0900_0000;
/// First address above the 48-bit TTBR0 range.
pub const LOW_VA_LIMIT: u64 = 0x1_0000_0000_0000;
/// Output-address bits of a descriptor.
pub const OUTPUT_ADDRESS_MASK: u64 = 0x0000_ffff_ffff_f000;
/// Descriptor bit: valid.
pub const DESCRIPTOR_VALID: u64 = 1;
/// Descriptor bit: table (levels 0-2) or page (level 3).
pub const DESCRIPTOR_TABLE_OR_PAGE: u64 = 2;
/// Shift of the MAIR attribute index.
pub const ATTR_INDEX_SHIFT: u64 = 2;
/// Access permission: read-only.
pub const AP_READ_ONLY: u64 = 0x80;
/// Shareability: outer.
pub const SH_OUTER: u64 = 0x200;
/// Shareability: inner.
pub const SH_INNER: u64 = 0x300;
/// Access flag.
pub const ACCESS_FLAG: u64 = 0x400;
/// Privileged execute-never.
pub const PXN: u64 = 0x20_0000_0000_0000;
/// Unprivileged execute-never.
pub const UXN: u64 = 0x40_0000_0000_0000;
/// Bits a table descriptor may have set.
pub const TABLE_DESCRIPTOR_ALLOWED: u64 = 0x0000_ffff_ffff_f003;
/// Bits a page descriptor may have set.
pub const PAGE_DESCRIPTOR_ALLOWED: u64 = 0x0060_ffff_ffff_f79f;
/// MAIR value: Normal WBWA, Device-nGnRnE, then Normal non-cacheable.
pub const MAIR_VALUE: u64 = 0x0044_00ff;
/// `SCTLR_EL1` bits required by the initial hardened regime.
pub const SCTLR_REQUIRED_BITS: u64 = (1 << 0) | (1 << 2) | (1 << 3) | (1 << 12) | (1 << 19);

/// Failures while planning, walking, or activating tables.
#[derive(Clone, Copy, Debug, PartialEq, Eq, Structural)]
pub enum PagingError {
    AddressNotPageAligned,
    ZeroPageCount,
    AddressOverflow,
    VirtualAddressOutOfRange,
    PhysicalAddressOutOfRange,
    NullPageMapped,
    WritableExecutableMapping,
    ExecutableDeviceMapping,
    InvalidPl011Mapping,
    VirtualMappingConflict,
    PhysicalAliasConflict,
    MappingPlanCapacityExceeded,
    MappedPageCapacityExceeded,
    TableAllocationFailed,
    TableCapacityExceeded,
    TablePageNotIdentityAccessible,
    TablePageAliasConflict,
    InvalidDescriptor,
    NotMapped,
    LiveIdentityMappingMissing,
    CurrentIdentityMappingMissing,
    FourKiBGranuleUnsupported,
    PhysicalAddressRangeUnsupported,
    AlreadyActive,
    ActivationReadbackFailed,
    BigEndianEl1Unsupported,
}

/// Memory type selected through `MAIR_EL1`.
#[derive(Clone, Copy, Debug, PartialEq, Eq, Structural)]
pub enum MemoryType {
    /// Inner-shareable Normal write-back/write-allocate memory.
    NormalWriteBack,
    /// Outer-shareable Device-nGnRnE memory.
    Device,
    /// Inner-shareable Normal non-cacheable memory.
    NormalNonCacheable,
}

/// The MAIR index of a memory type.
pub open spec fn attribute_index_of(t: MemoryType) -> u64 {
    match t {
        MemoryType::NormalWriteBack => 0,
        MemoryType::Device => 1,
        MemoryType::NormalNonCacheable => 2,
    }
}

/// The shareability bits of a memory type.
pub open spec fn shareability_of(t: MemoryType) -> u64 {
    match t {
        MemoryType::Device => SH_OUTER,
        _ => SH_INNER,
    }
}

impl MemoryType {
    /// The MAIR attribute index.
    pub fn attribute_index(self) -> (i: u8)
        ensures
            i == attribute_index_of(self),
    {
        match self {
            MemoryType::NormalWriteBack => 0,
            MemoryType::Device => 1,
            MemoryType::NormalNonCacheable => 2,
        }
    }

    /// The descriptor shareability bits.
    pub fn shareability_bits(self) -> (b: u64)
        ensures
            b == shareability_of(self),
    {
        match self {
            MemoryType::Device => SH_OUTER,
            _ => SH_INNER,
        }
    }
}

/// Privileged leaf permissions; EL0 access is always forbidden.
#[derive(Clone, Copy, Debug, PartialEq, Eq, Structural)]
pub enum Permissions {
    /// Read-only and executable at EL1.
    ReadExecute,
    /// Read-only and execute-never.
    ReadOnlyNoExecute,
    /// Read-write and execute-never.
    ReadWriteNoExecute,
}

impl Permissions {
    /// Whether the permissions allow writes.
    pub fn writable(self) -> (b: bool)
        ensures
            b == (self == Permissions::ReadWriteNoExecute),
    {
        match self {
            Permissions::ReadWriteNoExecute => true,
            _ => false,
        }
    }

    /// Whether the permissions allow execution at EL1.
    pub fn executable(self) -> (b: bool)
        ensures
            b == (self == Permissions::ReadExecute),
    {
        match self {
            Permissions::ReadExecute => true,
            _ => false,
        }
    }
}

/// One page-aligned virtual-to-physical mapping request.
#[derive(Clone, Copy, Debug, PartialEq, Eq, Structural)]
pub struct MappingRequest {
    /// First virtual address.
    pub virtual_start: u64,
    /// First physical address.
    pub physical_start: u64,
    /// Number of 4 KiB pages.
    pub page_count: u64,
    /// Privileged access permissions.
    pub permissions: Permissions,
    /// Architectural memory type.
    pub memory_type: MemoryType,
}

/// Exclusive virtual end of a request, as an integer.
pub open spec fn virtual_end_of(r: MappingRequest) -> int {
    r.virtual_start + r.page_count * PAGE_SIZE
}

/// Exclusive physical end of a request, as an integer.
pub open spec fn physical_end_of(r: MappingRequest) -> int {
    r.physical_start + r.page_count * PAGE_SIZE
}

impl MappingRequest {
    /// Length in bytes.
    pub fn byte_len(self) -> (result: Result<u64, PagingError>)
        ensures
            self.page_count * PAGE_SIZE > u64::MAX ==> result == Err::<u64, PagingError>(
                PagingError::AddressOverflow,
            ),
            self.page_count * PAGE_SIZE <= u64::MAX ==> result == Ok::<u64, PagingError>(
                (self.page_count * PAGE_SIZE) as u64,
            ),
    {
        match self.page_count.checked_mul(PAGE_SIZE) {
            Some(v) => Ok(v),
            None => Err(PagingError::AddressOverflow),
        }
    }

    /// Exclusive virtual end.
    pub fn virtual_end(self) -> (result: Result<u64, PagingError>)
        ensures
            virtual_end_of(self) > u64::MAX ==> result == Err::<u64, PagingError>(
                PagingError::AddressOverflow,
            ),
            virtual_end_of(self) <= u64::MAX ==> result == Ok::<u64, PagingError>(
                virtual_end_of(self) as u64,
            ),
    {
        let len = match self.byte_len() {
            Ok(v) => v,
            Err(e) => return Err(e),
        };
        match self.virtual_start.checked_add(len) {
            Some(v) => Ok(v),
            None => Err(PagingError::AddressOverflow),
        }
    }

    /// Exclusive physical end.
    pub fn physical_end(self) -> (result: Result<u64, PagingError>)
        ensures
            physical_end_of(self) > u64::MAX ==> result == Err::<u64, PagingError>(
                PagingError::AddressOverflow,
            ),
            physical_end_of(self) <= u64::MAX ==> result == Ok::<u64, PagingError>(
                physical_end_of(self) as u64,
            ),
    {
        let len = match self.byte_len() {
            Ok(v) => v,
            Err(e) => return Err(e),
        };
        match self.physical_start.checked_add(len) {
            Some(v) => Ok(v),
            None => Err(PagingError::AddressOverflow),
        }
    }
}

/// Whether `a_start..a_end` and `b_start..b_end` intersect.
pub open spec fn ranges_overlap(a_start: int, a_end: int, b_start: int, b_end: int) -> bool {
    a_start < b_end && b_start < a_end
}

/// Whether two half-open ranges intersect.
pub fn overlaps(a_start: u64, a_end: u64, b_start: u64, b_end: u64) -> (b: bool)
    ensures
        b == ranges_overlap(a_start as int, a_end as int, b_start as int, b_end as int),
{
    a_start < b_end && b_start < a_end
}

/// The one request shape allowed to touch the PL011 page.
pub open spec fn is_pl011_request(r: MappingRequest) -> bool {
    r.virtual_start == PL011_BASE && r.physical_start == PL011_BASE && r.page_count == 1
        && r.permissions == Permissions::ReadWriteNoExecute && r.memory_type == MemoryType::Device
}

/// Why a request is refused, in the order the checks are made. No
/// permission set is both writable and executable, so a request is never
/// refused as a writable executable mapping.
pub open spec fn request_error(r: MappingRequest) -> Option<PagingError> {
    if r.page_count == 0 {
        Some(PagingError::ZeroPageCount)
    } else if r.virtual_start % PAGE_SIZE != 0 || r.physical_start % PAGE_SIZE != 0 {
        Some(PagingError::AddressNotPageAligned)
    } else if r.virtual_start == 0 {
        Some(PagingError::NullPageMapped)
    } else if r.memory_type == MemoryType::Device && r.permissions == Permissions::ReadExecute {
        Some(PagingError::ExecutableDeviceMapping)
    } else if virtual_end_of(r) > u64::MAX || physical_end_of(r) > u64::MAX {
        Some(PagingError::AddressOverflow)
    } else if virtual_end_of(r) > LOW_VA_LIMIT {
        Some(PagingError::VirtualAddressOutOfRange)
    } else if physical_end_of(r) > LOW_VA_LIMIT {
        Some(PagingError::PhysicalAddressOutOfRange)
    } else if (ranges_overlap(
        r.physical_start as int,
        physical_end_of(r),
        PL011_BASE as int,
        PL011_BASE + PAGE_SIZE,
    ) || ranges_overlap(
        r.virtual_start as int,
        virtual_end_of(r),
        PL011_BASE as int,
        PL011_BASE + PAGE_SIZE,
    )) && !is_pl011_request(r) {
        Some(PagingError::InvalidPl011Mapping)
    } else {
        None
    }
}

/// Checks bounds, alignment, W^X, device execution, and the PL011 rule.
pub fn validate_request(request: MappingRequest) -> (result: Result<(), PagingError>)
    ensures
        match request_error(request) {
            Some(e) => result == Err::<(), PagingError>(e),
            None => result == Ok::<(), PagingError>(()),
        },
{
    if request.page_count == 0 {
        return Err(PagingError::ZeroPageCount);
    }
    if !request.virtual_start.is_multiple_of(PAGE_SIZE) || !request.physical_start.is_multiple_of(
        PAGE_SIZE,
    ) {
        return Err(PagingError::AddressNotPageAligned);
    }
    if request.virtual_start == 0 {
        return Err(PagingError::NullPageMapped);
    }
    if request.permissions.writable() && request.permissions.executable() {
        return Err(PagingError::WritableExecutableMapping);
    }
    if request.memory_type == MemoryType::Device && request.permissions.executable() {
        return Err(PagingError::ExecutableDeviceMapping);
    }
    let virtual_end = match request.virtual_end() {
        Ok(v) => v,
        Err(e) => return Err(e),
    };
    let physical_end = match request.physical_end() {
        Ok(v) => v,
        Err(e) => return Err(e),
    };
    if virtual_end > LOW_VA_LIMIT {
        return Err(PagingError::VirtualAddressOutOfRange);
    }
    if physical_end > LOW_VA_LIMIT {
        return Err(PagingError::PhysicalAddressOutOfRange);
    }
    let overlaps_pl011_physical = overlaps(
        request.physical_start,
        physical_end,
        PL011_BASE,
        PL011_BASE + PAGE_SIZE,
    );
    let overlaps_pl011_virtual = overlaps(
        request.virtual_start,
        virtual_end,
        PL011_BASE,
        PL011_BASE + PAGE_SIZE,
    );
    if (overlaps_pl011_physical || overlaps_pl011_virtual) && (request.virtual_start != PL011_BASE
        || request.physical_start != PL011_BASE || request.page_count != 1 || request.permissions
        != Permissions::ReadWriteNoExecute || request.memory_type != MemoryType::Device) {
        return Err(PagingError::InvalidPl011Mapping);
    }
    Ok(())
}

/// A page-aligned identity range that must stay live across activation.
#[derive(Clone, Copy, Debug, PartialEq, Eq, Structural)]
pub struct IdentityRange {
    /// Inclusive page-aligned start.
    pub start: u64,
    /// Number of pages.
    pub page_count: u64,
}

/// Exclusive end of an identity range, as an integer.
pub open spec fn range_end_of(r: IdentityRange) -> int {
    r.start + r.page_count * PAGE_SIZE
}

impl IdentityRange {
    /// Checks a non-empty, aligned, non-wrapping range.
    pub fn validate(self) -> (result: Result<(), PagingError>)
        ensures
            self.page_count == 0 ==> result == Err::<(), PagingError>(PagingError::ZeroPageCount),
            self.page_count != 0 && self.start % PAGE_SIZE != 0 ==> result == Err::<(), PagingError>(
                PagingError::AddressNotPageAligned,
            ),
            self.page_count != 0 && self.start % PAGE_SIZE == 0 ==> result == (if range_end_of(
                self,
            ) > u64::MAX {
                Err::<(), PagingError>(PagingError::AddressOverflow)
            } else {
                Ok::<(), PagingError>(())
            }),
    {
        if self.page_count == 0 {
            return Err(PagingError::ZeroPageCount);
        }
        if !self.start.is_multiple_of(PAGE_SIZE) {
            return Err(PagingError::AddressNotPageAligned);
        }
        match self.end() {
            Ok(_) => Ok(()),
            Err(e) => Err(e),
        }
    }

    /// Exclusive end address.
    pub fn end(self) -> (result: Result<u64, PagingError>)
        ensures
            range_end_of(self) > u64::MAX ==> result == Err::<u64, PagingError>(
                PagingError::AddressOverflow,
            ),
            range_end_of(self) <= u64::MAX ==> result == Ok::<u64, PagingError>(
                range_end_of(self) as u64,
            ),
    {
        let len = match self.page_count.checked_mul(PAGE_SIZE) {
            Some(v) => v,
            None => return Err(PagingError::AddressOverflow),
        };
        match self.start.checked_add(len) {
            Some(v) => Ok(v),
            None => Err(PagingError::AddressOverflow),
        }
    }
}

/// Decoded result of a page-table walk.
#[derive(Clone, Copy, Debug, PartialEq, Eq, Structural)]
pub struct Translation {
    /// Physical address including the page offset.
    pub physical_address: u64,
    /// Leaf permissions.
    pub permissions: Permissions,
    /// Leaf memory type.
    pub memory_type: MemoryType,
}

/// The raw level-three descriptor for `pa` with `p` and `t`.
pub open spec fn page_bits(pa: u64, read_only: bool, pxn: bool, index: u64, share: u64) -> u64 {
    3u64 | pa | (index << 2u64) | share | 0x400u64 | 0x40_0000_0000_0000u64 | (if read_only {
        0x80u64
    } else {
        0u64
    }) | (if pxn {
        0x20_0000_0000_0000u64
    } else {
        0u64
    })
}

/// The page descriptor for `pa` with permissions `p` and memory type `t`.
pub open spec fn page_raw(pa: u64, p: Permissions, t: MemoryType) -> u64 {
    page_bits(
        pa,
        p != Permissions::ReadWriteNoExecute,
        p != Permissions::ReadExecute,
        attribute_index_of(t),
        shareability_of(t),
    )
}


/// The outcome of building a page descriptor.
pub open spec fn page_descriptor_result(pa: u64, p: Permissions, t: MemoryType) -> Result<
    u64,
    PagingError,
> {
    if pa % PAGE_SIZE != 0 {
        Err(PagingError::AddressNotPageAligned)
    } else if pa >= LOW_VA_LIMIT {
        Err(PagingError::PhysicalAddressOutOfRange)
    } else if t == MemoryType::Device && p == Permissions::ReadExecute {
        Err(PagingError::ExecutableDeviceMapping)
    } else {
        Ok(page_raw(pa, p, t))
    }
}

/// Builds a level-three page descriptor: valid page, access flag set,
/// EL0 execute-never, read-only unless writable, PXN unless executable.
pub fn page_descriptor(physical_address: u64, permissions: Permissions, memory_type: MemoryType) -> (result:
    Result<u64, PagingError>)
    ensures
        result == page_descriptor_result(physical_address, permissions, memory_type),
{
    if !physical_address.is_multiple_of(PAGE_SIZE) {
        return Err(PagingError::AddressNotPageAligned);
    }
    if physical_address >= LOW_VA_LIMIT {
        return Err(PagingError::PhysicalAddressOutOfRange);
    }
    if permissions.writable() && permissions.executable() {
        return Err(PagingError::WritableExecutableMapping);
    }
    if memory_type == MemoryType::Device && permissions.executable() {
        return Err(PagingError::ExecutableDeviceMapping);
    }
    let read_only = !permissions.writable();
    let pxn = !permissions.executable();
    let index = memory_type.attribute_index() as u64;
    let share = memory_type.shareability_bits();
    Ok(
        3u64 | physical_address | (index << 2u64) | share | 0x400u64 | 0x40_0000_0000_0000u64 | (
        if read_only {
            0x80u64
        } else {
            0u64
        }) | (if pxn {
            0x20_0000_0000_0000u64
        } else {
            0u64
        }),
    )
}

/// The outcome of building a table descriptor.
pub open spec fn table_descriptor_result(pa: u64) -> Result<u64, PagingError> {
    if pa % PAGE_SIZE != 0 {
        Err(PagingError::AddressNotPageAligned)
    } else if pa >= LOW_VA_LIMIT {
        Err(PagingError::PhysicalAddressOutOfRange)
    } else {
        Ok(3u64 | pa)
    }
}

/// Builds a table descriptor naming the next-level table at `physical_address`.
pub fn table_descriptor(physical_address: u64) -> (result: Result<u64, PagingError>)
    ensures
        result == table_descriptor_result(physical_address),
{
    if !physical_address.is_multiple_of(PAGE_SIZE) {
        return Err(PagingError::AddressNotPageAligned);
    }
    if physical_address >= LOW_VA_LIMIT {
        return Err(PagingError::PhysicalAddressOutOfRange);
    }
    Ok(3u64 | physical_address)
}

/// The memory type a MAIR index names.
pub open spec fn memory_type_of(index: u64) -> Option<MemoryType> {
    if index == 0 {
        Some(MemoryType::NormalWriteBack)
    } else if index == 1 {
        Some(MemoryType::Device)
    } else if index == 2 {
        Some(MemoryType::NormalNonCacheable)
    } else {
        None
    }
}

/// The permissions a read-only/PXN pair names; writable and executable is refused.
pub open spec fn permissions_of(read_only: bool, pxn: bool) -> Option<Permissions> {
    if read_only && !pxn {
        Some(Permissions::ReadExecute)
    } else if read_only && pxn {
        Some(Permissions::ReadOnlyNoExecute)
    } else if !read_only && pxn {
        Some(Permissions::ReadWriteNoExecute)
    } else {
        None
    }
}

/// The outcome of decoding the level-three descriptor `raw` for an access at `offset`.
pub open spec fn decode_result(raw: u64, offset: u64) -> Result<Translation, PagingError> {
    if raw & !PAGE_DESCRIPTOR_ALLOWED != 0 {
        Err(PagingError::InvalidDescriptor)
    } else if raw & 3 != 3 {
        if raw & DESCRIPTOR_VALID == 0 {
            Err(PagingError::NotMapped)
        } else {
            Err(PagingError::InvalidDescriptor)
        }
    } else {
        match memory_type_of((raw >> 2u64) & 7) {
            None => Err(PagingError::InvalidDescriptor),
            Some(t) => if raw & 0x300 != shareability_of(t) {
                Err(PagingError::InvalidDescriptor)
            } else if raw & UXN == 0 || raw & ACCESS_FLAG == 0 {
                Err(PagingError::InvalidDescriptor)
            } else {
                match permissions_of(raw & AP_READ_ONLY != 0, raw & PXN != 0) {
                    None => Err(PagingError::WritableExecutableMapping),
                    Some(p) => if (raw & OUTPUT_ADDRESS_MASK) + offset > u64::MAX {
                        Err(PagingError::AddressOverflow)
                    } else {
                        Ok(
                            Translation {
                                physical_address: ((raw & OUTPUT_ADDRESS_MASK) + offset) as u64,
                                permissions: p,
                                memory_type: t,
                            },
                        )
                    },
                }
            },
        }
    }
}

/// Decodes a level-three page descriptor, refusing any bit outside the
/// page format, inconsistent shareability, and writable-executable leaves.
pub fn decode_page_descriptor(raw: u64, page_offset: u64) -> (result: Result<
    Translation,
    PagingError,
>)
    ensures
        result == decode_result(raw, page_offset),
{
    if raw & !PAGE_DESCRIPTOR_ALLOWED != 0 {
        return Err(PagingError::InvalidDescriptor);
    }
    if raw & 3 != 3 {
        return Err(
            if raw & DESCRIPTOR_VALID == 0 {
                PagingError::NotMapped
            } else {
                PagingError::InvalidDescriptor
            },
        );
    }
    let attribute_index = (raw >> 2u64) & 7;
    let memory_type = if attribute_index == 0 {
        MemoryType::NormalWriteBack
    } else if attribute_index == 1 {
        MemoryType::Device
    } else if attribute_index == 2 {
        MemoryType::NormalNonCacheable
    } else {
        return Err(PagingError::InvalidDescriptor);
    };
    if raw & 0x300 != memory_type.shareability_bits() {
        return Err(PagingError::InvalidDescriptor);
    }
    let read_only = raw & AP_READ_ONLY != 0;
    let pxn = raw & PXN != 0;
    let uxn = raw & UXN != 0;
    if !uxn || raw & ACCESS_FLAG == 0 {
        return Err(PagingError::InvalidDescriptor);
    }
    let permissions = if read_only && !pxn {
        Permissions::ReadExecute
    } else if read_only && pxn {
        Permissions::ReadOnlyNoExecute
    } else if !read_only && pxn {
        Permissions::ReadWriteNoExecute
    } else {
        return Err(PagingError::WritableExecutableMapping);
    };
    let physical_address = match (raw & OUTPUT_ADDRESS_MASK).checked_add(page_offset) {
        Some(v) => v,
        None => return Err(PagingError::AddressOverflow),
    };
    Ok(Translation { physical_address, permissions, memory_type })
}

/// A page descriptor decodes back to its address, permissions and memory
/// type: encoding and decoding are inverse.
pub proof fn lemma_page_descriptor_round_trip(
    pa: u64,
    p: Permissions,
    t: MemoryType,
    offset: u64,
)
    requires
        page_descriptor_result(pa, p, t) is Ok,
        offset < PAGE_SIZE,
    ensures
        decode_result(page_raw(pa, p, t), offset) == Ok::<Translation, PagingError>(
            Translation { physical_address: (pa + offset) as u64, permissions: p, memory_type: t },
        ),
{
    let ro = p != Permissions::ReadWriteNoExecute;
    let pxn = p != Permissions::ReadExecute;
    let index = attribute_index_of(t);
    let share = shareability_of(t);
    let raw = page_bits(pa, ro, pxn, index, share);
    assert(raw & !0x0060_ffff_ffff_f79fu64 == 0 && raw & 3 == 3 && (raw >> 2u64) & 7 == index && raw
        & 0x300 == share && (raw & 0x80 != 0) == ro && (raw & 0x20_0000_0000_0000 != 0) == pxn
        && raw & 0x40_0000_0000_0000 != 0 && raw & 0x400 != 0 && raw & 0x0000_ffff_ffff_f000
        == pa) by (bit_vector)
        requires
            pa % 4096 == 0,
            pa < 0x1_0000_0000_0000u64,
            index <= 2,
            share == 0x200 || share == 0x300,
            raw == 3u64 | pa | (index << 2u64) | share | 0x400u64 | 0x40_0000_0000_0000u64 | (
            if ro {
                0x80u64
            } else {
                0u64
            }) | (if pxn {
                0x20_0000_0000_0000u64
            } else {
                0u64
            }),
    ;
}

/// Decodes the level-zero to level-two step of a walk: the next table, or
/// why the walk stops.
pub open spec fn table_step(raw: u64) -> Result<u64, PagingError> {
    if raw & 3 != 3 {
        if raw & DESCRIPTOR_VALID == 0 {
            Err(PagingError::NotMapped)
        } else {
            Err(PagingError::InvalidDescriptor)
        }
    } else if raw & !TABLE_DESCRIPTOR_ALLOWED != 0 {
        Err(PagingError::InvalidDescriptor)
    } else {
        Ok(raw & OUTPUT_ADDRESS_MASK)
    }
}

/// A table descriptor steps to the table it names.
pub proof fn lemma_table_descriptor_round_trip(pa: u64)
    requires
        table_descriptor_result(pa) is Ok,
    ensures
        table_step(3u64 | pa) == Ok::<u64, PagingError>(pa),
{
    assert((3u64 | pa) & 3 == 3 && (3u64 | pa) & !0x0000_ffff_ffff_f003u64 == 0 && (3u64 | pa)
        & 0x0000_ffff_ffff_f000u64 == pa) by (bit_vector)
        requires
            pa % 4096 == 0,
            pa < 0x1_0000_0000_0000u64,
    ;
}

/// CPU translation capabilities this implementation needs.
#[derive(Clone, Copy, Debug, PartialEq, Eq, Structural)]
pub struct CpuFeatures {
    /// Physical-address width in bits.
    pub physical_address_bits: u8,
}

/// The physical-address width a PARange field names.
pub open spec fn parange_bits(field: u64) -> Option<u8> {
    if field == 0 {
        Some(32u8)
    } else if field == 1 {
        Some(36u8)
    } else if field == 2 {
        Some(40u8)
    } else if field == 3 {
        Some(42u8)
    } else if field == 4 {
        Some(44u8)
    } else if field == 5 {
        Some(48u8)
    } else {
        None
    }
}

impl CpuFeatures {
    /// Decodes `ID_AA64MMFR0_EL1`, refusing a missing 4 KiB granule and
    /// unsupported physical-address ranges.
    pub fn from_mmfr0(value: u64) -> (result: Result<CpuFeatures, PagingError>)
        ensures
            (value >> 28u64) & 0xf != 0 ==> result == Err::<CpuFeatures, PagingError>(
                PagingError::FourKiBGranuleUnsupported,
            ),
            (value >> 28u64) & 0xf == 0 ==> result == match parange_bits(value & 0xf) {
                Some(b) => Ok::<CpuFeatures, PagingError>(CpuFeatures { physical_address_bits: b }),
                None => Err::<CpuFeatures, PagingError>(
                    PagingError::PhysicalAddressRangeUnsupported,
                ),
            },
    {
        if (value >> 28u64) & 0xf != 0 {
            return Err(PagingError::FourKiBGranuleUnsupported);
        }
        let field = value & 0xf;
        let bits: u8 = if field == 0 {
            32
        } else if field == 1 {
            36
        } else if field == 2 {
            40
        } else if field == 3 {
            42
        } else if field == 4 {
            44
        } else if field == 5 {
            48
        } else {
            return Err(PagingError::PhysicalAddressRangeUnsupported);
        };
        Ok(CpuFeatures { physical_address_bits: bits })
    }
}

/// The TCR IPS field for a physical-address width.
pub open spec fn ips_of(bits: u8) -> Option<u64> {
    if bits == 32 {
        Some(0u64)
    } else if bits == 36 {
        Some(1u64)
    } else if bits == 40 {
        Some(2u64)
    } else if bits == 42 {
        Some(3u64)
    } else if bits == 44 {
        Some(4u64)
    } else if bits == 48 {
        Some(5u64)
    } else {
        None
    }
}

/// The TCR IPS encoding of a physical-address width.
pub fn ips_encoding(bits: u8) -> (result: Result<u64, PagingError>)
    ensures
        result == match ips_of(bits) {
            Some(v) => Ok::<u64, PagingError>(v),
            None => Err::<u64, PagingError>(PagingError::PhysicalAddressRangeUnsupported),
        },
{
    if bits == 32 {
        Ok(0)
    } else if bits == 36 {
        Ok(1)
    } else if bits == 40 {
        Ok(2)
    } else if bits == 42 {
        Ok(3)
    } else if bits == 44 {
        Ok(4)
    } else if bits == 48 {
        Ok(5)
    } else {
        Err(PagingError::PhysicalAddressRangeUnsupported)
    }
}

/// TCR fields other than IPS: T0SZ=16, inner/outer WBWA, inner shareable,
/// T1SZ=16, EPD1, 4 KiB TTBR1 granule.
pub const TCR_FIXED_BITS: u64 = 16 | (1 << 8) | (1 << 10) | (3 << 12) | (16 << 16) | (1 << 23) | (
2 << 30);

/// `TCR_EL1` for a 48-bit low TTBR0, 4 KiB, write-back regime.
pub fn tcr_value(features: CpuFeatures) -> (result: Result<u64, PagingError>)
    ensures
        result == match ips_of(features.physical_address_bits) {
            Some(v) => Ok::<u64, PagingError>(TCR_FIXED_BITS | (v << 32u64)),
            None => Err::<u64, PagingError>(PagingError::PhysicalAddressRangeUnsupported),
        },
{
    let ips = match ips_encoding(features.physical_address_bits) {
        Ok(v) => v << 32u64,
        Err(e) => return Err(e),
    };
    Ok(TCR_FIXED_BITS | ips)
}


/// Total pages of a sequence of requests.
pub open spec fn pages_of(s: Seq<MappingRequest>) -> int
    decreases s.len(),
{
    if s.len() == 0 {
        0
    } else {
        pages_of(s.drop_last()) + s.last().page_count
    }
}

/// The conflict of `r` with an existing request `old`, if any.
pub open spec fn conflict_with(old: MappingRequest, r: MappingRequest) -> Option<PagingError> {
    if ranges_overlap(
        r.virtual_start as int,
        virtual_end_of(r),
        old.virtual_start as int,
        virtual_end_of(old),
    ) {
        Some(PagingError::VirtualMappingConflict)
    } else if ranges_overlap(
        r.physical_start as int,
        physical_end_of(r),
        old.physical_start as int,
        physical_end_of(old),
    ) && (r.permissions != old.permissions || r.memory_type != old.memory_type) {
        Some(PagingError::PhysicalAliasConflict)
    } else {
        None
    }
}

/// The first conflict of `r` with the requests `s[j..]`, in plan order.
pub open spec fn first_conflict(s: Seq<MappingRequest>, r: MappingRequest, j: int) -> Option<
    PagingError,
>
    decreases s.len() - j,
{
    if j >= s.len() || j < 0 {
        None
    } else if conflict_with(s[j], r) is Some {
        conflict_with(s[j], r)
    } else {
        first_conflict(s, r, j + 1)
    }
}

/// The outcome of adding `r` to a plan holding `s` and mapping `mapped` pages.
pub open spec fn push_result(s: Seq<MappingRequest>, mapped: u64, r: MappingRequest) -> Result<
    (),
    PagingError,
> {
    match request_error(r) {
        Some(e) => Err(e),
        None => if s.contains(r) {
            Ok(())
        } else {
            match first_conflict(s, r, 0) {
                Some(e) => Err(e),
                None => if s.len() == MAX_MAPPING_REQUESTS {
                    Err(PagingError::MappingPlanCapacityExceeded)
                } else if mapped + r.page_count > MAX_MAPPED_PAGES {
                    Err(PagingError::MappedPageCapacityExceeded)
                } else {
                    Ok(())
                },
            }
        },
    }
}

/// A plan's requests are valid, virtually disjoint, and agree on the
/// attributes of any physical page they share; the page total is bounded.
pub open spec fn plan_ok(s: Seq<MappingRequest>, mapped: u64) -> bool {
    &&& s.len() <= MAX_MAPPING_REQUESTS
    &&& mapped == pages_of(s)
    &&& mapped <= MAX_MAPPED_PAGES
    &&& forall|i: int| 0 <= i < s.len() ==> request_error(#[trigger] s[i]).is_none()
    &&& forall|i: int, j: int|
        0 <= i < s.len() && 0 <= j < s.len() && i != j ==> conflict_with(
            #[trigger] s[i],
            #[trigger] s[j],
        ).is_none()
}

/// A bounded, prevalidated mapping plan.
#[derive(Clone, Debug)]
pub struct MappingPlan {
    requests: Vec<MappingRequest>,
    mapped_pages: u64,
}

impl View for MappingPlan {
    type V = Seq<MappingRequest>;

    closed spec fn view(&self) -> Seq<MappingRequest> {
        self.requests@
    }
}

impl MappingPlan {
    /// Pages the plan maps.
    pub closed spec fn spec_mapped_pages(&self) -> u64 {
        self.mapped_pages
    }

    /// The plan invariant.
    pub open spec fn wf(&self) -> bool {
        plan_ok(self@, self.spec_mapped_pages())
    }

    /// An empty plan.
    pub fn new() -> (plan: MappingPlan)
        ensures
            plan@ == Seq::<MappingRequest>::empty(),
            plan.spec_mapped_pages() == 0,
            plan.wf(),
    {
        MappingPlan { requests: Vec::new(), mapped_pages: 0 }
    }

    /// The accepted requests, in the order they were added.
    pub fn as_slice(&self) -> (s: &[MappingRequest])
        ensures
            s@ == self@,
    {
        self.requests.as_slice()
    }

    /// Pages the plan maps.
    pub fn mapped_pages(&self) -> (n: u64)
        ensures
            n == self.spec_mapped_pages(),
    {
        self.mapped_pages
    }

    /// A copy of the plan.
    pub fn duplicate(&self) -> (p: MappingPlan)
        ensures
            p@ == self@,
            p.spec_mapped_pages() == self.spec_mapped_pages(),
    {
        let mut requests: Vec<MappingRequest> = Vec::new();
        let mut i: usize = 0;
        while i < self.requests.len()
            invariant
                i <= self.requests@.len(),
                requests@ == self.requests@.take(i as int),
            decreases self.requests@.len() - i,
        {
            requests.push(self.requests[i]);
            i += 1;
            assert(requests@ =~= self.requests@.take(i as int));
        }
        assert(requests@ =~= self.requests@);
        MappingPlan { requests, mapped_pages: self.mapped_pages }
    }

    /// Adds `request` after checking it, a repeat being accepted unchanged;
    /// a request overlapping another virtually, or sharing physical pages
    /// with different attributes, is refused, as is one past the capacity.
    pub fn push(&mut self, request: MappingRequest) -> (result: Result<(), PagingError>)
        requires
            old(self).wf(),
        ensures
            final(self).wf(),
            result == push_result(old(self)@, old(self).spec_mapped_pages(), request),
            result is Ok && !old(self)@.contains(request) ==> final(self)@ == old(self)@.push(
                request,
            ),
            !(result is Ok && !old(self)@.contains(request)) ==> final(self)@ == old(self)@
                && final(self).spec_mapped_pages() == old(self).spec_mapped_pages(),
    {
        match validate_request(request) {
            Ok(()) => {},
            Err(e) => return Err(e),
        }
        let n = self.requests.len();
        let mut i: usize = 0;
        while i < n
            invariant
                n == self.requests@.len(),
                i <= n,
                plan_ok(self@, self.mapped_pages),
                self@ == old(self)@,
                self.mapped_pages == old(self).mapped_pages,
                request_error(request).is_none(),
                forall|j: int| 0 <= j < i ==> self.requests@[j] != request,
            decreases n - i,
        {
            if self.requests[i] == request {
                assert(self@.contains(request)) by {
                    assert(self@[i as int] == request);
                }
                return Ok(());
            }
            i += 1;
        }
        assert(!self@.contains(request));
        let virtual_end = match request.virtual_end() {
            Ok(v) => v,
            Err(e) => return Err(e),
        };
        let physical_end = match request.physical_end() {
            Ok(v) => v,
            Err(e) => return Err(e),
        };
        let mut k: usize = 0;
        while k < n
            invariant
                n == self.requests@.len(),
                k <= n,
                plan_ok(self@, self.mapped_pages),
                self@ == old(self)@,
                self.mapped_pages == old(self).mapped_pages,
                !self@.contains(request),
                request_error(request).is_none(),
                virtual_end == virtual_end_of(request),
                physical_end == physical_end_of(request),
                first_conflict(self@, request, 0) == first_conflict(self@, request, k as int),
            decreases n - k,
        {
            let existing = self.requests[k];
            assert(request_error(existing).is_none());
            let existing_virtual_end = match existing.virtual_end() {
                Ok(v) => v,
                Err(e) => return Err(e),
            };
            proof {
                assert(existing == self@[k as int]);
                assert(first_conflict(self@, request, k as int) == if conflict_with(existing, request)
                    is Some {
                    conflict_with(existing, request)
                } else {
                    first_conflict(self@, request, k + 1)
                });
            }
            if overlaps(request.virtual_start, virtual_end, existing.virtual_start, existing_virtual_end) {
                return Err(PagingError::VirtualMappingConflict);
            }
            let existing_physical_end = match existing.physical_end() {
                Ok(v) => v,
                Err(e) => return Err(e),
            };
            if overlaps(
                request.physical_start,
                physical_end,
                existing.physical_start,
                existing_physical_end,
            ) && (request.permissions != existing.permissions || request.memory_type
                != existing.memory_type) {
                return Err(PagingError::PhysicalAliasConflict);
            }
            assert(conflict_with(existing, request).is_none());
            k += 1;
        }
        if n == MAX_MAPPING_REQUESTS {
            return Err(PagingError::MappingPlanCapacityExceeded);
        }
        let new_total = match self.mapped_pages.checked_add(request.page_count) {
            Some(v) => v,
            None => return Err(PagingError::MappedPageCapacityExceeded),
        };
        if new_total > MAX_MAPPED_PAGES {
            return Err(PagingError::MappedPageCapacityExceeded);
        }
        let ghost before = self@;
        self.requests.push(request);
        self.mapped_pages = new_total;
        proof {
            assert(self@.drop_last() =~= before);
            assert forall|i: int, j: int|
                0 <= i < self@.len() && 0 <= j < self@.len() && i != j implies conflict_with(
                #[trigger] self@[i],
                #[trigger] self@[j],
            ).is_none() by {
                if i == before.len() as int {
                    lemma_no_conflict(before, request, j);
                } else if j == before.len() as int {
                    lemma_no_conflict(before, request, i);
                }
            }
        }
        Ok(())
    }

    /// Whether every page of `range` is covered by a request that maps it
    /// to itself.
    pub fn contains_identity_range(&self, range: IdentityRange) -> (result: Result<
        bool,
        PagingError,
    >)
        requires
            self.wf(),
        ensures
            match range_error(range) {
                Some(e) => result == Err::<bool, PagingError>(e),
                None => result == Ok::<bool, PagingError>(
                    forall|k: int|
                        0 <= k < range.page_count ==> #[trigger] identity_at(
                            self@,
                            range.start + k * PAGE_SIZE,
                        ),
                ),
            },
    {
        match range.validate() {
            Ok(()) => {},
            Err(e) => return Err(e),
        }
        let end = match range.end() {
            Ok(v) => v,
            Err(e) => return Err(e),
        };
        let mut cursor = range.start;
        let mut k: u64 = 0;
        while cursor < end
            invariant
                self.wf(),
                end == range_end_of(range),
                range_error(range).is_none(),
                range.page_count > 0,
                k <= range.page_count,
                cursor == range.start + k * PAGE_SIZE,
                forall|j: int| 0 <= j < k ==> #[trigger] identity_at(self@, range.start + j * PAGE_SIZE),
            decreases end - cursor,
        {
            assert(k + 1 <= range.page_count) by (nonlinear_arith)
                requires
                    cursor == range.start + k * 4096,
                    cursor < range.start + range.page_count * 4096,
            ;
            let found = self.find_covering(cursor);
            let index = match found {
                Some(i) => i,
                None => {
                    assert(!identity_at(self@, range.start + k * PAGE_SIZE));
                    return Ok(false);
                },
            };
            let request = self.requests[index];
            let offset = cursor - request.virtual_start;
            if request.physical_start.checked_add(offset) != Some(cursor) {
                assert(!identity_at(self@, range.start + k * PAGE_SIZE));
                return Ok(false);
            }
            assert(identity_at(self@, range.start + k * PAGE_SIZE));
            cursor = cursor + PAGE_SIZE;
            k = k + 1;
        }
        assert(k == range.page_count) by (nonlinear_arith)
            requires
                cursor == range.start + k * 4096,
                cursor >= range.start + range.page_count * 4096,
                k <= range.page_count,
        ;
        Ok(true)
    }

    /// The index of the first request whose virtual range covers `address`.
    fn find_covering(&self, address: u64) -> (found: Option<usize>)
        requires
            self.wf(),
        ensures
            found == first_covering(self@, address as int, 0),
            found matches Some(i) ==> i < self@.len() && covers(self@[i as int], address as int),
    {
        let n = self.requests.len();
        let mut i: usize = 0;
        while i < n
            invariant
                n == self.requests@.len(),
                i <= n,
                self.wf(),
                first_covering(self@, address as int, 0) == first_covering(
                    self@,
                    address as int,
                    i as int,
                ),
            decreases n - i,
        {
            let request = self.requests[i];
            assert(request_error(request).is_none());
            let covered = match request.virtual_end() {
                Ok(end) => request.virtual_start <= address && address < end,
                Err(_) => false,
            };
            if covered {
                return Some(i);
            }
            i += 1;
        }
        None
    }
}

/// Whether `r`'s virtual range covers `address`.
pub open spec fn covers(r: MappingRequest, address: int) -> bool {
    r.virtual_start <= address < virtual_end_of(r)
}

/// The first request of `s[j..]` covering `address`.
pub open spec fn first_covering(s: Seq<MappingRequest>, address: int, j: int) -> Option<usize>
    decreases s.len() - j,
{
    if j >= s.len() || j < 0 {
        None
    } else if covers(s[j], address) {
        Some(j as usize)
    } else {
        first_covering(s, address, j + 1)
    }
}

/// Whether the page at `address` is covered by a request mapping it to itself.
pub open spec fn identity_at(s: Seq<MappingRequest>, address: int) -> bool {
    match first_covering(s, address, 0) {
        Some(i) => s[i as int].physical_start + (address - s[i as int].virtual_start) == address,
        None => false,
    }
}

/// Why an identity range is refused, if it is.
pub open spec fn range_error(r: IdentityRange) -> Option<PagingError> {
    if r.page_count == 0 {
        Some(PagingError::ZeroPageCount)
    } else if r.start % PAGE_SIZE != 0 {
        Some(PagingError::AddressNotPageAligned)
    } else if range_end_of(r) > u64::MAX {
        Some(PagingError::AddressOverflow)
    } else {
        None
    }
}

/// When no request of `s` conflicts with `r`, neither does any single one.
proof fn lemma_no_conflict(s: Seq<MappingRequest>, r: MappingRequest, j: int)
    requires
        first_conflict(s, r, 0).is_none(),
        0 <= j < s.len(),
    ensures
        conflict_with(s[j], r).is_none(),
        conflict_with(r, s[j]).is_none(),
{
    lemma_first_conflict_none(s, r, 0, j);
}

proof fn lemma_first_conflict_none(s: Seq<MappingRequest>, r: MappingRequest, k: int, j: int)
    requires
        first_conflict(s, r, k).is_none(),
        0 <= k <= j < s.len(),
    ensures
        conflict_with(s[j], r).is_none(),
    decreases j - k,
{
    if k < j {
        lemma_first_conflict_none(s, r, k + 1, j);
    }
}


/// The table index of `address` at the level selected by `shift`.
pub open spec fn level_index(address: u64, shift: u64) -> usize {
    ((address >> shift) & 0x1ff) as usize
}

/// The walk of `virtual_address` from `root` over table contents `f`, where
/// `f(table, index)` reads entry `index` of the table at `table`.
#[verifier::opaque]
pub open spec fn walk_spec(
    root: u64,
    virtual_address: u64,
    f: spec_fn(u64, usize) -> Result<u64, PagingError>,
) -> Result<Translation, PagingError> {
    if root >= LOW_VA_LIMIT || root % PAGE_SIZE != 0 {
        Err(PagingError::PhysicalAddressOutOfRange)
    } else if virtual_address >= LOW_VA_LIMIT {
        Err(PagingError::VirtualAddressOutOfRange)
    } else {
        match f(root, level_index(virtual_address, 39)) {
            Err(e) => Err(e),
            Ok(r0) => match table_step(r0) {
                Err(e) => Err(e),
                Ok(t1) => match f(t1, level_index(virtual_address, 30)) {
                    Err(e) => Err(e),
                    Ok(r1) => match table_step(r1) {
                        Err(e) => Err(e),
                        Ok(t2) => match f(t2, level_index(virtual_address, 21)) {
                            Err(e) => Err(e),
                            Ok(r2) => match table_step(r2) {
                                Err(e) => Err(e),
                                Ok(t3) => match f(t3, level_index(virtual_address, 12)) {
                                    Err(e) => Err(e),
                                    Ok(r3) => decode_result(r3, virtual_address & 0xfff),
                                },
                            },
                        },
                    },
                },
            },
        }
    }
}

/// One table level of a walk: the next table, or why the walk stops.
pub fn next_table(raw: u64) -> (result: Result<u64, PagingError>)
    ensures
        result == table_step(raw),
{
    if raw & 3 != 3 {
        return Err(
            if raw & DESCRIPTOR_VALID == 0 {
                PagingError::NotMapped
            } else {
                PagingError::InvalidDescriptor
            },
        );
    }
    if raw & !TABLE_DESCRIPTOR_ALLOWED != 0 {
        return Err(PagingError::InvalidDescriptor);
    }
    Ok(raw & OUTPUT_ADDRESS_MASK)
}

/// Walks the four-level tables from `root` for `virtual_address`, reading
/// each entry through `read(table, index)`. Whenever `read` behaves as a
/// function `f` of its arguments, the result is the walk over `f`.
pub fn walk_with<F>(root: u64, virtual_address: u64, read: F) -> (result: Result<
    Translation,
    PagingError,
>) where F: Fn(u64, usize) -> Result<u64, PagingError>
    requires
        forall|table: u64, index: usize| call_requires(read, (table, index)),
    ensures
        root >= LOW_VA_LIMIT || root % PAGE_SIZE != 0 ==> result == Err::<Translation, PagingError>(
            PagingError::PhysicalAddressOutOfRange,
        ),
        !(root >= LOW_VA_LIMIT || root % PAGE_SIZE != 0) && virtual_address >= LOW_VA_LIMIT
            ==> result == Err::<Translation, PagingError>(PagingError::VirtualAddressOutOfRange),
        forall|f: spec_fn(u64, usize) -> Result<u64, PagingError>|
            #![trigger walk_spec(root, virtual_address, f)]
            (forall|t: u64, i: usize, r: Result<u64, PagingError>|
                #[trigger] call_ensures(read, (t, i), r) ==> r == f(t, i)) ==> result == walk_spec(
                root,
                virtual_address,
                f,
            ),
{
    proof {
        reveal(walk_spec);
    }
    if root >= LOW_VA_LIMIT || !root.is_multiple_of(PAGE_SIZE) {
        return Err(PagingError::PhysicalAddressOutOfRange);
    }
    if virtual_address >= LOW_VA_LIMIT {
        return Err(PagingError::VirtualAddressOutOfRange);
    }
    let r0 = match read(root, ((virtual_address >> 39u64) & 0x1ff) as usize) {
        Ok(v) => v,
        Err(e) => return Err(e),
    };
    let t1 = match next_table(r0) {
        Ok(v) => v,
        Err(e) => return Err(e),
    };
    let r1 = match read(t1, ((virtual_address >> 30u64) & 0x1ff) as usize) {
        Ok(v) => v,
        Err(e) => return Err(e),
    };
    let t2 = match next_table(r1) {
        Ok(v) => v,
        Err(e) => return Err(e),
    };
    let r2 = match read(t2, ((virtual_address >> 21u64) & 0x1ff) as usize) {
        Ok(v) => v,
        Err(e) => return Err(e),
    };
    let t3 = match next_table(r2) {
        Ok(v) => v,
        Err(e) => return Err(e),
    };
    let r3 = match read(t3, ((virtual_address >> 12u64) & 0x1ff) as usize) {
        Ok(v) => v,
        Err(e) => return Err(e),
    };
    decode_page_descriptor(r3, virtual_address & (PAGE_SIZE - 1))
}

} // verus!
