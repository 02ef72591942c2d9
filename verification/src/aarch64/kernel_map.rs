//! The early identity-mapping plan of the AArch64 kernel image and the boot
//! resources it keeps using after the MMU is enabled.
use vstd::prelude::*;
use crate::aarch64::address_space::{build, build_precheck, build_ready, ActiveAddressSpace};
use crate::aarch64::gic::{CPU_INTERFACE_BASE, DISTRIBUTOR_BASE, INTERFACE_SIZE};
use crate::aarch64::paging::{
    identity_at, pages_of, plan_ok, push_result, range_error, IdentityRange, MappingPlan,
    MAX_TABLE_PAGES,
    MappingRequest, MemoryType, PagingError, Permissions, Translation, PAGE_SIZE, PL011_BASE,
};
use crate::boot_protocol::{BootInfo, BOOT_FLAG_FRAMEBUFFER_PRESENT, BOOT_FLAG_RSDP_PRESENT};

verus! {

/// Size of the early boot stack between its two guard pages.
pub const EARLY_STACK_BYTES: u64 = 256 * 1024;

/// Linker-provided boundaries of the kernel image.
#[derive(Clone, Copy, Debug, PartialEq, Eq, Structural)]
pub struct KernelLayout {
    pub kernel_start: u64,
    pub text_start: u64,
    pub text_end: u64,
    pub rodata_start: u64,
    pub rodata_end: u64,
    pub data_start: u64,
    pub data_end: u64,
    pub bss_start: u64,
    pub bss_end: u64,
    pub guard_low_start: u64,
    pub guard_low_end: u64,
    pub stack_bottom: u64,
    pub stack_top: u64,
    pub guard_high_start: u64,
    pub guard_high_end: u64,
    pub kernel_end: u64,
}

/// Every boundary of the layout is page aligned.
pub open spec fn layout_aligned(l: KernelLayout) -> bool {
    &&& l.kernel_start % PAGE_SIZE == 0
    &&& l.text_start % PAGE_SIZE == 0
    &&& l.text_end % PAGE_SIZE == 0
    &&& l.rodata_start % PAGE_SIZE == 0
    &&& l.rodata_end % PAGE_SIZE == 0
    &&& l.data_start % PAGE_SIZE == 0
    &&& l.data_end % PAGE_SIZE == 0
    &&& l.bss_start % PAGE_SIZE == 0
    &&& l.bss_end % PAGE_SIZE == 0
    &&& l.guard_low_start % PAGE_SIZE == 0
    &&& l.guard_low_end % PAGE_SIZE == 0
    &&& l.stack_bottom % PAGE_SIZE == 0
    &&& l.stack_top % PAGE_SIZE == 0
    &&& l.guard_high_start % PAGE_SIZE == 0
    &&& l.guard_high_end % PAGE_SIZE == 0
    &&& l.kernel_end % PAGE_SIZE == 0
}

/// The sections follow each other without gaps: non-empty text and rodata,
/// possibly empty data and bss, a one-page guard, the early stack and a
/// second one-page guard that ends the image.
pub open spec fn layout_contiguous(l: KernelLayout) -> bool {
    &&& l.kernel_start == l.text_start
    &&& l.text_start < l.text_end
    &&& l.text_end == l.rodata_start
    &&& l.rodata_start < l.rodata_end
    &&& l.rodata_end == l.data_start
    &&& l.data_start <= l.data_end
    &&& l.data_end == l.bss_start
    &&& l.bss_start <= l.bss_end
    &&& l.bss_end == l.guard_low_start
    &&& l.guard_low_end == l.stack_bottom
    &&& l.stack_top == l.guard_high_start
    &&& l.guard_high_end == l.kernel_end
    &&& l.guard_low_end == l.guard_low_start + PAGE_SIZE
    &&& l.guard_high_end == l.guard_high_start + PAGE_SIZE
    &&& l.stack_top == l.stack_bottom + EARLY_STACK_BYTES
}

/// What checking `l` with the live stack pointer `sp` gives.
pub open spec fn kernel_layout_result(l: KernelLayout, sp: u64) -> Result<(), PagingError> {
    if !layout_aligned(l) {
        Err(PagingError::AddressNotPageAligned)
    } else if !layout_contiguous(l) {
        Err(PagingError::VirtualMappingConflict)
    } else if !(l.stack_bottom < sp && sp < l.stack_top) {
        Err(PagingError::LiveIdentityMappingMissing)
    } else {
        Ok(())
    }
}

/// Checks the linker layout and that the running stack lies inside the early stack.
pub fn validate_kernel_layout(layout: KernelLayout, stack_pointer: u64) -> (result: Result<
    (),
    PagingError,
>)
    ensures
        result == kernel_layout_result(layout, stack_pointer),
{
    let l = layout;
    if l.kernel_start % PAGE_SIZE != 0 || l.text_start % PAGE_SIZE != 0 || l.text_end % PAGE_SIZE
        != 0 || l.rodata_start % PAGE_SIZE != 0 || l.rodata_end % PAGE_SIZE != 0 || l.data_start
        % PAGE_SIZE != 0 || l.data_end % PAGE_SIZE != 0 || l.bss_start % PAGE_SIZE != 0
        || l.bss_end % PAGE_SIZE != 0 || l.guard_low_start % PAGE_SIZE != 0 || l.guard_low_end
        % PAGE_SIZE != 0 || l.stack_bottom % PAGE_SIZE != 0 || l.stack_top % PAGE_SIZE != 0
        || l.guard_high_start % PAGE_SIZE != 0 || l.guard_high_end % PAGE_SIZE != 0
        || l.kernel_end % PAGE_SIZE != 0 {
        return Err(PagingError::AddressNotPageAligned);
    }
    let low_guard_ok = l.guard_low_end >= l.guard_low_start && l.guard_low_end - l.guard_low_start
        == PAGE_SIZE;
    let high_guard_ok = l.guard_high_end >= l.guard_high_start && l.guard_high_end
        - l.guard_high_start == PAGE_SIZE;
    let stack_ok = l.stack_top >= l.stack_bottom && l.stack_top - l.stack_bottom
        == EARLY_STACK_BYTES;
    if l.kernel_start != l.text_start || l.text_start >= l.text_end || l.text_end != l.rodata_start
        || l.rodata_start >= l.rodata_end || l.rodata_end != l.data_start || l.data_start
        > l.data_end || l.data_end != l.bss_start || l.bss_start > l.bss_end || l.bss_end
        != l.guard_low_start || l.guard_low_end != l.stack_bottom || l.stack_top
        != l.guard_high_start || l.guard_high_end != l.kernel_end || !low_guard_ok
        || !high_guard_ok || !stack_ok {
        return Err(PagingError::VirtualMappingConflict);
    }
    if !(l.stack_bottom < stack_pointer && stack_pointer < l.stack_top) {
        return Err(PagingError::LiveIdentityMappingMissing);
    }
    Ok(())
}

/// The start of the page holding `address`.
pub open spec fn page_floor(address: u64) -> u64 {
    (address - address % PAGE_SIZE) as u64
}

/// Rounds an address down to its page.
pub fn align_down(address: u64) -> (a: u64)
    ensures
        a == page_floor(address),
        a % PAGE_SIZE == 0,
        a <= address < a + PAGE_SIZE,
{
    address - address % PAGE_SIZE
}

/// Rounds an address up to a page boundary.
pub fn align_up(address: u64) -> (result: Result<u64, PagingError>)
    ensures
        address + (PAGE_SIZE - 1) > u64::MAX ==> result == Err::<u64, PagingError>(
            PagingError::AddressOverflow,
        ),
        address + (PAGE_SIZE - 1) <= u64::MAX ==> result == Ok::<u64, PagingError>(
            page_floor((address + (PAGE_SIZE - 1)) as u64),
        ),
{
    match address.checked_add(PAGE_SIZE - 1) {
        Some(a) => Ok(align_down(a)),
        None => Err(PagingError::AddressOverflow),
    }
}

/// The request mapping `[start, end)` to itself, or why it is refused.
pub open spec fn identity_request(start: u64, end: u64, p: Permissions, t: MemoryType) -> Result<
    MappingRequest,
    PagingError,
> {
    if start == end {
        Err(PagingError::ZeroPageCount)
    } else if start % PAGE_SIZE != 0 || end % PAGE_SIZE != 0 {
        Err(PagingError::AddressNotPageAligned)
    } else if end < start {
        Err(PagingError::AddressOverflow)
    } else {
        Ok(
            MappingRequest {
                virtual_start: start,
                physical_start: start,
                page_count: ((end - start) / PAGE_SIZE as int) as u64,
                permissions: p,
                memory_type: t,
            },
        )
    }
}

/// Builds the identity request for a page-aligned range.
pub fn identity_range_request(start: u64, end: u64, p: Permissions, t: MemoryType) -> (result:
    Result<MappingRequest, PagingError>)
    ensures
        result == identity_request(start, end, p, t),
{
    if start == end {
        return Err(PagingError::ZeroPageCount);
    }
    if start % PAGE_SIZE != 0 || end % PAGE_SIZE != 0 {
        return Err(PagingError::AddressNotPageAligned);
    }
    if end < start {
        return Err(PagingError::AddressOverflow);
    }
    Ok(
        MappingRequest {
            virtual_start: start,
            physical_start: start,
            page_count: (end - start) / PAGE_SIZE,
            permissions: p,
            memory_type: t,
        },
    )
}

/// The identity request covering every page that a byte range touches.
pub open spec fn resource_request(start: u64, len: u64, p: Permissions, t: MemoryType) -> Result<
    MappingRequest,
    PagingError,
> {
    if start == 0 || len == 0 {
        Err(PagingError::ZeroPageCount)
    } else if start + len + (PAGE_SIZE - 1) > u64::MAX {
        Err(PagingError::AddressOverflow)
    } else {
        identity_request(
            page_floor(start),
            page_floor((start + len + (PAGE_SIZE - 1)) as u64),
            p,
            t,
        )
    }
}

/// A multiple of a page size `d` rounded down from `x`, and the pages
/// between two such multiples.
proof fn lemma_page_multiples(x: int, y: int, d: int)
    requires
        0 <= x,
        0 <= y,
        0 < d,
    ensures
        x - x % d == d * (x / d),
        0 <= x % d < d,
        (x - x % d) % d == 0,
        ((y - y % d) - (x - x % d)) / d * d == (y - y % d) - (x - x % d),
{
    vstd::arithmetic::div_mod::lemma_fundamental_div_mod(x, d);
    vstd::arithmetic::div_mod::lemma_fundamental_div_mod(y, d);
    vstd::arithmetic::div_mod::lemma_mod_multiples_basic(x / d, d);
    assert(d * (x / d) == (x / d) * d) by (nonlinear_arith);
    assert(d * (y / d) - d * (x / d) == d * (y / d - x / d)) by (nonlinear_arith);
    vstd::arithmetic::div_mod::lemma_div_multiples_vanish(y / d - x / d, d);
    assert((y / d - x / d) * d == d * (y / d - x / d)) by (nonlinear_arith);
}

/// The identity request for a resource of `len` bytes at `start` exists
/// exactly when the resource is non-empty, not at address zero, and its end
/// rounded up to a page fits in 64 bits. It maps its pages to themselves,
/// starts at the page holding the first byte, covers every byte of the
/// resource and ends with the page holding the last one.
pub proof fn lemma_resource_request_covers(start: u64, len: u64, p: Permissions, t: MemoryType)
    ensures
        resource_request(start, len, p, t) is Ok <==> start != 0 && len != 0 && start + len + 4095
            <= u64::MAX,
        resource_request(start, len, p, t) matches Ok(r) ==> {
            &&& r.physical_start == r.virtual_start
            &&& r.virtual_start % 4096 == 0
            &&& r.virtual_start <= start < r.virtual_start + 4096
            &&& start + len <= r.virtual_start + r.page_count * 4096
            &&& r.virtual_start + (r.page_count - 1) * 4096 < start + len
            &&& r.permissions == p
            &&& r.memory_type == t
        },
{
    if start != 0 && len != 0 && start + len + 4095 <= u64::MAX {
        let e = start + len + 4095;
        lemma_page_multiples(start as int, e, 4096);
        let fa = start - start % 4096;
        let fe = e - e % 4096;
        assert(page_floor(start) == fa);
        assert(page_floor(e as u64) == fe);
        assert(fe > fa);
        let k = (fe - fa) / 4096;
        assert(k * 4096 == fe - fa);
        assert(0 <= k <= u64::MAX) by (nonlinear_arith)
            requires
                k * 4096 == fe - fa,
                0 < fe - fa <= u64::MAX,
        ;
    }
}

/// Builds the identity request for the pages a resource occupies.
pub fn rounded_resource_request(start: u64, len: u64, p: Permissions, t: MemoryType) -> (result:
    Result<MappingRequest, PagingError>)
    ensures
        result == resource_request(start, len, p, t),
        result is Ok <==> start != 0 && len != 0 && start + len + 4095 <= u64::MAX,
        result matches Ok(r) ==> {
            &&& r.physical_start == r.virtual_start
            &&& r.virtual_start % 4096 == 0
            &&& r.virtual_start <= start < r.virtual_start + 4096
            &&& start + len <= r.virtual_start + r.page_count * 4096
            &&& r.virtual_start + (r.page_count - 1) * 4096 < start + len
            &&& r.permissions == p
            &&& r.memory_type == t
        },
{
    proof {
        lemma_resource_request_covers(start, len, p, t);
    }
    if start == 0 || len == 0 {
        return Err(PagingError::ZeroPageCount);
    }
    let aligned_start = align_down(start);
    let byte_end = match start.checked_add(len) {
        Some(e) => e,
        None => return Err(PagingError::AddressOverflow),
    };
    let end = match align_up(byte_end) {
        Ok(e) => e,
        Err(e) => return Err(e),
    };
    identity_range_request(aligned_start, end, p, t)
}

/// The single-page device mapping of the PL011 UART.
pub open spec fn pl011_request() -> MappingRequest {
    MappingRequest {
        virtual_start: PL011_BASE,
        physical_start: PL011_BASE,
        page_count: 1,
        permissions: Permissions::ReadWriteNoExecute,
        memory_type: MemoryType::Device,
    }
}

/// The device mapping of one GIC interface at `base`.
pub open spec fn gic_request(base: u64) -> MappingRequest {
    MappingRequest {
        virtual_start: base,
        physical_start: base,
        page_count: (INTERFACE_SIZE / PAGE_SIZE) as u64,
        permissions: Permissions::ReadWriteNoExecute,
        memory_type: MemoryType::Device,
    }
}

/// The device mapping of the GIC interface at `base`.
fn gic_mapping(base: u64) -> (r: MappingRequest)
    ensures
        r == gic_request(base),
{
    MappingRequest {
        virtual_start: base,
        physical_start: base,
        page_count: INTERFACE_SIZE / PAGE_SIZE,
        permissions: Permissions::ReadWriteNoExecute,
        memory_type: MemoryType::Device,
    }
}

/// The identity request for the retained boot-information storage.
pub open spec fn boot_storage_request(info: BootInfo) -> Result<MappingRequest, PagingError> {
    if info.boot_info_storage.start + info.boot_info_storage.byte_len > u64::MAX {
        Err(PagingError::AddressOverflow)
    } else {
        identity_request(
            info.boot_info_storage.start,
            (info.boot_info_storage.start + info.boot_info_storage.byte_len) as u64,
            Permissions::ReadOnlyNoExecute,
            MemoryType::NormalWriteBack,
        )
    }
}

/// The identity request for the page holding the ACPI RSDP.
pub open spec fn rsdp_request(address: u64) -> Result<MappingRequest, PagingError> {
    if page_floor(address) + PAGE_SIZE > u64::MAX {
        Err(PagingError::AddressOverflow)
    } else {
        identity_request(
            page_floor(address),
            (page_floor(address) + PAGE_SIZE) as u64,
            Permissions::ReadOnlyNoExecute,
            MemoryType::NormalWriteBack,
        )
    }
}

/// A possibly empty section becomes no request at all.
pub open spec fn section_steps(start: u64, end: u64) -> Seq<Result<MappingRequest, PagingError>> {
    if start == end {
        Seq::empty()
    } else {
        seq![
            identity_request(start, end, Permissions::ReadWriteNoExecute, MemoryType::NormalWriteBack),
        ]
    }
}

/// The requests for the kernel image and its early stack, in order.
pub open spec fn image_steps(l: KernelLayout) -> Seq<Result<MappingRequest, PagingError>> {
    seq![
        identity_request(l.text_start, l.text_end, Permissions::ReadExecute, MemoryType::NormalWriteBack),
        identity_request(
            l.rodata_start,
            l.rodata_end,
            Permissions::ReadOnlyNoExecute,
            MemoryType::NormalWriteBack,
        ),
    ] + section_steps(l.data_start, l.data_end) + section_steps(l.bss_start, l.bss_end) + seq![
        identity_request(
            l.stack_bottom,
            l.stack_top,
            Permissions::ReadWriteNoExecute,
            MemoryType::NormalWriteBack,
        ),
    ]
}

/// The requests for boot resources and devices, in order.
pub open spec fn resource_steps(info: BootInfo) -> Seq<Result<MappingRequest, PagingError>> {
    seq![
        boot_storage_request(info),
        resource_request(
            info.memory_map.address,
            info.memory_map.byte_len,
            Permissions::ReadOnlyNoExecute,
            MemoryType::NormalWriteBack,
        ),
        Ok(pl011_request()),
        Ok(gic_request(DISTRIBUTOR_BASE)),
        Ok(gic_request(CPU_INTERFACE_BASE)),
    ] + (if info.flags & BOOT_FLAG_FRAMEBUFFER_PRESENT != 0 {
        seq![
            resource_request(
                info.framebuffer.address,
                info.framebuffer.byte_len,
                Permissions::ReadWriteNoExecute,
                MemoryType::NormalNonCacheable,
            ),
        ]
    } else {
        Seq::empty()
    }) + (if info.flags & BOOT_FLAG_RSDP_PRESENT != 0 {
        seq![rsdp_request(info.rsdp_address)]
    } else {
        Seq::empty()
    })
}

/// The requests the early plan adds, in order; a refused one is its error.
pub open spec fn kernel_plan_steps(info: BootInfo, l: KernelLayout) -> Seq<
    Result<MappingRequest, PagingError>,
> {
    image_steps(l) + resource_steps(info)
}

/// The requests of a plan holding `s` after one more step.
pub open spec fn step_result(s: Seq<MappingRequest>, step: Result<MappingRequest, PagingError>) -> Result<
    Seq<MappingRequest>,
    PagingError,
> {
    match step {
        Err(e) => Err(e),
        Ok(r) => match push_result(s, pages_of(s) as u64, r) {
            Err(e) => Err(e),
            Ok(_) => Ok(
                if s.contains(r) {
                    s
                } else {
                    s.push(r)
                },
            ),
        },
    }
}

/// The requests of a plan holding `s` after all of `steps`, or the first error.
pub open spec fn fold_steps(s: Seq<MappingRequest>, steps: Seq<Result<MappingRequest, PagingError>>) -> Result<
    Seq<MappingRequest>,
    PagingError,
>
    decreases steps.len(),
{
    if steps.len() == 0 {
        Ok(s)
    } else {
        match step_result(s, steps[0]) {
            Err(e) => Err(e),
            Ok(next) => fold_steps(next, steps.drop_first()),
        }
    }
}

/// Whether a plan holding `s` maps the single page at `guard` to itself.
pub open spec fn guard_identity(s: Seq<MappingRequest>, guard: u64) -> Result<bool, PagingError> {
    match range_error(IdentityRange { start: guard, page_count: 1 }) {
        Some(e) => Err(e),
        None => Ok(identity_at(s, guard as int)),
    }
}

/// The requests of the early kernel plan, or why it cannot be made.
pub open spec fn kernel_plan_result(info: BootInfo, l: KernelLayout) -> Result<
    Seq<MappingRequest>,
    PagingError,
> {
    match fold_steps(Seq::empty(), kernel_plan_steps(info, l)) {
        Err(e) => Err(e),
        Ok(s) => match guard_identity(s, l.guard_low_start) {
            Err(e) => Err(e),
            Ok(true) => Err(PagingError::VirtualMappingConflict),
            Ok(false) => match guard_identity(s, l.guard_high_start) {
                Err(e) => Err(e),
                Ok(true) => Err(PagingError::VirtualMappingConflict),
                Ok(false) => Ok(s),
            },
        },
    }
}

/// Adds one planned request to `plan`.
fn push_step(plan: &mut MappingPlan, step: Result<MappingRequest, PagingError>) -> (result: Result<
    (),
    PagingError,
>)
    requires
        old(plan).wf(),
    ensures
        final(plan).wf(),
        match step_result(old(plan)@, step) {
            Ok(s) => result is Ok && final(plan)@ == s,
            Err(e) => result == Err::<(), PagingError>(e),
        },
{
    match step {
        Err(e) => Err(e),
        Ok(r) => plan.push(r),
    }
}

/// Appends the image requests.
fn push_image_steps(v: &mut Vec<Result<MappingRequest, PagingError>>, l: KernelLayout)
    ensures
        final(v)@ == old(v)@ + image_steps(l),
{
    let ghost start = v@;
    v.push(
        identity_range_request(
            l.text_start,
            l.text_end,
            Permissions::ReadExecute,
            MemoryType::NormalWriteBack,
        ),
    );
    v.push(
        identity_range_request(
            l.rodata_start,
            l.rodata_end,
            Permissions::ReadOnlyNoExecute,
            MemoryType::NormalWriteBack,
        ),
    );
    let ghost head = v@;
    if l.data_start != l.data_end {
        v.push(
            identity_range_request(
                l.data_start,
                l.data_end,
                Permissions::ReadWriteNoExecute,
                MemoryType::NormalWriteBack,
            ),
        );
    }
    assert(v@ =~= head + section_steps(l.data_start, l.data_end));
    let ghost with_data = v@;
    if l.bss_start != l.bss_end {
        v.push(
            identity_range_request(
                l.bss_start,
                l.bss_end,
                Permissions::ReadWriteNoExecute,
                MemoryType::NormalWriteBack,
            ),
        );
    }
    assert(v@ =~= with_data + section_steps(l.bss_start, l.bss_end));
    v.push(
        identity_range_request(
            l.stack_bottom,
            l.stack_top,
            Permissions::ReadWriteNoExecute,
            MemoryType::NormalWriteBack,
        ),
    );
    assert(v@ =~= start + image_steps(l));
}

/// Appends the boot-resource and device requests.
fn push_resource_steps(v: &mut Vec<Result<MappingRequest, PagingError>>, info: &BootInfo)
    ensures
        final(v)@ == old(v)@ + resource_steps(*info),
{
    let ghost start = v@;
    let storage = match info.boot_info_storage.start.checked_add(info.boot_info_storage.byte_len) {
        Some(end) => identity_range_request(
            info.boot_info_storage.start,
            end,
            Permissions::ReadOnlyNoExecute,
            MemoryType::NormalWriteBack,
        ),
        None => Err(PagingError::AddressOverflow),
    };
    v.push(storage);
    v.push(
        rounded_resource_request(
            info.memory_map.address,
            info.memory_map.byte_len,
            Permissions::ReadOnlyNoExecute,
            MemoryType::NormalWriteBack,
        ),
    );
    v.push(
        Ok(
            MappingRequest {
                virtual_start: PL011_BASE,
                physical_start: PL011_BASE,
                page_count: 1,
                permissions: Permissions::ReadWriteNoExecute,
                memory_type: MemoryType::Device,
            },
        ),
    );
    v.push(Ok(gic_mapping(DISTRIBUTOR_BASE)));
    v.push(Ok(gic_mapping(CPU_INTERFACE_BASE)));
    let ghost fixed = v@;
    if info.flags & BOOT_FLAG_FRAMEBUFFER_PRESENT != 0 {
        v.push(
            rounded_resource_request(
                info.framebuffer.address,
                info.framebuffer.byte_len,
                Permissions::ReadWriteNoExecute,
                MemoryType::NormalNonCacheable,
            ),
        );
    }
    let ghost with_framebuffer = v@;
    if info.flags & BOOT_FLAG_RSDP_PRESENT != 0 {
        let page = align_down(info.rsdp_address);
        let rsdp = match page.checked_add(PAGE_SIZE) {
            Some(end) => identity_range_request(
                page,
                end,
                Permissions::ReadOnlyNoExecute,
                MemoryType::NormalWriteBack,
            ),
            None => Err(PagingError::AddressOverflow),
        };
        v.push(rsdp);
    }
    assert(v@ =~= start + resource_steps(*info));
}

/// Plans the identity mappings of the kernel image, its early stack, the
/// boot resources it still reads, the UART, the GIC and, when present, the
/// framebuffer and the RSDP page; the stack's guard pages must stay unmapped.
pub fn create_mapping_plan(info: &BootInfo, layout: KernelLayout) -> (result: Result<
    MappingPlan,
    PagingError,
>)
    ensures
        match kernel_plan_result(*info, layout) {
            Ok(s) => result matches Ok(plan) && plan@ == s && plan.wf(),
            Err(e) => result is Err && result->Err_0 == e,
        },
{
    let mut steps: Vec<Result<MappingRequest, PagingError>> = Vec::new();
    push_image_steps(&mut steps, layout);
    push_resource_steps(&mut steps, info);
    let ghost all = steps@;
    assert(all =~= kernel_plan_steps(*info, layout));
    let mut plan = MappingPlan::new();
    assert(all.skip(0) =~= all);
    let mut i: usize = 0;
    while i < steps.len()
        invariant
            steps@ == all,
            all == kernel_plan_steps(*info, layout),
            i <= all.len(),
            plan.wf(),
            fold_steps(Seq::empty(), all) == fold_steps(plan@, all.skip(i as int)),
        decreases all.len() - i,
    {
        let ghost before = plan@;
        let step = steps[i];
        let pushed = push_step(&mut plan, step);
        assert(all.skip(i as int)[0] == step);
        assert(all.skip(i as int).drop_first() =~= all.skip(i + 1));
        match pushed {
            Err(e) => {
                return Err(e);
            },
            Ok(()) => {},
        }
        i += 1;
    }
    assert(all.skip(all.len() as int) =~= Seq::<Result<MappingRequest, PagingError>>::empty());
    let low = plan.contains_identity_range(IdentityRange { start: layout.guard_low_start, page_count: 1 });
    assert(layout.guard_low_start + 0 * PAGE_SIZE == layout.guard_low_start);
    let low = match low {
        Ok(b) => b,
        Err(e) => return Err(e),
    };
    if low {
        return Err(PagingError::VirtualMappingConflict);
    }
    let high = plan.contains_identity_range(IdentityRange { start: layout.guard_high_start, page_count: 1 });
    assert(layout.guard_high_start + 0 * PAGE_SIZE == layout.guard_high_start);
    let high = match high {
        Ok(b) => b,
        Err(e) => return Err(e),
    };
    if high {
        return Err(PagingError::VirtualMappingConflict);
    }
    Ok(plan)
}

/// What checking that `address` translates to itself with `p` and `t` gives.
pub open spec fn expectation_result(
    space: ActiveAddressSpace,
    address: u64,
    p: Permissions,
    t: MemoryType,
) -> Result<(), PagingError> {
    match space.translate_spec(address) {
        Err(e) => Err(e),
        Ok(tr) => if tr == (Translation { physical_address: address, permissions: p, memory_type: t }) {
            Ok(())
        } else {
            Err(PagingError::LiveIdentityMappingMissing)
        },
    }
}

/// Checks that `address` translates to itself with `permissions` and `memory_type`.
pub fn expect_translation(
    space: &ActiveAddressSpace,
    address: u64,
    permissions: Permissions,
    memory_type: MemoryType,
) -> (result: Result<(), PagingError>)
    ensures
        result == expectation_result(*space, address, permissions, memory_type),
{
    let translation = match space.translate(address) {
        Ok(t) => t,
        Err(e) => return Err(e),
    };
    if translation.physical_address != address || translation.permissions != permissions
        || translation.memory_type != memory_type {
        return Err(PagingError::LiveIdentityMappingMissing);
    }
    Ok(())
}

/// The first failing expectation of `checks` at or after `i`.
pub open spec fn first_expectation_failure(
    space: ActiveAddressSpace,
    checks: Seq<(u64, Permissions, MemoryType)>,
    i: int,
) -> Result<(), PagingError>
    decreases checks.len() - i,
{
    if i < 0 || i >= checks.len() {
        Ok(())
    } else {
        match expectation_result(space, checks[i].0, checks[i].1, checks[i].2) {
            Err(e) => Err(e),
            Ok(()) => first_expectation_failure(space, checks, i + 1),
        }
    }
}

/// The translations the running kernel relies on, in the order they are
/// checked: text and rodata, the non-empty writable sections, the early
/// stack, the live stack pointer, the root table, the vectors, the boot
/// resources, and the framebuffer and RSDP when present.
pub open spec fn permission_checks(
    root: u64,
    info: BootInfo,
    l: KernelLayout,
    sp: u64,
    vbar: u64,
) -> Seq<(u64, Permissions, MemoryType)> {
    let wb = MemoryType::NormalWriteBack;
    let rw = Permissions::ReadWriteNoExecute;
    seq![(l.text_start, Permissions::ReadExecute, wb), (l.rodata_start, Permissions::ReadOnlyNoExecute, wb)]
        + (if l.data_start < l.data_end { seq![(l.data_start, rw, wb)] } else { Seq::empty() })
        + (if l.bss_start < l.bss_end { seq![(l.bss_start, rw, wb)] } else { Seq::empty() })
        + seq![(l.stack_bottom, rw, wb), (sp, rw, wb), (root, rw, wb), (vbar, Permissions::ReadExecute, wb),
        (info.boot_info_storage.start, Permissions::ReadOnlyNoExecute, wb),
        (info.memory_map.address, Permissions::ReadOnlyNoExecute, wb)]
        + (if info.flags & BOOT_FLAG_FRAMEBUFFER_PRESENT != 0 {
        seq![(info.framebuffer.address, rw, MemoryType::NormalNonCacheable)]
    } else {
        Seq::empty()
    }) + (if info.flags & BOOT_FLAG_RSDP_PRESENT != 0 {
        seq![(info.rsdp_address, Permissions::ReadOnlyNoExecute, wb)]
    } else {
        Seq::empty()
    })
}

/// Runs `checks` in order and stops at the first failure.
fn run_expectations(space: &ActiveAddressSpace, checks: &Vec<(u64, Permissions, MemoryType)>) -> (result:
    Result<(), PagingError>)
    ensures
        result == first_expectation_failure(*space, checks@, 0),
{
    let mut i: usize = 0;
    while i < checks.len()
        invariant
            i <= checks@.len(),
            first_expectation_failure(*space, checks@, 0) == first_expectation_failure(
                *space,
                checks@,
                i as int,
            ),
        decreases checks@.len() - i,
    {
        let (address, p, t) = checks[i];
        match expect_translation(space, address, p, t) {
            Err(e) => return Err(e),
            Ok(()) => {},
        }
        i += 1;
    }
    Ok(())
}

/// Checks that the kernel's code, data, stacks, tables, vectors and boot
/// resources translate to themselves with the permissions and memory types
/// they need. `stack_pointer` and `vector_base` are the live `SP` and `VBAR_EL1`.
pub fn validate_permission_mappings(
    space: &ActiveAddressSpace,
    info: &BootInfo,
    layout: KernelLayout,
    stack_pointer: u64,
    vector_base: u64,
) -> (result: Result<(), PagingError>)
    ensures
        result == first_expectation_failure(
            *space,
            permission_checks(space.spec_root(), *info, layout, stack_pointer, vector_base),
            0,
        ),
{
    let wb = MemoryType::NormalWriteBack;
    let rw = Permissions::ReadWriteNoExecute;
    let mut checks: Vec<(u64, Permissions, MemoryType)> = Vec::new();
    checks.push((layout.text_start, Permissions::ReadExecute, wb));
    checks.push((layout.rodata_start, Permissions::ReadOnlyNoExecute, wb));
    let ghost head = checks@;
    if layout.data_start < layout.data_end {
        checks.push((layout.data_start, rw, wb));
    }
    let ghost with_data = checks@;
    if layout.bss_start < layout.bss_end {
        checks.push((layout.bss_start, rw, wb));
    }
    let ghost sections = checks@;
    checks.push((layout.stack_bottom, rw, wb));
    checks.push((stack_pointer, rw, wb));
    checks.push((space.root_address(), rw, wb));
    checks.push((vector_base, Permissions::ReadExecute, wb));
    checks.push((info.boot_info_storage.start, Permissions::ReadOnlyNoExecute, wb));
    checks.push((info.memory_map.address, Permissions::ReadOnlyNoExecute, wb));
    let ghost fixed = checks@;
    if info.flags & BOOT_FLAG_FRAMEBUFFER_PRESENT != 0 {
        checks.push((info.framebuffer.address, rw, MemoryType::NormalNonCacheable));
    }
    let ghost with_framebuffer = checks@;
    if info.flags & BOOT_FLAG_RSDP_PRESENT != 0 {
        checks.push((info.rsdp_address, Permissions::ReadOnlyNoExecute, wb));
    }
    assert(checks@ =~= permission_checks(
        space.spec_root(),
        *info,
        layout,
        stack_pointer,
        vector_base,
    ));
    run_expectations(space, &checks)
}

/// Whether a walk reports that nothing is mapped.
pub open spec fn reports_unmapped(r: Result<Translation, PagingError>) -> bool {
    r == Err::<Translation, PagingError>(PagingError::NotMapped)
}

/// Checks that the null page is unmapped.
pub fn validate_null_unmapped(space: &ActiveAddressSpace) -> (result: Result<(), PagingError>)
    ensures
        result is Ok <==> reports_unmapped(space.translate_spec(0)),
        result is Err ==> result == Err::<(), PagingError>(PagingError::NullPageMapped),
{
    match space.translate(0) {
        Err(PagingError::NotMapped) => Ok(()),
        _ => Err(PagingError::NullPageMapped),
    }
}

/// Checks that both early-stack guard pages are unmapped.
pub fn validate_guards_unmapped(space: &ActiveAddressSpace, layout: KernelLayout) -> (result: Result<
    (),
    PagingError,
>)
    ensures
        result is Ok <==> reports_unmapped(space.translate_spec(layout.guard_low_start))
            && reports_unmapped(space.translate_spec(layout.guard_high_start)),
        result is Err ==> result == Err::<(), PagingError>(PagingError::VirtualMappingConflict),
{
    match space.translate(layout.guard_low_start) {
        Err(PagingError::NotMapped) => {},
        _ => return Err(PagingError::VirtualMappingConflict),
    }
    match space.translate(layout.guard_high_start) {
        Err(PagingError::NotMapped) => Ok(()),
        _ => Err(PagingError::VirtualMappingConflict),
    }
}

/// Checks the UART's device mapping.
pub fn validate_uart_mapping(space: &ActiveAddressSpace) -> (result: Result<(), PagingError>)
    ensures
        result == expectation_result(
            *space,
            PL011_BASE,
            Permissions::ReadWriteNoExecute,
            MemoryType::Device,
        ),
{
    expect_translation(space, PL011_BASE, Permissions::ReadWriteNoExecute, MemoryType::Device)
}

/// The first and last byte of both GIC interfaces, in the order they are checked.
pub open spec fn gic_checks() -> Seq<(u64, Permissions, MemoryType)> {
    let rw = Permissions::ReadWriteNoExecute;
    let d = MemoryType::Device;
    seq![(DISTRIBUTOR_BASE, rw, d), ((DISTRIBUTOR_BASE + INTERFACE_SIZE - 1) as u64, rw, d),
    (CPU_INTERFACE_BASE, rw, d), ((CPU_INTERFACE_BASE + INTERFACE_SIZE - 1) as u64, rw, d)]
}

/// Checks the device mappings of both GIC interfaces at their first and last byte.
pub fn validate_gic_mappings(space: &ActiveAddressSpace) -> (result: Result<(), PagingError>)
    ensures
        result == first_expectation_failure(*space, gic_checks(), 0),
{
    let rw = Permissions::ReadWriteNoExecute;
    let d = MemoryType::Device;
    let mut checks: Vec<(u64, Permissions, MemoryType)> = Vec::new();
    checks.push((DISTRIBUTOR_BASE, rw, d));
    checks.push((DISTRIBUTOR_BASE + (INTERFACE_SIZE - 1), rw, d));
    checks.push((CPU_INTERFACE_BASE, rw, d));
    checks.push((CPU_INTERFACE_BASE + (INTERFACE_SIZE - 1), rw, d));
    assert(checks@ =~= gic_checks());
    run_expectations(space, &checks)
}

/// A built early address space with the ranges that must stay live across
/// its activation.
pub struct PagingBuild {
    pub address_space: ActiveAddressSpace,
    pub live_ranges: Vec<IdentityRange>,
    pub mapped_pages: u64,
    pub layout: KernelLayout,
}

/// The identity ranges of a plan's requests, in order.
pub open spec fn live_ranges_of(s: Seq<MappingRequest>) -> Seq<IdentityRange> {
    Seq::new(s.len(), |i: int| IdentityRange { start: s[i].virtual_start, page_count: s[i].page_count })
}

/// Checks the layout, plans the early mappings and builds their tables from
/// `pool_pages`; see `build` for `mmfr0`, `sctlr` and `pool_identity`. Every
/// planned range must stay live across activation.
pub fn build_owned_address_space(
    info: &BootInfo,
    layout: KernelLayout,
    stack_pointer: u64,
    pool_pages: &[u64],
    mmfr0: u64,
    sctlr: u64,
    pool_identity: &[bool],
) -> (result: Result<PagingBuild, PagingError>)
    requires
        pool_identity@.len() == pool_pages@.len(),
        forall|i: int, j: int|
            0 <= i < j < pool_pages@.len() && j < MAX_TABLE_PAGES ==> #[trigger] pool_pages@[i]
                != #[trigger] pool_pages@[j],
    ensures
        kernel_layout_result(layout, stack_pointer) matches Err(e) ==> result is Err && result->Err_0
            == e,
        kernel_layout_result(layout, stack_pointer) is Ok ==> match kernel_plan_result(*info, layout) {
            Err(e) => result is Err && result->Err_0 == e,
            Ok(s) => {
                &&& build_precheck(s, pool_pages@, mmfr0, sctlr, pool_identity@) matches Some(e)
                    ==> result is Err && result->Err_0 == e
                &&& result matches Ok(b) ==> {
                    &&& b.layout == layout
                    &&& b.live_ranges@ == live_ranges_of(s)
                    &&& b.mapped_pages == pages_of(s) + MAX_TABLE_PAGES
                    &&& b.address_space.wf()
                    &&& b.address_space.plan_requests() == s
                    &&& forall|j: int, k: int|
                        0 <= j < s.len() && 0 <= k < s[j].page_count ==> #[trigger] b.address_space.maps_page(
                            (s[j].virtual_start + k * PAGE_SIZE) as u64,
                            (s[j].physical_start + k * PAGE_SIZE) as u64,
                            s[j].permissions,
                            s[j].memory_type,
                        )
                }
                &&& build_ready(s, pool_pages@, mmfr0, sctlr, pool_identity@) && pages_of(s)
                    + MAX_TABLE_PAGES <= u64::MAX ==> result is Ok
            },
        },
{
    match validate_kernel_layout(layout, stack_pointer) {
        Ok(()) => {},
        Err(e) => return Err(e),
    }
    let plan = match create_mapping_plan(info, layout) {
        Ok(p) => p,
        Err(e) => return Err(e),
    };
    let requests = plan.as_slice();
    let mut live_ranges: Vec<IdentityRange> = Vec::new();
    let mut i: usize = 0;
    while i < requests.len()
        invariant
            i <= requests@.len(),
            live_ranges@ == live_ranges_of(requests@).take(i as int),
        decreases requests@.len() - i,
    {
        live_ranges.push(IdentityRange { start: requests[i].virtual_start, page_count: requests[i].page_count });
        i += 1;
        assert(live_ranges@ =~= live_ranges_of(requests@).take(i as int));
    }
    assert(live_ranges@ =~= live_ranges_of(requests@));
    let mapped_pages = match plan.mapped_pages().checked_add(MAX_TABLE_PAGES as u64) {
        Some(n) => n,
        None => return Err(PagingError::MappedPageCapacityExceeded),
    };
    let address_space = match build(&plan, pool_pages, mmfr0, sctlr, pool_identity) {
        Ok(space) => space,
        Err(e) => return Err(e),
    };
    Ok(PagingBuild { address_space, live_ranges, mapped_pages, layout })
}

} // verus!
