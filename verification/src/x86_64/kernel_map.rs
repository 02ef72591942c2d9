//! The early x86-64 kernel address space: the identity-mapping plan for the
//! kernel image, its boot stack and the boot resources, and the check of the
//! mappings the kernel needs once the new tables are live.
use vstd::prelude::*;
use crate::boot_protocol::{BootInfo, BOOT_FLAG_RSDP_PRESENT};
use crate::x86_64::paging::{
    align_down, align_up, build, build_ready, cpu_info_result, cpu_paging_info, first_overlap, insertion_point,
    request_error, rw_nx, ActiveAddressSpace, MappingPermissions, MappingPlan, MappingPurpose,
    MappingRequest, PageTablePagePool, PagingError, Translation, MAX_MAPPING_REQUESTS, PAGE_SIZE,
};

verus! {

/// Linker boundaries of the kernel image sections and of the boot stack.
#[derive(Clone, Copy, Debug, PartialEq, Eq, Structural)]
pub struct KernelSections {
    pub text_start: u64,
    pub text_end: u64,
    pub rodata_start: u64,
    pub rodata_end: u64,
    pub data_start: u64,
    pub data_end: u64,
    pub bss_start: u64,
    pub bss_end: u64,
    pub after_stack_start: u64,
    pub after_stack_end: u64,
    pub stack_bottom: u64,
    pub stack_top: u64,
}

/// Every section ends at or after its start.
pub open spec fn sections_ordered(l: KernelSections) -> bool {
    &&& l.text_start <= l.text_end
    &&& l.rodata_start <= l.rodata_end
    &&& l.data_start <= l.data_end
    &&& l.bss_start <= l.bss_end
    &&& l.after_stack_start <= l.after_stack_end
    &&& l.stack_bottom <= l.stack_top
}

/// Kernel read/execute permissions.
pub open spec fn rx() -> MappingPermissions {
    MappingPermissions {
        writable: false,
        executable: true,
        user: false,
        write_through: false,
        cache_disable: false,
    }
}

/// Kernel read-only, no-execute permissions.
pub open spec fn r_nx() -> MappingPermissions {
    MappingPermissions {
        writable: false,
        executable: false,
        user: false,
        write_through: false,
        cache_disable: false,
    }
}

/// Framebuffer permissions: writable, no-execute, write-through, uncached.
pub open spec fn fb() -> MappingPermissions {
    MappingPermissions {
        writable: true,
        executable: false,
        user: false,
        write_through: true,
        cache_disable: true,
    }
}

/// The identity request covering every page that `start..end` touches.
pub open spec fn pages_request(start: u64, end: u64, p: MappingPermissions, purpose: MappingPurpose) -> Result<
    MappingRequest,
    PagingError,
> {
    if end + (PAGE_SIZE - 1) > u64::MAX {
        Err(PagingError::AddressOverflow)
    } else {
        let first = start & !0xfffu64;
        let last = ((end + 0xfff) as u64) & !0xfffu64;
        Ok(
            MappingRequest {
                virtual_start: first,
                physical_start: first,
                page_count: ((last - first) / PAGE_SIZE as int) as u64,
                permissions: p,
                purpose,
            },
        )
    }
}

/// Computes `pages_request`.
fn pages(start: u64, end: u64, p: MappingPermissions, purpose: MappingPurpose) -> (result: Result<
    MappingRequest,
    PagingError,
>)
    requires
        start <= end,
    ensures
        result == pages_request(start, end, p, purpose),
{
    let first = align_down(start);
    let last = match align_up(end) {
        Ok(a) => a,
        Err(e) => return Err(e),
    };
    Ok(
        MappingRequest {
            virtual_start: first,
            physical_start: first,
            page_count: (last - first) / PAGE_SIZE,
            permissions: p,
            purpose,
        },
    )
}

/// An empty section needs no request.
pub open spec fn section_steps(start: u64, end: u64, p: MappingPermissions, purpose: MappingPurpose) -> Seq<
    Result<MappingRequest, PagingError>,
> {
    if start == end {
        Seq::empty()
    } else {
        seq![pages_request(start, end, p, purpose)]
    }
}

/// The request for a boot resource of `len` bytes at `start`.
pub open spec fn resource_request(start: u64, len: u64, p: MappingPermissions, purpose: MappingPurpose) -> Result<
    MappingRequest,
    PagingError,
> {
    if start == 0 || len == 0 {
        Err(PagingError::InvalidBootInfoRange)
    } else if start + len > u64::MAX {
        Err(PagingError::AddressOverflow)
    } else {
        pages_request(start, (start + len) as u64, p, purpose)
    }
}

/// Computes `resource_request`.
fn resource(start: u64, len: u64, p: MappingPermissions, purpose: MappingPurpose) -> (result: Result<
    MappingRequest,
    PagingError,
>)
    ensures
        result == resource_request(start, len, p, purpose),
{
    if start == 0 || len == 0 {
        return Err(PagingError::InvalidBootInfoRange);
    }
    let end = match start.checked_add(len) {
        Some(e) => e,
        None => return Err(PagingError::AddressOverflow),
    };
    pages(start, end, p, purpose)
}

/// The image and boot-stack requests, in order.
pub open spec fn image_steps(l: KernelSections) -> Seq<Result<MappingRequest, PagingError>> {
    section_steps(l.text_start, l.text_end, rx(), MappingPurpose::KernelText) + section_steps(
        l.rodata_start,
        l.rodata_end,
        r_nx(),
        MappingPurpose::KernelReadOnly,
    ) + section_steps(l.data_start, l.data_end, rw_nx(), MappingPurpose::KernelData)
        + section_steps(l.bss_start, l.bss_end, rw_nx(), MappingPurpose::KernelBss) + section_steps(
        l.after_stack_start,
        l.after_stack_end,
        rw_nx(),
        MappingPurpose::KernelBss,
    ) + section_steps(l.stack_bottom, l.stack_top, rw_nx(), MappingPurpose::KernelStack)
}

/// The boot-resource requests, in order; the RSDP page only when present.
pub open spec fn resource_steps(info: BootInfo) -> Seq<Result<MappingRequest, PagingError>> {
    seq![
        resource_request(
            info.boot_info_storage.start,
            info.boot_info_storage.byte_len,
            r_nx(),
            MappingPurpose::BootInfo,
        ),
        resource_request(
            info.memory_map.address,
            info.memory_map.byte_len,
            r_nx(),
            MappingPurpose::MemoryMapStorage,
        ),
        resource_request(
            info.framebuffer.address,
            info.framebuffer.byte_len,
            fb(),
            MappingPurpose::Framebuffer,
        ),
    ] + if info.flags & BOOT_FLAG_RSDP_PRESENT != 0 && info.rsdp_address != 0 {
        seq![resource_request(info.rsdp_address, 4096, r_nx(), MappingPurpose::AcpiRsdp)]
    } else {
        Seq::empty()
    }
}

/// What adding `r` to a plan holding `s` gives: the refusal, the plan
/// unchanged when an identical-enough request already covers it, or the
/// plan with `r` at its sorted place.
pub open spec fn push_outcome(s: Seq<MappingRequest>, r: MappingRequest) -> Result<
    Seq<MappingRequest>,
    PagingError,
> {
    match request_error(r) {
        Some(e) => Err(e),
        None => match first_overlap(s, r) {
            Some(i) => if s[i].permissions == r.permissions && s[i].physical_start
                == r.physical_start {
                Ok(s)
            } else {
                Err(PagingError::MappingConflict)
            },
            None => if s.len() == MAX_MAPPING_REQUESTS {
                Err(PagingError::MappingPlanCapacityExceeded)
            } else {
                Ok(s.insert(insertion_point(s, r), r))
            },
        },
    }
}

/// The requests of a plan holding `s` after all of `steps`, or the first error.
pub open spec fn fold_steps(s: Seq<MappingRequest>, steps: Seq<Result<MappingRequest, PagingError>>) -> Result<
    Seq<MappingRequest>,
    PagingError,
>
    decreases steps.len(),
{
    if steps.len() == 0 {
        Ok(s)
    } else {
        match steps[0] {
            Err(e) => Err(e),
            Ok(r) => match push_outcome(s, r) {
                Err(e) => Err(e),
                Ok(next) => fold_steps(next, steps.drop_first()),
            },
        }
    }
}

/// The requests of the early kernel plan, or why it cannot be made.
pub open spec fn kernel_plan_result(info: BootInfo, l: KernelSections) -> Result<
    Seq<MappingRequest>,
    PagingError,
> {
    fold_steps(Seq::empty(), image_steps(l) + resource_steps(info))
}

/// Appends a section's request unless the section is empty.
fn push_section(
    v: &mut Vec<Result<MappingRequest, PagingError>>,
    start: u64,
    end: u64,
    p: MappingPermissions,
    purpose: MappingPurpose,
)
    requires
        start <= end,
    ensures
        final(v)@ == old(v)@ + section_steps(start, end, p, purpose),
{
    if start != end {
        v.push(pages(start, end, p, purpose));
    }
    assert(v@ =~= old(v)@ + section_steps(start, end, p, purpose));
}

/// The image and boot-resource requests, in plan order.
fn plan_steps(info: &BootInfo, l: KernelSections) -> (v: Vec<Result<MappingRequest, PagingError>>)
    requires
        sections_ordered(l),
    ensures
        v@ == image_steps(l) + resource_steps(*info),
{
    let mut v: Vec<Result<MappingRequest, PagingError>> = Vec::new();
    push_section(&mut v, l.text_start, l.text_end, MappingPermissions::kernel_rx(), MappingPurpose::KernelText);
    push_section(
        &mut v,
        l.rodata_start,
        l.rodata_end,
        MappingPermissions::kernel_r_nx(),
        MappingPurpose::KernelReadOnly,
    );
    push_section(&mut v, l.data_start, l.data_end, MappingPermissions::kernel_rw_nx(), MappingPurpose::KernelData);
    push_section(&mut v, l.bss_start, l.bss_end, MappingPermissions::kernel_rw_nx(), MappingPurpose::KernelBss);
    push_section(
        &mut v,
        l.after_stack_start,
        l.after_stack_end,
        MappingPermissions::kernel_rw_nx(),
        MappingPurpose::KernelBss,
    );
    push_section(
        &mut v,
        l.stack_bottom,
        l.stack_top,
        MappingPermissions::kernel_rw_nx(),
        MappingPurpose::KernelStack,
    );
    let ghost image = v@;
    assert(image =~= image_steps(l));
    v.push(
        resource(
            info.boot_info_storage.start,
            info.boot_info_storage.byte_len,
            MappingPermissions::kernel_r_nx(),
            MappingPurpose::BootInfo,
        ),
    );
    v.push(
        resource(
            info.memory_map.address,
            info.memory_map.byte_len,
            MappingPermissions::kernel_r_nx(),
            MappingPurpose::MemoryMapStorage,
        ),
    );
    v.push(
        resource(
            info.framebuffer.address,
            info.framebuffer.byte_len,
            MappingPermissions::framebuffer(),
            MappingPurpose::Framebuffer,
        ),
    );
    if info.flags & BOOT_FLAG_RSDP_PRESENT != 0 && info.rsdp_address != 0 {
        v.push(
            resource(info.rsdp_address, 4096, MappingPermissions::kernel_r_nx(), MappingPurpose::AcpiRsdp),
        );
    }
    assert(v@ =~= image + resource_steps(*info));
    v
}

/// Plans the identity mappings of the kernel's non-empty sections (text
/// read/execute, read-only data read-only, the rest read/write no-execute),
/// its boot stack, the boot information, the memory map, the framebuffer
/// and, when the loader reported one, the RSDP page.
pub fn kernel_mapping_plan(info: &BootInfo, sections: KernelSections) -> (result: Result<
    MappingPlan,
    PagingError,
>)
    requires
        sections_ordered(sections),
    ensures
        match kernel_plan_result(*info, sections) {
            Ok(s) => result matches Ok(plan) && plan@ == s && plan.wf(),
            Err(e) => result == Err::<MappingPlan, PagingError>(e),
        },
{
    let steps = plan_steps(info, sections);
    let ghost all = steps@;
    let mut plan = MappingPlan::new();
    assert(all.skip(0) =~= all);
    let mut i: usize = 0;
    while i < steps.len()
        invariant
            steps@ == all,
            all == image_steps(sections) + resource_steps(*info),
            i <= all.len(),
            plan.wf(),
            fold_steps(Seq::empty(), all) == fold_steps(plan@, all.skip(i as int)),
        decreases all.len() - i,
    {
        assert(all.skip(i as int)[0] == all[i as int]);
        assert(all.skip(i as int).drop_first() =~= all.skip(i + 1));
        match steps[i] {
            Err(e) => return Err(e),
            Ok(r) => match plan.push(r) {
                Ok(()) => {},
                Err(e) => return Err(e),
            },
        }
        i += 1;
    }
    assert(all.skip(all.len() as int) =~= Seq::<Result<MappingRequest, PagingError>>::empty());
    Ok(plan)
}

/// The CPU state that decides whether this kernel's paging can run: the
/// highest extended CPUID leaf, leaf 0x8000_0001 EDX, leaf 0x8000_0008 EAX,
/// and CR0, CR4 and CR3.
#[derive(Clone, Copy, Debug, PartialEq, Eq, Structural)]
pub struct CpuRegisters {
    pub max_extended_leaf: u32,
    pub extended_features_edx: u32,
    pub address_sizes_eax: u32,
    pub cr0: u64,
    pub cr4: u64,
    pub cr3: u64,
}

/// Checks the CPU, plans the early kernel mappings and builds their tables
/// from `pool`, for the CPU's physical address width.
pub fn build_page_tables(
    info: &BootInfo,
    sections: KernelSections,
    cpu: CpuRegisters,
    pool: PageTablePagePool,
) -> (result: Result<ActiveAddressSpace, PagingError>)
    requires
        sections_ordered(sections),
        pool.wf(),
    ensures
        match cpu_info_result(
            cpu.max_extended_leaf,
            cpu.extended_features_edx,
            cpu.address_sizes_eax,
            cpu.cr0,
            cpu.cr4,
            cpu.cr3,
        ) {
            Err(e) => result == Err::<ActiveAddressSpace, PagingError>(e),
            Ok(c) => match kernel_plan_result(*info, sections) {
                Err(e) => result == Err::<ActiveAddressSpace, PagingError>(e),
                Ok(s) => {
                    &&& result matches Ok(space) ==> {
                        &&& space.wf()
                        &&& space.spec_width() == c.physical_address_width
                        &&& forall|r: int, k: int|
                            0 <= r < s.len() && 0 <= k < s[r].page_count
                                ==> #[trigger] space.maps_request_page(s[r], k)
                        &&& forall|i: int|
                            0 <= i < pool.spec_reserved() ==> #[trigger] space.maps_identity(
                                pool.spec_pages()[i],
                            )
                    }
                    &&& pool.spec_used() >= pool.spec_reserved() ==> result == Err::<
                        ActiveAddressSpace,
                        PagingError,
                    >(PagingError::PageTablePoolExhausted)
                    &&& build_ready(s, pool, c.physical_address_width) ==> result is Ok
                },
            },
        },
{
    let info_cpu = match cpu_paging_info(
        cpu.max_extended_leaf,
        cpu.extended_features_edx,
        cpu.address_sizes_eax,
        cpu.cr0,
        cpu.cr4,
        cpu.cr3,
    ) {
        Ok(c) => c,
        Err(e) => return Err(e),
    };
    let plan = match kernel_mapping_plan(info, sections) {
        Ok(p) => p,
        Err(e) => return Err(e),
    };
    build(&plan, pool, info_cpu.physical_address_width)
}

/// Addresses the running kernel depends on once the new tables are live.
#[derive(Clone, Copy, Debug, PartialEq, Eq, Structural)]
pub struct RequiredAddresses {
    /// Lowest byte of the boot stack.
    pub stack_bottom: u64,
    /// The current stack pointer.
    pub stack_pointer: u64,
    /// The kernel entry point.
    pub entry: u64,
    /// The kernel's main function.
    pub kernel_main: u64,
    /// Handlers of the breakpoint, invalid-opcode and page-fault vectors,
    /// when installed.
    pub breakpoint_handler: Option<u64>,
    pub invalid_opcode_handler: Option<u64>,
    pub page_fault_handler: Option<u64>,
    /// The common exception dispatcher.
    pub dispatcher: u64,
    /// GDT, IDT and exception-state storage.
    pub gdt: u64,
    pub idt: u64,
    pub exception_storage: u64,
    /// Lowest byte of the double-fault stack.
    pub double_fault_stack: u64,
    /// The boot stack's guard pages, as page ranges.
    pub guard_low_start: u64,
    pub guard_low_end: u64,
    pub guard_high_start: u64,
    pub guard_high_end: u64,
}

/// What checking that `address` is mapped kernel-only with exactly the given
/// write and execute rights gives; a missing address counts as unmapped.
pub open spec fn required_check(space: ActiveAddressSpace, address: Option<u64>, writable: bool, executable: bool) -> Result<
    (),
    PagingError,
> {
    match address {
        None => Err(PagingError::RequiredMappingMissing),
        Some(a) => match space.translate_spec(a) {
            Err(e) => Err(e),
            Ok(None) => Err(PagingError::RequiredMappingMissing),
            Ok(Some(t)) => if t.effective_writable != writable || t.effective_executable
                != executable || t.effective_user {
                Err(PagingError::RequiredPermissionMismatch)
            } else {
                Ok(())
            },
        },
    }
}

/// The stack, code and storage checks, in order.
pub open spec fn required_checks(a: RequiredAddresses) -> Seq<(Option<u64>, bool, bool)> {
    seq![
        (Some(a.stack_bottom), true, false),
        (Some(a.stack_pointer), true, false),
        (Some(a.entry), false, true),
        (Some(a.kernel_main), false, true),
        (a.breakpoint_handler, false, true),
        (a.invalid_opcode_handler, false, true),
        (a.page_fault_handler, false, true),
        (Some(a.dispatcher), false, true),
        (Some(a.gdt), true, false),
        (Some(a.idt), true, false),
        (Some(a.exception_storage), true, false),
        (Some(a.double_fault_stack), true, false),
    ]
}

/// The first failing check at or after `i`.
pub open spec fn first_check_failure(space: ActiveAddressSpace, checks: Seq<(Option<u64>, bool, bool)>, i: int) -> Option<
    PagingError,
>
    decreases checks.len() - i,
{
    if i < 0 || i >= checks.len() {
        None
    } else {
        match required_check(space, checks[i].0, checks[i].1, checks[i].2) {
            Err(e) => Some(e),
            Ok(()) => first_check_failure(space, checks, i + 1),
        }
    }
}

/// The guard pages must be page ranges, unmapped, and around the stack pointer.
pub open spec fn guard_result(space: ActiveAddressSpace, a: RequiredAddresses) -> Result<(), PagingError> {
    if a.guard_low_start % PAGE_SIZE != 0 || a.guard_low_end % PAGE_SIZE != 0 || a.guard_high_start
        % PAGE_SIZE != 0 || a.guard_high_end % PAGE_SIZE != 0 || a.guard_low_end <= a.guard_low_start
        || a.guard_high_end <= a.guard_high_start {
        Err(PagingError::GuardPageMapped)
    } else {
        match space.translate_spec(a.guard_low_start) {
            Err(e) => Err(e),
            Ok(Some(_)) => Err(PagingError::GuardPageMapped),
            Ok(None) => match space.translate_spec(a.guard_high_start) {
                Err(e) => Err(e),
                Ok(Some(_)) => Err(PagingError::GuardPageMapped),
                Ok(None) => if !(a.guard_low_end < a.stack_pointer && a.stack_pointer
                    < a.guard_high_start) {
                    Err(PagingError::GuardPageMapped)
                } else {
                    Ok(())
                },
            },
        }
    }
}

/// Whether a translation breaks the rule `bad`, for a required resource.
pub open spec fn resource_result(r: Result<Option<Translation>, PagingError>, framebuffer: bool) -> Result<
    (),
    PagingError,
> {
    match r {
        Err(e) => Err(e),
        Ok(None) => Err(PagingError::RequiredMappingMissing),
        Ok(Some(t)) => if (!framebuffer && (t.effective_writable || t.effective_executable)) || (
        framebuffer && (!t.effective_writable || t.effective_executable || !t.cache_disable
            || !t.write_through)) {
            Err(PagingError::RequiredPermissionMismatch)
        } else {
            Ok(())
        },
    }
}

/// The first table page, at or after `i`, that is not mapped kernel
/// read/write no-execute.
pub open spec fn pool_failure(space: ActiveAddressSpace, pages: Seq<u64>, i: int) -> Option<PagingError>
    decreases pages.len() - i,
{
    if i < 0 || i >= pages.len() {
        None
    } else {
        match space.translate_spec(pages[i]) {
            Err(e) => Some(e),
            Ok(None) => Some(PagingError::RequiredMappingMissing),
            Ok(Some(t)) => if !t.effective_writable || t.effective_executable || t.effective_user {
                Some(PagingError::RequiredPermissionMismatch)
            } else {
                pool_failure(space, pages, i + 1)
            },
        }
    }
}

/// What checking the live kernel's required mappings gives.
pub open spec fn required_mappings_result(space: ActiveAddressSpace, info: BootInfo, a: RequiredAddresses) -> Result<
    (),
    PagingError,
> {
    if let Some(e) = first_check_failure(space, required_checks(a), 0) {
        Err(e)
    } else if let Err(e) = guard_result(space, a) {
        Err(e)
    } else if let Err(e) = (match space.translate_spec(0) {
        Err(e) => Err(e),
        Ok(Some(_)) => Err(PagingError::NullPageMapped),
        Ok(None) => Ok(()),
    }) {
        Err(e)
    } else if let Err(e) = resource_result(space.translate_spec(info.boot_info_storage.start), false) {
        Err(e)
    } else if let Err(e) = resource_result(space.translate_spec(info.memory_map.address), false) {
        Err(e)
    } else if let Err(e) = resource_result(space.translate_spec(info.framebuffer.address), true) {
        Err(e)
    } else if let Some(e) = pool_failure(
        space,
        space.spec_pool().spec_pages().subrange(0, space.spec_pool().spec_reserved() as int),
        0,
    ) {
        Err(e)
    } else {
        Ok(())
    }
}

/// Computes `required_check`.
fn check_required(space: &ActiveAddressSpace, address: Option<u64>, writable: bool, executable: bool) -> (result:
    Result<(), PagingError>)
    requires
        space.wf(),
    ensures
        result == required_check(*space, address, writable, executable),
{
    let a = match address {
        Some(a) => a,
        None => return Err(PagingError::RequiredMappingMissing),
    };
    match space.translate(a) {
        Err(e) => Err(e),
        Ok(None) => Err(PagingError::RequiredMappingMissing),
        Ok(Some(t)) => if t.effective_writable != writable || t.effective_executable != executable
            || t.effective_user {
            Err(PagingError::RequiredPermissionMismatch)
        } else {
            Ok(())
        },
    }
}

/// Computes `resource_result` for the translation of `address`.
fn check_resource(space: &ActiveAddressSpace, address: u64, framebuffer: bool) -> (result: Result<
    (),
    PagingError,
>)
    requires
        space.wf(),
    ensures
        result == resource_result(space.translate_spec(address), framebuffer),
{
    match space.translate(address) {
        Err(e) => Err(e),
        Ok(None) => Err(PagingError::RequiredMappingMissing),
        Ok(Some(t)) => {
            let bad = if framebuffer {
                !t.effective_writable || t.effective_executable || !t.cache_disable
                    || !t.write_through
            } else {
                t.effective_writable || t.effective_executable
            };
            if bad {
                Err(PagingError::RequiredPermissionMismatch)
            } else {
                Ok(())
            }
        },
    }
}

/// Checks, once the kernel's tables are live, that its stack, code and
/// descriptor storage are mapped with the rights they need, that the boot
/// stack's guard pages and the null page are unmapped, that the boot
/// information and memory map are read-only, that the framebuffer is
/// writable uncached, and that every page-table page is mapped read/write
/// no-execute.
pub fn validate_required_mappings(space: &ActiveAddressSpace, info: &BootInfo, addresses: RequiredAddresses) -> (result:
    Result<(), PagingError>)
    requires
        space.wf(),
    ensures
        result == required_mappings_result(*space, *info, addresses),
{
    let a = addresses;
    let checks = vec![
        (Some(a.stack_bottom), true, false),
        (Some(a.stack_pointer), true, false),
        (Some(a.entry), false, true),
        (Some(a.kernel_main), false, true),
        (a.breakpoint_handler, false, true),
        (a.invalid_opcode_handler, false, true),
        (a.page_fault_handler, false, true),
        (Some(a.dispatcher), false, true),
        (Some(a.gdt), true, false),
        (Some(a.idt), true, false),
        (Some(a.exception_storage), true, false),
        (Some(a.double_fault_stack), true, false),
    ];
    assert(checks@ =~= required_checks(a));
    let mut i: usize = 0;
    while i < checks.len()
        invariant
            space.wf(),
            a == addresses,
            checks@ == required_checks(a),
            i <= checks@.len(),
            first_check_failure(*space, checks@, 0) == first_check_failure(*space, checks@, i as int),
        decreases checks@.len() - i,
    {
        let (address, writable, executable) = checks[i];
        assert(checks@[i as int] == (address, writable, executable));
        match check_required(space, address, writable, executable) {
            Ok(()) => {},
            Err(e) => return Err(e),
        }
        i += 1;
    }
    if !a.guard_low_start.is_multiple_of(4096) || !a.guard_low_end.is_multiple_of(4096)
        || !a.guard_high_start.is_multiple_of(4096) || !a.guard_high_end.is_multiple_of(4096)
        || a.guard_low_end <= a.guard_low_start || a.guard_high_end <= a.guard_high_start {
        return Err(PagingError::GuardPageMapped);
    }
    match space.translate(a.guard_low_start) {
        Err(e) => return Err(e),
        Ok(Some(_)) => return Err(PagingError::GuardPageMapped),
        Ok(None) => {},
    }
    match space.translate(a.guard_high_start) {
        Err(e) => return Err(e),
        Ok(Some(_)) => return Err(PagingError::GuardPageMapped),
        Ok(None) => {},
    }
    if !(a.guard_low_end < a.stack_pointer && a.stack_pointer < a.guard_high_start) {
        return Err(PagingError::GuardPageMapped);
    }
    match space.translate(0) {
        Err(e) => return Err(e),
        Ok(Some(_)) => return Err(PagingError::NullPageMapped),
        Ok(None) => {},
    }
    match check_resource(space, info.boot_info_storage.start, false) {
        Ok(()) => {},
        Err(e) => return Err(e),
    }
    match check_resource(space, info.memory_map.address, false) {
        Ok(()) => {},
        Err(e) => return Err(e),
    }
    match check_resource(space, info.framebuffer.address, true) {
        Ok(()) => {},
        Err(e) => return Err(e),
    }
    let pages = space.pool().pages();
    let ghost all = pages@;
    assert(all == space.spec_pool().spec_pages().subrange(0, space.spec_pool().spec_reserved() as int));
    assert(required_mappings_result(*space, *info, a) == match pool_failure(*space, all, 0) {
        Some(e) => Err(e),
        None => Ok::<(), PagingError>(()),
    });
    let mut j: usize = 0;
    while j < pages.len()
        invariant
            space.wf(),
            a == addresses,
            pages@ == all,
            required_mappings_result(*space, *info, a) == match pool_failure(*space, all, 0) {
                Some(e) => Err(e),
                None => Ok::<(), PagingError>(()),
            },
            j <= all.len(),
            pool_failure(*space, all, 0) == pool_failure(*space, all, j as int),
        decreases all.len() - j,
    {
        match space.translate(pages[j]) {
            Err(e) => return Err(e),
            Ok(None) => return Err(PagingError::RequiredMappingMissing),
            Ok(Some(t)) => {
                if !t.effective_writable || t.effective_executable || t.effective_user {
                    return Err(PagingError::RequiredPermissionMismatch);
                }
            },
        }
        j += 1;
    }
    Ok(())
}

} // verus!
