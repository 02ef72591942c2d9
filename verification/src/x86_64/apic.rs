//! BSP local APIC in xAPIC MMIO mode: base decoding and register policy.
use vstd::prelude::*;
use crate::x86_64::paging::{
    frame_result, lemma_low_half_canonical, lemma_slots_of_page, path_present,
    ActiveAddressSpace, MappingPermissions, PagingError, PhysicalFrame, Translation, VirtualPage,
};

verus! {

/// Virtual address at which the local APIC page is mapped.
pub const LOCAL_APIC_VIRTUAL_BASE: u64 = 0x0000_3000_0000_0000;
/// The APIC base MSR.
pub const IA32_APIC_BASE: u32 = 0x1b;
/// Spurious-vector register: software enable.
pub const APIC_SOFTWARE_ENABLE: u32 = 0x100;
/// LVT timer mode: periodic.
pub const TIMER_PERIODIC: u32 = 0x20000;
/// LVT mask bit.
pub const LVT_MASKED: u32 = 0x10000;
/// Timer vector.
pub const TIMER_VECTOR: u8 = 0x40;
/// Spurious vector.
pub const SPURIOUS_VECTOR: u8 = 0xff;
/// Register offsets.
pub const ID: u32 = 0x020;
pub const VERSION: u32 = 0x030;
pub const EOI: u32 = 0x0b0;
pub const SPURIOUS: u32 = 0x0f0;
pub const IN_SERVICE_BASE: u32 = 0x100;
pub const ERROR_STATUS: u32 = 0x280;
pub const LVT_TIMER: u32 = 0x320;
pub const LVT_THERMAL: u32 = 0x330;
pub const LVT_PERFORMANCE: u32 = 0x340;
pub const LVT_LINT0: u32 = 0x350;
pub const LVT_LINT1: u32 = 0x360;
pub const LVT_ERROR: u32 = 0x370;
pub const TIMER_INITIAL: u32 = 0x380;
pub const TIMER_CURRENT: u32 = 0x390;
pub const TIMER_DIVIDE: u32 = 0x3e0;
/// Divide configuration: divide by 16.
pub const TIMER_DIVIDE_BY_16: u32 = 0x3;

/// APIC failures.
#[derive(Clone, Copy, Debug, PartialEq, Eq, Structural)]
pub enum ApicError {
    ApicUnsupported,
    X2ApicActive,
    InvalidApicBase,
    ApicMappingFailed,
    InvalidRegisterOffset,
    InvalidVersion,
    SoftwareEnableFailed,
}

/// The decoded APIC base MSR: physical base and global-enable bit.
pub open spec fn base_decoding(msr: u64, width: u8) -> Result<(u64, bool), ApicError> {
    if msr & 0x400 != 0 {
        Err(ApicError::X2ApicActive)
    } else if width < 36 || width > 52 {
        Err(ApicError::InvalidApicBase)
    } else if msr & ((((1u64 << width) - 1) as u64) & !0xfffu64) == 0 {
        Err(ApicError::InvalidApicBase)
    } else {
        Ok((msr & ((((1u64 << width) - 1) as u64) & !0xfffu64), msr & 0x800 != 0))
    }
}

/// Decode the APIC base MSR, refusing x2APIC mode and a null base.
pub fn decode_base(msr: u64, physical_width: u8) -> (result: Result<(u64, bool), ApicError>)
    ensures
        result == base_decoding(msr, physical_width),
        result matches Ok((base, _)) ==> base % 4096 == 0 && base != 0,
{
    if msr & 0x400 != 0 {
        return Err(ApicError::X2ApicActive);
    }
    if physical_width < 36 || physical_width > 52 {
        return Err(ApicError::InvalidApicBase);
    }
    assert(1u64 << physical_width >= 1) by (bit_vector)
        requires
            physical_width < 64,
    ;
    let mask = (1u64 << physical_width) - 1;
    let base = msr & (mask & !0xfffu64);
    assert(base % 4096 == 0 && base & !mask == 0) by (bit_vector)
        requires
            base == msr & (mask & !0xfffu64),
    ;
    if base == 0 || !base.is_multiple_of(4096) || base & !mask != 0 {
        return Err(ApicError::InvalidApicBase);
    }
    Ok((base, msr & 0x800 != 0))
}

/// A register offset the xAPIC page accepts: 16-byte aligned inside the page.
pub open spec fn register_offset_ok(offset: u32) -> bool {
    offset < 4096 && offset % 16 == 0
}

/// The MMIO address of register `offset` of an APIC mapped at `virtual_base`,
/// or why there is none.
pub open spec fn register_at(virtual_base: u64, offset: u32) -> Result<u64, ApicError> {
    if virtual_base + offset > u64::MAX || !register_offset_ok(offset) {
        Err(ApicError::InvalidRegisterOffset)
    } else {
        Ok((virtual_base + offset) as u64)
    }
}

/// The BSP local APIC, mapped at a fixed virtual base.
#[derive(Clone, Copy, Debug, PartialEq, Eq, Structural)]
pub struct LocalApic {
    pub physical_base: u64,
    pub virtual_base: u64,
    pub lvt_count: u8,
}

/// Number of LVT entries encoded in the version register.
pub open spec fn lvt_entries(version: u32) -> u8 {
    if ((version >> 16u32) as u8) == 255 {
        255
    } else {
        (((version >> 16u32) as u8) + 1) as u8
    }
}

impl LocalApic {
    /// An APIC whose page has been mapped at `virtual_base`.
    pub fn new(physical_base: u64, virtual_base: u64, lvt_count: u8) -> (a: LocalApic)
        ensures
            a == (LocalApic { physical_base, virtual_base, lvt_count }),
    {
        LocalApic { physical_base, virtual_base, lvt_count }
    }

    /// Physical base of the APIC page.
    pub fn physical_base(self) -> (b: u64)
        ensures
            b == self.physical_base,
    {
        self.physical_base
    }

    /// Virtual base of the APIC page.
    pub fn virtual_base(self) -> (b: u64)
        ensures
            b == self.virtual_base,
    {
        self.virtual_base
    }

    /// The MMIO address of register `offset`, checked as every read and write is.
    pub fn register_address(self, offset: u32) -> (result: Result<u64, ApicError>)
        ensures
            result == register_at(self.virtual_base, offset),
            self.virtual_base + offset > u64::MAX ==> result == Err::<u64, ApicError>(
                ApicError::InvalidRegisterOffset,
            ),
            self.virtual_base + offset <= u64::MAX && !register_offset_ok(offset) ==> result
                == Err::<u64, ApicError>(ApicError::InvalidRegisterOffset),
            self.virtual_base + offset <= u64::MAX && register_offset_ok(offset) ==> result == Ok::<
                u64,
                ApicError,
            >((self.virtual_base + offset) as u64),
    {
        let address = match self.virtual_base.checked_add(offset as u64) {
            Some(v) => v,
            None => return Err(ApicError::InvalidRegisterOffset),
        };
        if offset >= 4096 || !offset.is_multiple_of(16) {
            return Err(ApicError::InvalidRegisterOffset);
        }
        Ok(address)
    }

    /// The register writes that start the periodic timer with `initial`
    /// counts: divide configuration, the periodic LVT entry still masked,
    /// the initial count, and only then the unmasked LVT entry, so the
    /// timer stays masked until its initial count is written.
    pub fn program_timer(self, initial: u32) -> (result: Result<[(u32, u32); 4], ApicError>)
        ensures
            initial == 0 ==> result == Err::<[(u32, u32); 4], ApicError>(
                ApicError::SoftwareEnableFailed,
            ),
            initial != 0 ==> (result matches Ok(w) && w@ == seq![
                (TIMER_DIVIDE, TIMER_DIVIDE_BY_16),
                (LVT_TIMER, (TIMER_VECTOR as u32) | TIMER_PERIODIC | LVT_MASKED),
                (TIMER_INITIAL, initial),
                (LVT_TIMER, (TIMER_VECTOR as u32) | TIMER_PERIODIC),
            ]),
            result matches Ok(w) ==> forall|i: int, j: int|
                0 <= i < j < 4 && w@[i].0 == LVT_TIMER && w@[j].0 == TIMER_INITIAL
                    ==> w@[i].1 & LVT_MASKED != 0,
            result matches Ok(w) ==> w@[3] == (LVT_TIMER, (TIMER_VECTOR as u32) | TIMER_PERIODIC)
                && ((TIMER_VECTOR as u32) | TIMER_PERIODIC) & LVT_MASKED == 0,
    {
        if initial == 0 {
            return Err(ApicError::SoftwareEnableFailed);
        }
        let masked = (TIMER_VECTOR as u32) | TIMER_PERIODIC | LVT_MASKED;
        let unmasked = (TIMER_VECTOR as u32) | TIMER_PERIODIC;
        assert(masked & 0x10000u32 != 0 && unmasked & 0x10000u32 == 0) by (bit_vector)
            requires
                masked == 0x40u32 | 0x20000u32 | 0x10000u32,
                unmasked == 0x40u32 | 0x20000u32,
        ;
        let w = [
            (TIMER_DIVIDE, TIMER_DIVIDE_BY_16),
            (LVT_TIMER, masked),
            (TIMER_INITIAL, initial),
            (LVT_TIMER, unmasked),
        ];
        assert(w@ == seq![
            (TIMER_DIVIDE, TIMER_DIVIDE_BY_16),
            (LVT_TIMER, (TIMER_VECTOR as u32) | TIMER_PERIODIC | LVT_MASKED),
            (TIMER_INITIAL, initial),
            (LVT_TIMER, (TIMER_VECTOR as u32) | TIMER_PERIODIC),
        ]);
        Ok(w)
    }

    /// The in-service register and bit that report `vector`.
    pub fn in_service_location(vector: u8) -> (loc: (u32, u32))
        ensures
            loc.0 == IN_SERVICE_BASE + (vector / 32) * 16,
            loc.1 == 1u32 << ((vector % 32) as u32),
            register_offset_ok(loc.0),
    {
        let register = IN_SERVICE_BASE + ((vector as u32) / 32) * 16;
        let bit = 1u32 << ((vector % 32) as u32);
        (register, bit)
    }

    /// Whether the in-service word read for `vector` has its bit set.
    pub fn is_in_service(vector: u8, in_service_word: u32) -> (b: bool)
        ensures
            b == (in_service_word & (1u32 << ((vector % 32) as u32)) != 0),
    {
        let (_, bit) = Self::in_service_location(vector);
        in_service_word & bit != 0
    }
}

/// The number of LVT entries reported by a version-register value, or why
/// the version is refused.
pub fn lvt_count_from_version(version: u32) -> (result: Result<u8, ApicError>)
    ensures
        version & 0xff == 0 ==> result == Err::<u8, ApicError>(ApicError::InvalidVersion),
        version & 0xff != 0 ==> result == Ok::<u8, ApicError>(lvt_entries(version)),
{
    let raw = (version >> 16u32) as u8;
    let count = if raw == 255 {
        255
    } else {
        raw + 1
    };
    if version & 0xff == 0 {
        return Err(ApicError::InvalidVersion);
    }
    Ok(count)
}

/// The LVT registers an APIC with `lvt_count` entries has masked during
/// initialization: timer, LINT0 and LINT1, then thermal, performance and
/// error as far as the count reaches.
pub open spec fn lvt_mask_registers(lvt_count: u8) -> Seq<u32> {
    seq![LVT_TIMER, LVT_LINT0, LVT_LINT1] + (if lvt_count > 4 {
        seq![LVT_THERMAL]
    } else {
        Seq::empty()
    }) + (if lvt_count > 5 {
        seq![LVT_PERFORMANCE]
    } else {
        Seq::empty()
    }) + (if lvt_count > 6 {
        seq![LVT_ERROR]
    } else {
        Seq::empty()
    })
}

/// The LVT registers masked during initialization for an APIC with
/// `lvt_count` entries.
pub fn lvt_registers_to_mask(lvt_count: u8) -> (regs: Vec<u32>)
    ensures
        regs@ == lvt_mask_registers(lvt_count),
{
    let mut regs: Vec<u32> = Vec::new();
    regs.push(LVT_TIMER);
    regs.push(LVT_LINT0);
    regs.push(LVT_LINT1);
    let ghost base = regs@;
    assert(base == seq![LVT_TIMER, LVT_LINT0, LVT_LINT1]);
    if lvt_count > 4 {
        regs.push(LVT_THERMAL);
    }
    let ghost a = regs@;
    if lvt_count > 5 {
        regs.push(LVT_PERFORMANCE);
    }
    let ghost b = regs@;
    if lvt_count > 6 {
        regs.push(LVT_ERROR);
    }
    assert(regs@ == seq![LVT_TIMER, LVT_LINT0, LVT_LINT1] + (if lvt_count > 4 {
        seq![LVT_THERMAL]
    } else {
        Seq::empty()
    }) + (if lvt_count > 5 {
        seq![LVT_PERFORMANCE]
    } else {
        Seq::empty()
    }) + (if lvt_count > 6 {
        seq![LVT_ERROR]
    } else {
        Seq::empty()
    }));
    regs
}

/// The value written to the spurious-vector register: the vector with software enable.
pub fn spurious_register_value() -> (v: u32)
    ensures
        v == (SPURIOUS_VECTOR as u32) | APIC_SOFTWARE_ENABLE,
{
    (SPURIOUS_VECTOR as u32) | APIC_SOFTWARE_ENABLE
}

/// Whether a spurious-register read-back shows the vector installed and software enable set.
pub fn spurious_readback_ok(value: u32) -> (b: bool)
    ensures
        b == (value & 0xff == SPURIOUS_VECTOR as u32 && value & APIC_SOFTWARE_ENABLE != 0),
{
    value & 0xff == SPURIOUS_VECTOR as u32 && value & APIC_SOFTWARE_ENABLE != 0
}

/// The permissions the APIC register page is mapped with.
pub open spec fn mmio_rw_nx() -> MappingPermissions {
    MappingPermissions {
        writable: true,
        executable: false,
        user: false,
        write_through: true,
        cache_disable: true,
    }
}

/// First step of bringing up the local APIC, from CPUID leaf 1 EDX and the
/// APIC base MSR: the physical base and, when the MSR's global enable is
/// off, the MSR value that turns it on; or why the APIC cannot be used.
pub fn begin_initialize(cpuid_1_edx: u32, msr: u64, width: u8) -> (result: Result<
    (u64, Option<u64>),
    ApicError,
>)
    ensures
        cpuid_1_edx & 0x200 == 0 ==> result == Err::<(u64, Option<u64>), ApicError>(
            ApicError::ApicUnsupported,
        ),
        cpuid_1_edx & 0x200 != 0 ==> match base_decoding(msr, width) {
            Err(e) => result == Err::<(u64, Option<u64>), ApicError>(e),
            Ok((base, enabled)) => result == Ok::<(u64, Option<u64>), ApicError>(
                (base, if enabled {
                    None
                } else {
                    Some(msr | 0x800)
                }),
            ),
        },
{
    if cpuid_1_edx & 0x200 == 0 {
        return Err(ApicError::ApicUnsupported);
    }
    let (base, enabled) = match decode_base(msr, width) {
        Ok(d) => d,
        Err(e) => return Err(e),
    };
    if enabled {
        Ok((base, None))
    } else {
        Ok((base, Some(msr | 0x800)))
    }
}

/// Whether the APIC base MSR read back after enabling shows global enable.
pub fn enable_readback_ok(readback: u64) -> (result: Result<(), ApicError>)
    ensures
        result == if readback & 0x800 != 0 {
            Ok::<(), ApicError>(())
        } else {
            Err::<(), ApicError>(ApicError::SoftwareEnableFailed)
        },
{
    if readback & 0x800 == 0 {
        return Err(ApicError::SoftwareEnableFailed);
    }
    Ok(())
}

/// Maps the APIC register page at `physical` to `LOCAL_APIC_VIRTUAL_BASE`,
/// read/write, no-execute and uncached, and gives the APIC before its
/// version is known. A base that is no page frame of `width` bits is
/// refused as an invalid base; a refused mapping as a mapping failure.
pub fn map_local_apic(space: &mut ActiveAddressSpace, physical: u64, width: u8) -> (result: Result<
    LocalApic,
    ApicError,
>)
    requires
        old(space).wf(),
    ensures
        final(space).wf(),
        final(space).spec_root() == old(space).spec_root(),
        final(space).spec_width() == old(space).spec_width(),
        frame_result(physical, width) is Err ==> result == Err::<LocalApic, ApicError>(
            ApicError::InvalidApicBase,
        ) && *final(space) == *old(space),
        frame_result(physical, width) is Ok ==> result != Err::<LocalApic, ApicError>(
            ApicError::InvalidApicBase,
        ),
        result is Err ==> forall|a: u64| #[trigger] final(space).translate_spec(a) == old(space).translate_spec(a),
        result matches Err(e) ==> e == ApicError::InvalidApicBase || e == ApicError::ApicMappingFailed,
        result matches Ok(apic) ==> apic == (LocalApic {
            physical_base: physical,
            virtual_base: LOCAL_APIC_VIRTUAL_BASE,
            lvt_count: 0,
        }),
        result is Ok && width == old(space).spec_width() ==> final(space).maps(
            LOCAL_APIC_VIRTUAL_BASE,
            physical,
            mmio_rw_nx(),
        ),
        frame_result(physical, width) is Ok && old(space).translate_spec(LOCAL_APIC_VIRTUAL_BASE)
            == Ok::<Option<Translation>, PagingError>(None) && (old(space).fresh_pool_pages(3)
            || path_present(*old(space), LOCAL_APIC_VIRTUAL_BASE)) ==> result is Ok,
{
    let frame = match PhysicalFrame::new(physical, width) {
        Ok(f) => f,
        Err(_) => return Err(ApicError::InvalidApicBase),
    };
    proof {
        lemma_low_half_canonical(LOCAL_APIC_VIRTUAL_BASE);
        lemma_slots_of_page(LOCAL_APIC_VIRTUAL_BASE);
    }
    let page = match VirtualPage::new(LOCAL_APIC_VIRTUAL_BASE) {
        Ok(p) => p,
        Err(_) => return Err(ApicError::InvalidApicBase),
    };
    match space.map_page(page, frame, MappingPermissions::kernel_mmio_rw_nx()) {
        Ok(_) => {},
        Err(_) => return Err(ApicError::ApicMappingFailed),
    }
    Ok(LocalApic::new(physical, LOCAL_APIC_VIRTUAL_BASE, 0))
}

/// After the version register of `candidate` is read: the APIC with its
/// LVT count, and the register writes, as (offset, value) in order, that
/// mask its LVT entries and then enable it with the spurious vector; or
/// why the version is refused.
pub fn configure_local_apic(candidate: LocalApic, version: u32) -> (result: Result<
    (LocalApic, Vec<(u32, u32)>),
    ApicError,
>)
    ensures
        version & 0xff == 0 ==> result is Err && result->Err_0 == ApicError::InvalidVersion,
        version & 0xff != 0 ==> (result matches Ok((apic, writes)) && apic == (LocalApic {
            lvt_count: lvt_entries(version),
            ..candidate
        }) && writes@.len() == lvt_mask_registers(lvt_entries(version)).len() + 1 && (forall|i: int|
            0 <= i < lvt_mask_registers(lvt_entries(version)).len() ==> #[trigger] writes@[i] == (
            lvt_mask_registers(lvt_entries(version))[i],
            LVT_MASKED,
        )) && writes@.last() == (SPURIOUS, (SPURIOUS_VECTOR as u32) | APIC_SOFTWARE_ENABLE)),
{
    let lvt_count = match lvt_count_from_version(version) {
        Ok(c) => c,
        Err(e) => return Err(e),
    };
    let apic = LocalApic { lvt_count, ..candidate };
    let regs = lvt_registers_to_mask(lvt_count);
    let mut writes: Vec<(u32, u32)> = Vec::new();
    let mut i: usize = 0;
    while i < regs.len()
        invariant
            i <= regs@.len(),
            regs@ == lvt_mask_registers(lvt_count),
            writes@.len() == i,
            forall|j: int| 0 <= j < i ==> #[trigger] writes@[j] == (regs@[j], LVT_MASKED),
        decreases regs@.len() - i,
    {
        writes.push((regs[i], LVT_MASKED));
        i += 1;
    }
    writes.push((SPURIOUS, spurious_register_value()));
    Ok((apic, writes))
}

/// After the spurious register is read back: the two writes that clear
/// the error status, or why enabling failed.
pub fn finish_local_apic(spurious: u32) -> (result: Result<[(u32, u32); 2], ApicError>)
    ensures
        spurious & 0xff == SPURIOUS_VECTOR as u32 && spurious & APIC_SOFTWARE_ENABLE != 0 ==> (result matches Ok(w)
            && w@ == seq![(ERROR_STATUS, 0u32), (ERROR_STATUS, 0u32)]),
        !(spurious & 0xff == SPURIOUS_VECTOR as u32 && spurious & APIC_SOFTWARE_ENABLE != 0) ==> result
            == Err::<[(u32, u32); 2], ApicError>(ApicError::SoftwareEnableFailed),
{
    if !spurious_readback_ok(spurious) {
        return Err(ApicError::SoftwareEnableFailed);
    }
    let w = [(ERROR_STATUS, 0u32), (ERROR_STATUS, 0u32)];
    assert(w@ == seq![(ERROR_STATUS, 0u32), (ERROR_STATUS, 0u32)]);
    Ok(w)
}

/// APIC EOI bookkeeping shared by the interrupt path.
#[derive(Clone, Copy, Debug, PartialEq, Eq, Structural)]
pub struct ApicCounters {
    pub ready: bool,
    pub eoi_count: u64,
    pub spurious_eoi_count: u64,
}

impl ApicCounters {
    /// Not ready, no EOIs.
    pub fn new() -> (c: ApicCounters)
        ensures
            c == (ApicCounters { ready: false, eoi_count: 0, spurious_eoi_count: 0 }),
    {
        ApicCounters { ready: false, eoi_count: 0, spurious_eoi_count: 0 }
    }

    /// Published once the APIC page is mapped and software-enabled.
    pub fn mark_ready(&mut self)
        ensures
            *final(self) == (ApicCounters { ready: true, ..*old(self) }),
    {
        self.ready = true;
    }

    /// A timer EOI: sent (and counted) only when the APIC is ready.
    pub fn timer_eoi(&mut self) -> (send: bool)
        ensures
            send == old(self).ready,
            send ==> *final(self) == (ApicCounters {
                eoi_count: ((old(self).eoi_count + 1) % 0x1_0000_0000_0000_0000) as u64,
                ..*old(self)
            }),
            !send ==> *final(self) == *old(self),
    {
        if self.ready {
            self.eoi_count = self.eoi_count.wrapping_add(1);
            true
        } else {
            false
        }
    }

    /// EOIs sent.
    pub fn eoi_count(&self) -> (n: u64)
        ensures
            n == self.eoi_count,
    {
        self.eoi_count
    }

    /// Spurious EOIs sent.
    pub fn spurious_eoi_count(&self) -> (n: u64)
        ensures
            n == self.spurious_eoi_count,
    {
        self.spurious_eoi_count
    }

    /// Whether the APIC is ready.
    pub fn is_ready(&self) -> (b: bool)
        ensures
            b == self.ready,
    {
        self.ready
    }
}

} // verus!
