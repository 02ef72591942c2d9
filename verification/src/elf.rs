//! ELF64 x86-64 executable validation used by the FinnOS boot manager.
use vstd::prelude::*;

verus! {

/// ELF validation failures.
#[derive(Clone, Copy, Debug, PartialEq, Eq, Structural)]
pub enum ElfError {
    /// Input is shorter than the ELF header.
    TruncatedHeader,
    /// Magic is not ELF.
    BadMagic,
    /// File is not ELF64.
    WrongClass,
    /// File is not little endian.
    WrongEndian,
    /// ELF version is unsupported.
    WrongVersion,
    /// Machine is not x86-64.
    WrongMachine,
    /// File is not executable.
    WrongType,
    /// Entry point is zero or invalid.
    BadEntry,
    /// No loadable segment exists.
    NoLoadSegments,
    /// A segment has invalid sizing.
    InvalidSegment,
    /// Arithmetic or range validation overflowed.
    Overflow,
    /// Load ranges overlap.
    Overlap,
    /// Entry is not in executable loaded memory.
    EntryOutsideExecutable,
}

/// A validated loadable ELF segment.
#[derive(Clone, Copy, Debug, PartialEq, Eq, Structural)]
pub struct LoadSegment {
    /// Physical destination.
    pub address: u64,
    /// File offset.
    pub file_offset: u64,
    /// Bytes copied from file.
    pub file_size: u64,
    /// Bytes present in memory.
    pub memory_size: u64,
    /// Segment flags.
    pub flags: u32,
}

/// Validated ELF metadata.
#[derive(Clone, Copy, Debug, PartialEq, Eq, Structural)]
pub struct ValidatedElf {
    /// Entry address.
    pub entry: u64,
    /// Lowest loaded address.
    pub load_start: u64,
    /// Exclusive end of loaded ranges.
    pub load_end: u64,
    /// Number of load segments.
    pub segment_count: usize,
}

/// Bytes in the ELF64 file header.
pub const ELF_HEADER: usize = 64;
/// Minimum bytes in one ELF64 program header.
pub const PROGRAM_HEADER: usize = 56;
/// Program-header type of a loadable segment.
pub const PT_LOAD: u32 = 1;
/// Executable segment flag.
pub const PF_X: u32 = 1;
/// Most loadable segments the boot manager accepts.
pub const MAX_LOAD_SEGMENTS: usize = 32;
/// Lowest address a segment may be loaded at.
pub const MIN_LOAD_ADDRESS: u64 = 0x1000;

/// Little-endian 16-bit value at `o`.
pub open spec fn le16(s: Seq<u8>, o: int) -> u16 {
    (s[o] as u16) | ((s[o + 1] as u16) << 8u16)
}

/// Little-endian 32-bit value at `o`.
pub open spec fn le32(s: Seq<u8>, o: int) -> u32 {
    (s[o] as u32) | ((s[o + 1] as u32) << 8u32) | ((s[o + 2] as u32) << 16u32) | ((s[o
        + 3] as u32) << 24u32)
}

/// Little-endian 64-bit value at `o`.
pub open spec fn le64(s: Seq<u8>, o: int) -> u64 {
    (s[o] as u64) | ((s[o + 1] as u64) << 8u64) | ((s[o + 2] as u64) << 16u64) | ((s[o
        + 3] as u64) << 24u64) | ((s[o + 4] as u64) << 32u64) | ((s[o + 5] as u64) << 40u64)
        | ((s[o + 6] as u64) << 48u64) | ((s[o + 7] as u64) << 56u64)
}

/// A power of two (zero is not one).
pub open spec fn power_of_two(x: u64) -> bool {
    x != 0 && x & ((x - 1) as u64) == 0
}

/// The segment described by the program header at byte `off`.
pub open spec fn header_segment(s: Seq<u8>, off: int) -> LoadSegment {
    LoadSegment {
        address: le64(s, off + 24),
        file_offset: le64(s, off + 8),
        file_size: le64(s, off + 32),
        memory_size: le64(s, off + 40),
        flags: le32(s, off + 4),
    }
}

/// Exclusive end of a segment's memory image, as an integer.
pub open spec fn segment_end(seg: LoadSegment) -> int {
    seg.address + seg.memory_size
}

/// Two segments' memory images intersect.
pub open spec fn segments_overlap(a: LoadSegment, b: LoadSegment) -> bool {
    a.address < segment_end(b) && b.address < segment_end(a)
}

/// The first rule a loadable program header at `off` breaks on its own, before
/// it is compared with the segments accepted before it.
pub open spec fn basic_header_error(s: Seq<u8>, off: int, accepted: Seq<LoadSegment>) -> Option<
    ElfError,
> {
    let seg = header_segment(s, off);
    let align = le64(s, off + 48);
    if accepted.len() == MAX_LOAD_SEGMENTS {
        Some(ElfError::Overflow)
    } else if seg.memory_size == 0 || seg.file_size > seg.memory_size || (align != 0
        && !power_of_two(align)) || (align > 1 && seg.address % align != seg.file_offset % align)
        || seg.address < MIN_LOAD_ADDRESS {
        Some(ElfError::InvalidSegment)
    } else if seg.file_offset + seg.file_size > u64::MAX {
        Some(ElfError::Overflow)
    } else if seg.file_offset + seg.file_size > s.len() {
        Some(ElfError::InvalidSegment)
    } else if segment_end(seg) > u64::MAX {
        Some(ElfError::Overflow)
    } else {
        None
    }
}

/// The first rule a loadable program header at `off` breaks, given the
/// segments accepted before it.
pub open spec fn load_header_error(s: Seq<u8>, off: int, accepted: Seq<LoadSegment>) -> Option<
    ElfError,
> {
    match basic_header_error(s, off, accepted) {
        Some(e) => Some(e),
        None => if exists|j: int|
            0 <= j < accepted.len() && segments_overlap(
                header_segment(s, off),
                #[trigger] accepted[j],
            ) {
            Some(ElfError::Overlap)
        } else {
            None
        },
    }
}

/// Whether an executable segment contains `entry`.
pub open spec fn runs_entry(seg: LoadSegment, entry: u64) -> bool {
    seg.flags & PF_X != 0 && seg.address <= entry && entry < segment_end(seg)
}

/// The loadable segments and entry-is-executable flag after the first `k`
/// program headers, or the first error met on the way.
pub open spec fn scan_headers(s: Seq<u8>, phoff: int, phentsize: int, entry: u64, k: nat) -> Result<
    (Seq<LoadSegment>, bool),
    ElfError,
>
    decreases k,
{
    if k == 0 {
        Ok((Seq::empty(), false))
    } else {
        match scan_headers(s, phoff, phentsize, entry, (k - 1) as nat) {
            Err(e) => Err(e),
            Ok((accepted, executable)) => {
                let off = phoff + (k - 1) * phentsize;
                if le32(s, off) != PT_LOAD {
                    Ok((accepted, executable))
                } else {
                    match load_header_error(s, off, accepted) {
                        Some(e) => Err(e),
                        None => {
                            let seg = header_segment(s, off);
                            Ok((accepted.push(seg), executable || runs_entry(seg, entry)))
                        },
                    }
                }
            },
        }
    }
}

/// Lowest load address of a non-empty segment list.
pub open spec fn lowest_address(segs: Seq<LoadSegment>) -> u64
    decreases segs.len(),
{
    if segs.len() <= 1 {
        segs[0].address
    } else {
        let rest = lowest_address(segs.drop_last());
        if segs.last().address < rest {
            segs.last().address
        } else {
            rest
        }
    }
}

/// Highest exclusive load end of a segment list (zero when empty).
pub open spec fn highest_end(segs: Seq<LoadSegment>) -> int
    decreases segs.len(),
{
    if segs.len() == 0 {
        0
    } else {
        let rest = highest_end(segs.drop_last());
        if segment_end(segs.last()) > rest {
            segment_end(segs.last())
        } else {
            rest
        }
    }
}

/// The outcome of validating the ELF image `s`.
pub open spec fn elf_result(s: Seq<u8>) -> Result<ValidatedElf, ElfError> {
    if s.len() < ELF_HEADER {
        Err(ElfError::TruncatedHeader)
    } else if s[0] != 0x7f || s[1] != 0x45 || s[2] != 0x4c || s[3] != 0x46 {
        Err(ElfError::BadMagic)
    } else if s[4] != 2 {
        Err(ElfError::WrongClass)
    } else if s[5] != 1 {
        Err(ElfError::WrongEndian)
    } else if s[6] != 1 {
        Err(ElfError::WrongVersion)
    } else if le16(s, 16) != 2 {
        Err(ElfError::WrongType)
    } else if le16(s, 18) != 62 {
        Err(ElfError::WrongMachine)
    } else if le64(s, 24) == 0 {
        Err(ElfError::BadEntry)
    } else if le64(s, 32) > usize::MAX {
        Err(ElfError::Overflow)
    } else if le16(s, 54) < PROGRAM_HEADER {
        Err(ElfError::InvalidSegment)
    } else if le64(s, 32) + le16(s, 54) * le16(s, 56) > usize::MAX {
        Err(ElfError::Overflow)
    } else if le64(s, 32) + le16(s, 54) * le16(s, 56) > s.len() {
        Err(ElfError::TruncatedHeader)
    } else {
        let entry = le64(s, 24);
        finish_scan(
            scan_headers(s, le64(s, 32) as int, le16(s, 54) as int, entry, le16(s, 56) as nat),
            entry,
        )
    }
}

/// The validation result once every program header has been scanned.
pub open spec fn finish_scan(scan: Result<(Seq<LoadSegment>, bool), ElfError>, entry: u64) -> Result<
    ValidatedElf,
    ElfError,
> {
    match scan {
        Err(e) => Err(e),
        Ok((segs, executable)) => {
            if segs.len() == 0 {
                Err(ElfError::NoLoadSegments)
            } else if !executable {
                Err(ElfError::EntryOutsideExecutable)
            } else {
                Ok(
                    ValidatedElf {
                        entry,
                        load_start: lowest_address(segs),
                        load_end: highest_end(segs) as u64,
                        segment_count: segs.len() as usize,
                    },
                )
            }
        },
    }
}

/// Every accepted segment list is bounded, non-empty in memory, non-wrapping and
/// pairwise disjoint.
pub open spec fn segments_sound(segs: Seq<LoadSegment>) -> bool {
    &&& segs.len() <= MAX_LOAD_SEGMENTS
    &&& forall|i: int|
        0 <= i < segs.len() ==> #[trigger] segment_end(segs[i]) <= u64::MAX && segs[i].memory_size
            > 0
    &&& forall|i: int, j: int|
        0 <= i < segs.len() && 0 <= j < segs.len() && i != j ==> !segments_overlap(
            #[trigger] segs[i],
            #[trigger] segs[j],
        )
}

proof fn lemma_scan_sound(s: Seq<u8>, phoff: int, phentsize: int, entry: u64, k: nat)
    ensures
        scan_headers(s, phoff, phentsize, entry, k) matches Ok((segs, executable)) ==> {
            &&& segments_sound(segs)
            &&& executable <==> exists|i: int| 0 <= i < segs.len() && runs_entry(#[trigger] segs[i], entry)
        },
    decreases k,
{
    if k > 0 {
        lemma_scan_sound(s, phoff, phentsize, entry, (k - 1) as nat);
        if let Ok((accepted, executable)) = scan_headers(s, phoff, phentsize, entry, (k - 1) as nat) {
            let off = phoff + (k - 1) * phentsize;
            if le32(s, off) == PT_LOAD && load_header_error(s, off, accepted).is_none() {
                let seg = header_segment(s, off);
                let segs = accepted.push(seg);
                assert forall|i: int, j: int|
                    0 <= i < segs.len() && 0 <= j < segs.len() && i != j implies !segments_overlap(
                    #[trigger] segs[i],
                    #[trigger] segs[j],
                ) by {
                    if i == accepted.len() {
                        assert(!segments_overlap(seg, accepted[j]));
                    } else if j == accepted.len() {
                        assert(!segments_overlap(seg, accepted[i]));
                    } else {
                        assert(segs[i] == accepted[i] && segs[j] == accepted[j]);
                    }
                }
                assert forall|i: int| 0 <= i < segs.len() implies #[trigger] segment_end(segs[i])
                    <= u64::MAX && segs[i].memory_size > 0 by {
                    if i < accepted.len() {
                        assert(segs[i] == accepted[i]);
                    }
                }
                if executable {
                    let w = choose|i: int| 0 <= i < accepted.len() && runs_entry(#[trigger] accepted[i], entry);
                    assert(segs[w] == accepted[w]);
                    assert(runs_entry(segs[w], entry));
                }
                if runs_entry(seg, entry) {
                    assert(segs[accepted.len() as int] == seg);
                    assert(runs_entry(segs[accepted.len() as int], entry));
                }
                if exists|i: int| 0 <= i < segs.len() && runs_entry(#[trigger] segs[i], entry) {
                    let w = choose|i: int| 0 <= i < segs.len() && runs_entry(#[trigger] segs[i], entry);
                    if w < accepted.len() {
                        assert(segs[w] == accepted[w]);
                    }
                }
            }
        }
    }
}

/// Byte offset of program header `j` in a table at `phoff` with entries of
/// `phentsize` bytes.
pub open spec fn ph_at(phoff: int, phentsize: int, j: int) -> int {
    phoff + j * phentsize
}

/// Byte offset of program header `j` of the image `s`, as its file header
/// places the table.
pub open spec fn program_header_offset(s: Seq<u8>, j: int) -> int {
    ph_at(le64(s, 32) as int, le16(s, 54) as int, j)
}

/// How many of the first `n` program headers of `s` are loadable.
pub open spec fn load_header_count(s: Seq<u8>, n: int) -> nat
    decreases n,
{
    if n <= 0 {
        0
    } else {
        load_header_count(s, n - 1) + if le32(s, program_header_offset(s, n - 1)) == PT_LOAD {
            1nat
        } else {
            0nat
        }
    }
}

/// A scan of the file's program-header table keeps one segment per
/// loadable header.
proof fn lemma_scan_count(s: Seq<u8>, entry: u64, k: nat)
    ensures
        scan_headers(s, le64(s, 32) as int, le16(s, 54) as int, entry, k) matches Ok((segs, _))
            ==> segs.len() == load_header_count(s, k as int),
    decreases k,
{
    if k > 0 {
        lemma_scan_count(s, entry, (k - 1) as nat);
        assert(program_header_offset(s, k - 1) == le64(s, 32) as int + (k - 1) * le16(s, 54) as int);
    }
}

/// `seg` is the segment of a loadable program header among the first `k`.
pub open spec fn loaded_from_header(s: Seq<u8>, phoff: int, phentsize: int, k: int, seg: LoadSegment) -> bool {
    exists|j: int|
        0 <= j < k && le32(s, #[trigger] ph_at(phoff, phentsize, j)) == PT_LOAD && seg
            == header_segment(s, ph_at(phoff, phentsize, j))
}

/// Every segment a scan accepts is the segment of one of the scanned
/// program headers, and that header has the loadable type.
proof fn lemma_scan_origin(s: Seq<u8>, phoff: int, phentsize: int, entry: u64, k: nat)
    ensures
        scan_headers(s, phoff, phentsize, entry, k) matches Ok((segs, _)) ==> forall|i: int|
            #![trigger segs[i]]
            0 <= i < segs.len() ==> loaded_from_header(s, phoff, phentsize, k as int, segs[i]),
    decreases k,
{
    if k > 0 {
        lemma_scan_origin(s, phoff, phentsize, entry, (k - 1) as nat);
        if let Ok((accepted, executable)) = scan_headers(s, phoff, phentsize, entry, (k - 1) as nat) {
            let off = phoff + (k - 1) * phentsize;
            assert(off == ph_at(phoff, phentsize, k - 1));
            assert forall|i: int| #![trigger accepted[i]] 0 <= i < accepted.len() implies loaded_from_header(
                s,
                phoff,
                phentsize,
                k as int,
                accepted[i],
            ) by {
                assert(loaded_from_header(s, phoff, phentsize, k - 1, accepted[i]));
                let j = choose|j: int|
                    0 <= j < k - 1 && le32(s, #[trigger] ph_at(phoff, phentsize, j)) == PT_LOAD
                        && accepted[i] == header_segment(s, ph_at(phoff, phentsize, j));
                assert(le32(s, ph_at(phoff, phentsize, j)) == PT_LOAD);
            }
            if le32(s, off) == PT_LOAD && load_header_error(s, off, accepted).is_none() {
                let seg = header_segment(s, off);
                let segs = accepted.push(seg);
                assert(le32(s, ph_at(phoff, phentsize, k - 1)) == PT_LOAD);
                assert(loaded_from_header(s, phoff, phentsize, k as int, seg));
                assert forall|i: int| #![trigger segs[i]] 0 <= i < segs.len() implies loaded_from_header(
                    s,
                    phoff,
                    phentsize,
                    k as int,
                    segs[i],
                ) by {
                    if i < accepted.len() {
                        assert(segs[i] == accepted[i]);
                    } else {
                        assert(segs[i] == seg);
                    }
                }
            }
        }
    }
}

/// The rules an accepted loadable program header at byte `off` meets: a
/// non-empty memory image no smaller than its file image, a power-of-two
/// (or zero) alignment that address and file offset agree on, a load
/// address at or above the minimum, file bytes inside the image, and a
/// memory end that fits in 64 bits.
pub open spec fn accepted_load_header(s: Seq<u8>, off: int) -> bool {
    let offset = le64(s, off + 8);
    let address = le64(s, off + 24);
    let file_size = le64(s, off + 32);
    let memory_size = le64(s, off + 40);
    let align = le64(s, off + 48);
    &&& memory_size > 0
    &&& file_size <= memory_size
    &&& align == 0 || power_of_two(align)
    &&& align > 1 ==> address % align == offset % align
    &&& address >= MIN_LOAD_ADDRESS
    &&& offset + file_size <= u64::MAX
    &&& offset + file_size <= s.len()
    &&& address + memory_size <= u64::MAX
}

/// Every loadable header among the first `k` that a scan accepted meets the
/// header rules and is among the accepted segments, and no two of them
/// overlap in memory.
proof fn lemma_scan_complete(s: Seq<u8>, phoff: int, phentsize: int, entry: u64, k: nat)
    ensures
        scan_headers(s, phoff, phentsize, entry, k) matches Ok((segs, _)) ==> {
            &&& forall|j: int|
                #![trigger ph_at(phoff, phentsize, j)]
                0 <= j < k && le32(s, ph_at(phoff, phentsize, j)) == PT_LOAD ==> accepted_load_header(
                    s,
                    ph_at(phoff, phentsize, j),
                ) && segs.contains(header_segment(s, ph_at(phoff, phentsize, j)))
            &&& forall|j1: int, j2: int|
                #![trigger ph_at(phoff, phentsize, j1), ph_at(phoff, phentsize, j2)]
                0 <= j1 < j2 < k && le32(s, ph_at(phoff, phentsize, j1)) == PT_LOAD && le32(
                    s,
                    ph_at(phoff, phentsize, j2),
                ) == PT_LOAD ==> !segments_overlap(
                    header_segment(s, ph_at(phoff, phentsize, j1)),
                    header_segment(s, ph_at(phoff, phentsize, j2)),
                )
        },
    decreases k,
{
    if k > 0 {
        lemma_scan_complete(s, phoff, phentsize, entry, (k - 1) as nat);
        if let Ok((accepted, executable)) = scan_headers(s, phoff, phentsize, entry, (k - 1) as nat) {
            let off = phoff + (k - 1) * phentsize;
            assert(off == ph_at(phoff, phentsize, k - 1));
            if le32(s, off) == PT_LOAD && load_header_error(s, off, accepted).is_none() {
                let seg = header_segment(s, off);
                let segs = accepted.push(seg);
                assert(segs[accepted.len() as int] == seg);
                assert(accepted_load_header(s, off));
                assert forall|j: int|
                    #![trigger ph_at(phoff, phentsize, j)]
                    0 <= j < k && le32(s, ph_at(phoff, phentsize, j)) == PT_LOAD implies accepted_load_header(
                        s,
                        ph_at(phoff, phentsize, j),
                    ) && segs.contains(header_segment(s, ph_at(phoff, phentsize, j))) by {
                    if j < k - 1 {
                        let x = header_segment(s, ph_at(phoff, phentsize, j));
                        assert(accepted.contains(x));
                        let w = choose|w: int| 0 <= w < accepted.len() && accepted[w] == x;
                        assert(segs[w] == x);
                    }
                }
                assert forall|j1: int, j2: int|
                    #![trigger ph_at(phoff, phentsize, j1), ph_at(phoff, phentsize, j2)]
                    0 <= j1 < j2 < k && le32(s, ph_at(phoff, phentsize, j1)) == PT_LOAD && le32(
                        s,
                        ph_at(phoff, phentsize, j2),
                    ) == PT_LOAD implies !segments_overlap(
                    header_segment(s, ph_at(phoff, phentsize, j1)),
                    header_segment(s, ph_at(phoff, phentsize, j2)),
                ) by {
                    if j2 == k - 1 {
                        let x = header_segment(s, ph_at(phoff, phentsize, j1));
                        assert(accepted.contains(x));
                        let w = choose|w: int| 0 <= w < accepted.len() && accepted[w] == x;
                        assert(!segments_overlap(seg, accepted[w]));
                    }
                }
            } else if le32(s, off) != PT_LOAD {
                assert forall|j: int|
                    #![trigger ph_at(phoff, phentsize, j)]
                    0 <= j < k && le32(s, ph_at(phoff, phentsize, j)) == PT_LOAD implies accepted_load_header(
                        s,
                        ph_at(phoff, phentsize, j),
                    ) && accepted.contains(header_segment(s, ph_at(phoff, phentsize, j))) by {
                    assert(j != k - 1);
                }
                assert forall|j1: int, j2: int|
                    #![trigger ph_at(phoff, phentsize, j1), ph_at(phoff, phentsize, j2)]
                    0 <= j1 < j2 < k && le32(s, ph_at(phoff, phentsize, j1)) == PT_LOAD && le32(
                        s,
                        ph_at(phoff, phentsize, j2),
                    ) == PT_LOAD implies !segments_overlap(
                    header_segment(s, ph_at(phoff, phentsize, j1)),
                    header_segment(s, ph_at(phoff, phentsize, j2)),
                ) by {
                    assert(j2 != k - 1);
                }
            }
        }
    }
}

/// An accepted image is a little-endian ELF64 x86-64 executable with a
/// non-zero entry and a program-header table inside the file; every loadable
/// header in that table meets the header rules and lies inside the reported
/// load range, no two loadable headers overlap in memory, and the reported
/// range starts at one loadable header's address and ends at one's end.
pub proof fn lemma_accepted_image(s: Seq<u8>)
    ensures
        elf_result(s) matches Ok(v) ==> {
            &&& s.len() >= ELF_HEADER
            &&& s[0] == 0x7f && s[1] == 0x45 && s[2] == 0x4c && s[3] == 0x46
            &&& s[4] == 2 && s[5] == 1 && s[6] == 1
            &&& le16(s, 16) == 2 && le16(s, 18) == 62
            &&& v.entry == le64(s, 24) && v.entry != 0
            &&& le16(s, 54) >= PROGRAM_HEADER
            &&& le64(s, 32) + le16(s, 54) * le16(s, 56) <= s.len()
            &&& forall|j: int|
                #![trigger program_header_offset(s, j)]
                0 <= j < le16(s, 56) && le32(s, program_header_offset(s, j)) == PT_LOAD
                    ==> accepted_load_header(s, program_header_offset(s, j)) && v.load_start <= le64(
                    s,
                    program_header_offset(s, j) + 24,
                ) && le64(s, program_header_offset(s, j) + 24) + le64(
                    s,
                    program_header_offset(s, j) + 40,
                ) <= v.load_end
            &&& forall|j1: int, j2: int|
                #![trigger program_header_offset(s, j1), program_header_offset(s, j2)]
                0 <= j1 < j2 < le16(s, 56) && le32(s, program_header_offset(s, j1)) == PT_LOAD && le32(
                    s,
                    program_header_offset(s, j2),
                ) == PT_LOAD ==> le64(s, program_header_offset(s, j1) + 24) + le64(
                    s,
                    program_header_offset(s, j1) + 40,
                ) <= le64(s, program_header_offset(s, j2) + 24) || le64(
                    s,
                    program_header_offset(s, j2) + 24,
                ) + le64(s, program_header_offset(s, j2) + 40) <= le64(
                    s,
                    program_header_offset(s, j1) + 24,
                )
            &&& v.segment_count == load_header_count(s, le16(s, 56) as int)
            &&& exists|j: int|
                0 <= j < le16(s, 56) && le32(s, #[trigger] program_header_offset(s, j)) == PT_LOAD
                    && le64(s, program_header_offset(s, j) + 24) == v.load_start
            &&& exists|j: int|
                0 <= j < le16(s, 56) && le32(s, #[trigger] program_header_offset(s, j)) == PT_LOAD
                    && le64(s, program_header_offset(s, j) + 24) + le64(
                    s,
                    program_header_offset(s, j) + 40,
                ) == v.load_end
        },
{
    if elf_result(s) is Ok {
        let phoff = le64(s, 32) as int;
        let phentsize = le16(s, 54) as int;
        let k = le16(s, 56) as nat;
        let entry = le64(s, 24);
        lemma_scan_sound(s, phoff, phentsize, entry, k);
        lemma_scan_origin(s, phoff, phentsize, entry, k);
        lemma_scan_complete(s, phoff, phentsize, entry, k);
        lemma_scan_count(s, entry, k);
        let (segs, executable) = scan_headers(s, phoff, phentsize, entry, k)->Ok_0;
        lemma_bounds(segs);
        let v = elf_result(s)->Ok_0;
        assert forall|j: int|
            #![trigger program_header_offset(s, j)]
            0 <= j < le16(s, 56) && le32(s, program_header_offset(s, j)) == PT_LOAD
                implies accepted_load_header(s, program_header_offset(s, j)) && v.load_start <= le64(
                s,
                program_header_offset(s, j) + 24,
            ) && le64(s, program_header_offset(s, j) + 24) + le64(
                s,
                program_header_offset(s, j) + 40,
            ) <= v.load_end by {
            assert(program_header_offset(s, j) == ph_at(phoff, phentsize, j));
            let x = header_segment(s, ph_at(phoff, phentsize, j));
            assert(segs.contains(x));
            let w = choose|w: int| 0 <= w < segs.len() && segs[w] == x;
            assert(lowest_address(segs) <= segs[w].address);
            assert(highest_end(segs) >= segment_end(segs[w]));
        }
        assert forall|j1: int, j2: int|
            #![trigger program_header_offset(s, j1), program_header_offset(s, j2)]
            0 <= j1 < j2 < le16(s, 56) && le32(s, program_header_offset(s, j1)) == PT_LOAD && le32(
                s,
                program_header_offset(s, j2),
            ) == PT_LOAD implies le64(s, program_header_offset(s, j1) + 24) + le64(
                s,
                program_header_offset(s, j1) + 40,
            ) <= le64(s, program_header_offset(s, j2) + 24) || le64(
                s,
                program_header_offset(s, j2) + 24,
            ) + le64(s, program_header_offset(s, j2) + 40) <= le64(
                s,
                program_header_offset(s, j1) + 24,
            ) by {
            assert(program_header_offset(s, j1) == ph_at(phoff, phentsize, j1));
            assert(program_header_offset(s, j2) == ph_at(phoff, phentsize, j2));
        }
        let w = choose|i: int| 0 <= i < segs.len() && lowest_address(segs) == #[trigger] segs[i].address;
        assert(loaded_from_header(s, phoff, phentsize, k as int, segs[w]));
        let j = choose|j: int|
            0 <= j < k && le32(s, #[trigger] ph_at(phoff, phentsize, j)) == PT_LOAD && segs[w]
                == header_segment(s, ph_at(phoff, phentsize, j));
        assert(program_header_offset(s, j) == ph_at(phoff, phentsize, j));
        let w2 = choose|i: int| 0 <= i < segs.len() && highest_end(segs) == segment_end(#[trigger] segs[i]);
        assert(loaded_from_header(s, phoff, phentsize, k as int, segs[w2]));
        let j2 = choose|j: int|
            0 <= j < k && le32(s, #[trigger] ph_at(phoff, phentsize, j)) == PT_LOAD && segs[w2]
                == header_segment(s, ph_at(phoff, phentsize, j));
        assert(program_header_offset(s, j2) == ph_at(phoff, phentsize, j2));
    }
}

/// Some loadable header among the first `k` of `s` is executable and its
/// memory image holds `entry`.
pub open spec fn entry_header_among(s: Seq<u8>, entry: u64, k: int) -> bool {
    exists|j: int|
        0 <= j < k && le32(s, #[trigger] program_header_offset(s, j)) == PT_LOAD && le32(
            s,
            program_header_offset(s, j) + 4,
        ) & PF_X != 0 && le64(s, program_header_offset(s, j) + 24) <= entry && entry < le64(
            s,
            program_header_offset(s, j) + 24,
        ) + le64(s, program_header_offset(s, j) + 40)
}

/// When the loadable headers among the first `k` meet the header rules,
/// are pairwise disjoint and are few enough, scanning them succeeds, and
/// records an executable entry exactly when one of them holds it.
proof fn lemma_scan_succeeds(s: Seq<u8>, entry: u64, k: nat)
    requires
        forall|j: int|
            #![trigger program_header_offset(s, j)]
            0 <= j < k && le32(s, program_header_offset(s, j)) == PT_LOAD ==> accepted_load_header(
                s,
                program_header_offset(s, j),
            ),
        forall|j1: int, j2: int|
            #![trigger program_header_offset(s, j1), program_header_offset(s, j2)]
            0 <= j1 < j2 < k && le32(s, program_header_offset(s, j1)) == PT_LOAD && le32(
                s,
                program_header_offset(s, j2),
            ) == PT_LOAD ==> !segments_overlap(
                header_segment(s, program_header_offset(s, j1)),
                header_segment(s, program_header_offset(s, j2)),
            ),
        load_header_count(s, k as int) <= MAX_LOAD_SEGMENTS,
    ensures
        scan_headers(s, le64(s, 32) as int, le16(s, 54) as int, entry, k) is Ok,
        scan_headers(s, le64(s, 32) as int, le16(s, 54) as int, entry, k)->Ok_0.1 <==> entry_header_among(
            s,
            entry,
            k as int,
        ),
    decreases k,
{
    let phoff = le64(s, 32) as int;
    let phentsize = le16(s, 54) as int;
    if k > 0 {
        lemma_scan_succeeds(s, entry, (k - 1) as nat);
        lemma_scan_count(s, entry, (k - 1) as nat);
        lemma_scan_origin(s, phoff, phentsize, entry, (k - 1) as nat);
        let (accepted, executable) = scan_headers(s, phoff, phentsize, entry, (k - 1) as nat)->Ok_0;
        let off = phoff + (k - 1) * phentsize;
        assert(off == program_header_offset(s, k - 1));
        if entry_header_among(s, entry, k - 1) {
            let j = choose|j: int|
                0 <= j < k - 1 && le32(s, #[trigger] program_header_offset(s, j)) == PT_LOAD && le32(
                    s,
                    program_header_offset(s, j) + 4,
                ) & PF_X != 0 && le64(s, program_header_offset(s, j) + 24) <= entry && entry < le64(
                    s,
                    program_header_offset(s, j) + 24,
                ) + le64(s, program_header_offset(s, j) + 40);
            assert(entry_header_among(s, entry, k as int));
        }
        if le32(s, off) == PT_LOAD {
            let seg = header_segment(s, off);
            assert(accepted_load_header(s, off));
            assert(accepted.len() < MAX_LOAD_SEGMENTS);
            assert(basic_header_error(s, off, accepted).is_none());
            assert forall|w: int| 0 <= w < accepted.len() implies !segments_overlap(
                seg,
                #[trigger] accepted[w],
            ) by {
                assert(loaded_from_header(s, phoff, phentsize, (k - 1) as int, accepted[w]));
                let j = choose|j: int|
                    0 <= j < k - 1 && le32(s, #[trigger] ph_at(phoff, phentsize, j)) == PT_LOAD
                        && accepted[w] == header_segment(s, ph_at(phoff, phentsize, j));
                assert(program_header_offset(s, j) == ph_at(phoff, phentsize, j));
                assert(!segments_overlap(
                    header_segment(s, program_header_offset(s, j)),
                    header_segment(s, program_header_offset(s, k - 1)),
                ));
            }
            assert(load_header_error(s, off, accepted).is_none());
            if runs_entry(seg, entry) {
                assert(entry_header_among(s, entry, k as int));
            }
            if entry_header_among(s, entry, k as int) && !entry_header_among(s, entry, k - 1) {
                let j = choose|j: int|
                    0 <= j < k && le32(s, #[trigger] program_header_offset(s, j)) == PT_LOAD && le32(
                        s,
                        program_header_offset(s, j) + 4,
                    ) & PF_X != 0 && le64(s, program_header_offset(s, j) + 24) <= entry && entry < le64(
                        s,
                        program_header_offset(s, j) + 24,
                    ) + le64(s, program_header_offset(s, j) + 40);
                if j < k - 1 {
                    assert(entry_header_among(s, entry, k - 1));
                }
                assert(runs_entry(seg, entry));
            }
        } else {
            if entry_header_among(s, entry, k as int) && !entry_header_among(s, entry, k - 1) {
                let j = choose|j: int|
                    0 <= j < k && le32(s, #[trigger] program_header_offset(s, j)) == PT_LOAD && le32(
                        s,
                        program_header_offset(s, j) + 4,
                    ) & PF_X != 0 && le64(s, program_header_offset(s, j) + 24) <= entry && entry < le64(
                        s,
                        program_header_offset(s, j) + 24,
                    ) + le64(s, program_header_offset(s, j) + 40);
                if j < k - 1 {
                    assert(entry_header_among(s, entry, k - 1));
                }
            }
        }
    }
}

/// A little-endian ELF64 x86-64 executable with a non-zero entry, a
/// program-header table inside the file, one to `MAX_LOAD_SEGMENTS`
/// loadable headers that all meet the header rules and are pairwise
/// disjoint, and an executable loadable header holding the entry, is
/// accepted.
pub proof fn lemma_well_formed_image_accepted(s: Seq<u8>)
    requires
        s.len() >= ELF_HEADER,
        s[0] == 0x7f && s[1] == 0x45 && s[2] == 0x4c && s[3] == 0x46,
        s[4] == 2 && s[5] == 1 && s[6] == 1,
        le16(s, 16) == 2 && le16(s, 18) == 62,
        le64(s, 24) != 0,
        le16(s, 54) >= PROGRAM_HEADER,
        le64(s, 32) + le16(s, 54) * le16(s, 56) <= s.len(),
        s.len() <= usize::MAX,
        forall|j: int|
            #![trigger program_header_offset(s, j)]
            0 <= j < le16(s, 56) && le32(s, program_header_offset(s, j)) == PT_LOAD
                ==> accepted_load_header(s, program_header_offset(s, j)),
        forall|j1: int, j2: int|
            #![trigger program_header_offset(s, j1), program_header_offset(s, j2)]
            0 <= j1 < j2 < le16(s, 56) && le32(s, program_header_offset(s, j1)) == PT_LOAD && le32(
                s,
                program_header_offset(s, j2),
            ) == PT_LOAD ==> le64(s, program_header_offset(s, j1) + 24) + le64(
                s,
                program_header_offset(s, j1) + 40,
            ) <= le64(s, program_header_offset(s, j2) + 24) || le64(
                s,
                program_header_offset(s, j2) + 24,
            ) + le64(s, program_header_offset(s, j2) + 40) <= le64(
                s,
                program_header_offset(s, j1) + 24,
            ),
        1 <= load_header_count(s, le16(s, 56) as int) <= MAX_LOAD_SEGMENTS,
        entry_header_among(s, le64(s, 24), le16(s, 56) as int),
    ensures
        elf_result(s) is Ok,
{
    let k = le16(s, 56) as nat;
    let entry = le64(s, 24);
    assert forall|j1: int, j2: int|
        #![trigger program_header_offset(s, j1), program_header_offset(s, j2)]
        0 <= j1 < j2 < k && le32(s, program_header_offset(s, j1)) == PT_LOAD && le32(
            s,
            program_header_offset(s, j2),
        ) == PT_LOAD implies !segments_overlap(
        header_segment(s, program_header_offset(s, j1)),
        header_segment(s, program_header_offset(s, j2)),
    ) by {}
    lemma_scan_succeeds(s, entry, k);
    lemma_scan_count(s, entry, k);
}

/// An accepted image's entry point lies inside the memory image of a
/// loadable program header of the file that has the execute flag set.
pub proof fn lemma_entry_in_executable_segment(s: Seq<u8>)
    ensures
        elf_result(s) matches Ok(v) ==> {
            &&& v.entry == le64(s, 24)
            &&& exists|j: int|
                0 <= j < le16(s, 56) && le32(s, #[trigger] program_header_offset(s, j)) == PT_LOAD
                    && le32(s, program_header_offset(s, j) + 4) & PF_X != 0 && le64(
                    s,
                    program_header_offset(s, j) + 24,
                ) <= v.entry && v.entry < le64(s, program_header_offset(s, j) + 24) + le64(
                    s,
                    program_header_offset(s, j) + 40,
                )
        },
{
    if elf_result(s) is Ok {
        let phoff = le64(s, 32) as int;
        let phentsize = le16(s, 54) as int;
        let k = le16(s, 56) as nat;
        let entry = le64(s, 24);
        lemma_scan_sound(s, phoff, phentsize, entry, k);
        lemma_scan_origin(s, phoff, phentsize, entry, k);
        let (segs, executable) = scan_headers(s, phoff, phentsize, entry, k)->Ok_0;
        let i = choose|i: int| 0 <= i < segs.len() && runs_entry(#[trigger] segs[i], entry);
        assert(loaded_from_header(s, phoff, phentsize, k as int, segs[i]));
        let j = choose|j: int|
            0 <= j < k && le32(s, #[trigger] ph_at(phoff, phentsize, j)) == PT_LOAD && segs[i]
                == header_segment(s, ph_at(phoff, phentsize, j));
        assert(program_header_offset(s, j) == ph_at(phoff, phentsize, j));
    }
}

proof fn lemma_scan_error_persists(
    s: Seq<u8>,
    phoff: int,
    phentsize: int,
    entry: u64,
    k: nat,
    m: nat,
    e: ElfError,
)
    requires
        k <= m,
        scan_headers(s, phoff, phentsize, entry, k) == Err::<(Seq<LoadSegment>, bool), ElfError>(e),
    ensures
        scan_headers(s, phoff, phentsize, entry, m) == Err::<(Seq<LoadSegment>, bool), ElfError>(e),
    decreases m - k,
{
    if k < m {
        lemma_scan_error_persists(s, phoff, phentsize, entry, k, (m - 1) as nat, e);
    }
}

proof fn lemma_bounds(segs: Seq<LoadSegment>)
    requires
        segs.len() > 0,
        forall|i: int| 0 <= i < segs.len() ==> #[trigger] segment_end(segs[i]) <= u64::MAX,
    ensures
        forall|i: int| 0 <= i < segs.len() ==> lowest_address(segs) <= #[trigger] segs[i].address,
        forall|i: int| 0 <= i < segs.len() ==> highest_end(segs) >= segment_end(#[trigger] segs[i]),
        exists|i: int| 0 <= i < segs.len() && lowest_address(segs) == #[trigger] segs[i].address,
        exists|i: int| 0 <= i < segs.len() && highest_end(segs) == segment_end(#[trigger] segs[i]),
        highest_end(segs) <= u64::MAX,
    decreases segs.len(),
{
    let rest = segs.drop_last();
    if segs.len() == 1 {
        assert(lowest_address(segs) == segs[0].address);
        assert(highest_end(rest) == 0);
        assert(segs.last() == segs[0]);
    } else {
        lemma_bounds(rest);
        assert forall|i: int| 0 <= i < segs.len() implies lowest_address(segs)
            <= #[trigger] segs[i].address by {
            if i < rest.len() {
                assert(segs[i] == rest[i]);
            }
        }
        assert forall|i: int| 0 <= i < segs.len() implies highest_end(segs) >= segment_end(
            #[trigger] segs[i],
        ) by {
            if i < rest.len() {
                assert(segs[i] == rest[i]);
            }
        }
        let w = choose|i: int| 0 <= i < rest.len() && lowest_address(rest) == #[trigger] rest[i].address;
        assert(segs[w] == rest[w]);
        assert(segs[segs.len() - 1] == segs.last());
        let w2 = choose|i: int| 0 <= i < rest.len() && highest_end(rest) == segment_end(#[trigger] rest[i]);
        assert(segs[w2] == rest[w2]);
    }
}

/// Read a little-endian `u16` at `offset`.
fn read_u16(data: &[u8], offset: usize) -> (result: Result<u16, ElfError>)
    ensures
        match result {
            Ok(v) => offset + 2 <= data@.len() && v == le16(data@, offset as int),
            Err(e) => (offset + 2 > usize::MAX && e == ElfError::Overflow) || (offset + 2
                <= usize::MAX && offset + 2 > data@.len() && e == ElfError::TruncatedHeader),
        },
{
    let end = match offset.checked_add(2) {
        Some(end) => end,
        None => return Err(ElfError::Overflow),
    };
    if end > data.len() {
        return Err(ElfError::TruncatedHeader);
    }
    Ok((data[offset] as u16) | ((data[offset + 1] as u16) << 8u16))
}

/// Read a little-endian `u32` at `offset`.
fn read_u32(data: &[u8], offset: usize) -> (result: Result<u32, ElfError>)
    ensures
        match result {
            Ok(v) => offset + 4 <= data@.len() && v == le32(data@, offset as int),
            Err(e) => (offset + 4 > usize::MAX && e == ElfError::Overflow) || (offset + 4
                <= usize::MAX && offset + 4 > data@.len() && e == ElfError::TruncatedHeader),
        },
{
    let end = match offset.checked_add(4) {
        Some(end) => end,
        None => return Err(ElfError::Overflow),
    };
    if end > data.len() {
        return Err(ElfError::TruncatedHeader);
    }
    Ok((data[offset] as u32) | ((data[offset + 1] as u32) << 8u32) | ((data[offset + 2] as u32)
        << 16u32) | ((data[offset + 3] as u32) << 24u32))
}

/// Read a little-endian `u64` at `offset`.
fn read_u64(data: &[u8], offset: usize) -> (result: Result<u64, ElfError>)
    ensures
        match result {
            Ok(v) => offset + 8 <= data@.len() && v == le64(data@, offset as int),
            Err(e) => (offset + 8 > usize::MAX && e == ElfError::Overflow) || (offset + 8
                <= usize::MAX && offset + 8 > data@.len() && e == ElfError::TruncatedHeader),
        },
{
    let end = match offset.checked_add(8) {
        Some(end) => end,
        None => return Err(ElfError::Overflow),
    };
    if end > data.len() {
        return Err(ElfError::TruncatedHeader);
    }
    Ok((data[offset] as u64) | ((data[offset + 1] as u64) << 8u64) | ((data[offset + 2] as u64)
        << 16u64) | ((data[offset + 3] as u64) << 24u64) | ((data[offset + 4] as u64) << 32u64)
        | ((data[offset + 5] as u64) << 40u64) | ((data[offset + 6] as u64) << 48u64) | ((
    data[offset + 7] as u64) << 56u64))
}

/// Check one loadable program header at `offset` against the segments accepted so far.
fn check_load_header(data: &[u8], offset: usize, accepted: &Vec<LoadSegment>) -> (result: Result<
    LoadSegment,
    ElfError,
>)
    requires
        offset + PROGRAM_HEADER <= data@.len(),
        segments_sound(accepted@),
    ensures
        match result {
            Ok(seg) => load_header_error(data@, offset as int, accepted@).is_none() && seg
                == header_segment(data@, offset as int),
            Err(e) => load_header_error(data@, offset as int, accepted@) == Some(e),
        },
{
    let len = data.len();
    if accepted.len() == MAX_LOAD_SEGMENTS {
        return Err(ElfError::Overflow);
    }
    let flags = match read_u32(data, offset + 4) {
        Ok(v) => v,
        Err(e) => return Err(e),
    };
    let file_offset = match read_u64(data, offset + 8) {
        Ok(v) => v,
        Err(e) => return Err(e),
    };
    let address = match read_u64(data, offset + 24) {
        Ok(v) => v,
        Err(e) => return Err(e),
    };
    let file_size = match read_u64(data, offset + 32) {
        Ok(v) => v,
        Err(e) => return Err(e),
    };
    let memory_size = match read_u64(data, offset + 40) {
        Ok(v) => v,
        Err(e) => return Err(e),
    };
    let align = match read_u64(data, offset + 48) {
        Ok(v) => v,
        Err(e) => return Err(e),
    };
    if memory_size == 0 || file_size > memory_size || (align != 0 && align & (align - 1) != 0) || (
    align > 1 && address % align != file_offset % align) || address < MIN_LOAD_ADDRESS {
        return Err(ElfError::InvalidSegment);
    }
    let file_end = match file_offset.checked_add(file_size) {
        Some(v) => v,
        None => return Err(ElfError::Overflow),
    };
    if file_end > data.len() as u64 {
        return Err(ElfError::InvalidSegment);
    }
    let address_end = match address.checked_add(memory_size) {
        Some(v) => v,
        None => return Err(ElfError::Overflow),
    };
    let seg = LoadSegment { address, file_offset, file_size, memory_size, flags };
    let mut j: usize = 0;
    while j < accepted.len()
        invariant
            j <= accepted@.len(),
            segments_sound(accepted@),
            address_end == segment_end(seg),
            address == seg.address,
            seg == header_segment(data@, offset as int),
            basic_header_error(data@, offset as int, accepted@).is_none(),
            forall|i: int| 0 <= i < j ==> !segments_overlap(seg, #[trigger] accepted@[i]),
        decreases accepted@.len() - j,
    {
        let previous = accepted[j];
        assert(segment_end(accepted@[j as int]) <= u64::MAX);
        let previous_end = previous.address + previous.memory_size;
        if address < previous_end && previous.address < address_end {
            assert(segments_overlap(seg, accepted@[j as int]));
            return Err(ElfError::Overlap);
        }
        j += 1;
    }
    Ok(seg)
}

/// Validate an ELF64 x86-64 executable and its loadable segments.
pub fn validate_elf(data: &[u8]) -> (result: Result<ValidatedElf, ElfError>)
    ensures
        result == elf_result(data@),
        result matches Ok(v) ==> {
            &&& 1 <= v.segment_count <= MAX_LOAD_SEGMENTS
            &&& v.load_start < v.load_end
            &&& v.load_start <= v.entry < v.load_end
            &&& v.entry == le64(data@, 24)
            &&& exists|j: int|
                0 <= j < le16(data@, 56) && le32(data@, #[trigger] program_header_offset(data@, j))
                    == PT_LOAD && le32(data@, program_header_offset(data@, j) + 4) & PF_X != 0 && le64(
                    data@,
                    program_header_offset(data@, j) + 24,
                ) <= v.entry && v.entry < le64(data@, program_header_offset(data@, j) + 24) + le64(
                    data@,
                    program_header_offset(data@, j) + 40,
                )
        },
{
    proof {
        lemma_entry_in_executable_segment(data@);
    }
    let len = data.len();
    if len < ELF_HEADER {
        return Err(ElfError::TruncatedHeader);
    }
    if data[0] != 0x7f || data[1] != 0x45 || data[2] != 0x4c || data[3] != 0x46 {
        return Err(ElfError::BadMagic);
    }
    if data[4] != 2 {
        return Err(ElfError::WrongClass);
    }
    if data[5] != 1 {
        return Err(ElfError::WrongEndian);
    }
    if data[6] != 1 {
        return Err(ElfError::WrongVersion);
    }
    let kind = match read_u16(data, 16) {
        Ok(v) => v,
        Err(e) => return Err(e),
    };
    if kind != 2 {
        return Err(ElfError::WrongType);
    }
    let machine = match read_u16(data, 18) {
        Ok(v) => v,
        Err(e) => return Err(e),
    };
    if machine != 62 {
        return Err(ElfError::WrongMachine);
    }
    let entry = match read_u64(data, 24) {
        Ok(v) => v,
        Err(e) => return Err(e),
    };
    if entry == 0 {
        return Err(ElfError::BadEntry);
    }
    let phoff64 = match read_u64(data, 32) {
        Ok(v) => v,
        Err(e) => return Err(e),
    };
    if phoff64 > usize::MAX as u64 {
        return Err(ElfError::Overflow);
    }
    let phoff = phoff64 as usize;
    let phentsize = match read_u16(data, 54) {
        Ok(v) => v as usize,
        Err(e) => return Err(e),
    };
    let phnum = match read_u16(data, 56) {
        Ok(v) => v as usize,
        Err(e) => return Err(e),
    };
    if phentsize < PROGRAM_HEADER {
        return Err(ElfError::InvalidSegment);
    }
    assert(phentsize * phnum <= 0xffff_ffff) by (nonlinear_arith)
        requires
            phentsize <= 0xffff,
            phnum <= 0xffff,
    ;
    let table_size = phentsize * phnum;
    let table_end = match phoff.checked_add(table_size) {
        Some(v) => v,
        None => return Err(ElfError::Overflow),
    };
    if table_end > data.len() {
        return Err(ElfError::TruncatedHeader);
    }
    let ghost s = data@;
    let mut segments: Vec<LoadSegment> = Vec::new();
    let mut entry_is_executable = false;
    let mut index: usize = 0;
    while index < phnum
        invariant
            s == data@,
            data@.len() == len,
            elf_result(s) == finish_scan(
                scan_headers(s, phoff as int, phentsize as int, entry, phnum as nat),
                entry,
            ),
            index <= phnum,
            phentsize >= PROGRAM_HEADER,
            phoff + phentsize * phnum <= data@.len(),
            scan_headers(s, phoff as int, phentsize as int, entry, index as nat) == Ok::<
                (Seq<LoadSegment>, bool),
                ElfError,
            >((segments@, entry_is_executable)),
            segments_sound(segments@),
        decreases phnum - index,
    {
        assert(phentsize * index + phentsize <= phentsize * phnum) by (nonlinear_arith)
            requires
                index < phnum,
        ;
        assert(index * phentsize == phentsize * index) by (nonlinear_arith);
        let offset = phoff + index * phentsize;
        let kind = match read_u32(data, offset) {
            Ok(v) => v,
            Err(e) => return Err(e),
        };
        if kind == PT_LOAD {
            match check_load_header(data, offset, &segments) {
                Ok(seg) => {
                    let address_end = seg.address + seg.memory_size;
                    if seg.flags & PF_X != 0 {
                        entry_is_executable = entry_is_executable || (entry >= seg.address && entry
                            < address_end);
                    }
                    segments.push(seg);
                },
                Err(e) => {
                    assert(scan_headers(s, phoff as int, phentsize as int, entry, (index + 1) as nat)
                        == Err::<(Seq<LoadSegment>, bool), ElfError>(e));
                    proof {
                        lemma_scan_error_persists(
                            s,
                            phoff as int,
                            phentsize as int,
                            entry,
                            (index + 1) as nat,
                            phnum as nat,
                            e,
                        );
                    }
                    return Err(e);
                },
            }
        }
        proof {
            lemma_scan_sound(s, phoff as int, phentsize as int, entry, (index + 1) as nat);
        }
        index += 1;
    }
    if segments.len() == 0 {
        return Err(ElfError::NoLoadSegments);
    }
    if !entry_is_executable {
        return Err(ElfError::EntryOutsideExecutable);
    }
    let mut load_start = segments[0].address;
    let mut load_end: u64 = 0;
    let mut k: usize = 0;
    while k < segments.len()
        invariant
            0 < segments@.len() <= MAX_LOAD_SEGMENTS,
            segments_sound(segments@),
            k <= segments@.len(),
            k > 0 ==> load_start == lowest_address(segments@.take(k as int)),
            k == 0 ==> load_start == segments@[0].address,
            load_end == highest_end(segments@.take(k as int)),
        decreases segments@.len() - k,
    {
        let seg = segments[k];
        assert(segments@.take(k + 1).drop_last() == segments@.take(k as int));
        assert(segments@.take(k + 1).last() == seg);
        if k > 0 && seg.address < load_start {
            load_start = seg.address;
        }
        assert(segment_end(segments@[k as int]) <= u64::MAX);
        let end = seg.address + seg.memory_size;
        if end > load_end {
            load_end = end;
        }
        k += 1;
    }
    assert(segments@.take(segments@.len() as int) == segments@);
    proof {
        lemma_scan_sound(s, phoff as int, phentsize as int, entry, phnum as nat);
        lemma_bounds(segments@);
        let w = choose|i: int| 0 <= i < segments@.len() && runs_entry(#[trigger] segments@[i], entry);
        assert(segment_end(segments@[w]) <= highest_end(segments@));
    }
    Ok(ValidatedElf { entry, load_start, load_end, segment_count: segments.len() })
}

} // verus!
