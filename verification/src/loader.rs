//! What the boot manager decides before it copies the kernel image: the
//! loadable segments, the page range they need, the bytes each one copies,
//! and the checks on the firmware's framebuffer mode.
use vstd::prelude::*;
use crate::boot_protocol::{FramebufferInfo, PhysicalRange, PixelFormat};
use crate::elf::{le16, le32, le64, load_header_count, ph_at, program_header_offset, ElfError, PT_LOAD};

verus! {

/// Loader page size.
pub const LOADER_PAGE_SIZE: u64 = 4096;
/// Most loadable segments the loader copies.
pub const MAX_LOADER_SEGMENTS: usize = 32;

/// One loadable segment to copy.
#[derive(Clone, Copy, Debug, PartialEq, Eq, Structural)]
pub struct Segment {
    /// Destination address.
    pub address: u64,
    /// Bytes copied from the file.
    pub file_size: u64,
    /// File offset of the copied bytes.
    pub file_offset: u64,
    /// Bytes the segment occupies in memory.
    pub memory_size: u64,
}

/// The segments to copy and the pages that receive them.
#[derive(Clone, Debug)]
pub struct LoadPlan {
    /// The loadable segments, in header order.
    pub segments: Vec<Segment>,
    /// Lowest segment address.
    pub lowest: u64,
    /// Highest exclusive segment end.
    pub highest: u64,
    /// First page of the allocation.
    pub page_start: u64,
    /// Pages in the allocation.
    pub pages: usize,
}

impl LoadPlan {
    /// The loaded byte range reported to the kernel.
    pub fn loaded_range(&self) -> (r: PhysicalRange)
        requires
            self.lowest <= self.highest,
        ensures
            r.start == self.lowest,
            r.byte_len == self.highest - self.lowest,
    {
        PhysicalRange { start: self.lowest, byte_len: self.highest - self.lowest }
    }
}

/// Why reading `n` bytes at `off` fails, if it does.
pub open spec fn read_error(s: Seq<u8>, off: int, n: int) -> Option<ElfError> {
    if off + n > usize::MAX {
        Some(ElfError::Overflow)
    } else if off + n > s.len() {
        Some(ElfError::InvalidSegment)
    } else {
        None
    }
}

/// The segments after looking at program header `index`, given those found before.
pub open spec fn loader_header(s: Seq<u8>, phoff: int, phentsize: int, index: int, segs: Seq<
    Segment,
>) -> Result<Seq<Segment>, ElfError> {
    if index * phentsize > usize::MAX || phoff + index * phentsize > usize::MAX {
        Err(ElfError::Overflow)
    } else {
        let off = phoff + index * phentsize;
        match read_error(s, off, 4) {
            Some(e) => Err(e),
            None => if le32(s, off) != PT_LOAD {
                Ok(segs)
            } else if off + 48 > s.len() {
                Err(ElfError::InvalidSegment)
            } else {
                let seg = Segment {
                    address: le64(s, off + 24),
                    file_size: le64(s, off + 32),
                    file_offset: le64(s, off + 8),
                    memory_size: le64(s, off + 40),
                };
                if seg.memory_size == 0 || seg.file_size > seg.memory_size {
                    Err(ElfError::InvalidSegment)
                } else if seg.address + seg.memory_size > u64::MAX {
                    Err(ElfError::Overflow)
                } else if segs.len() == MAX_LOADER_SEGMENTS {
                    Err(ElfError::Overflow)
                } else {
                    Ok(segs.push(seg))
                }
            },
        }
    }
}

/// The segments of the first `k` program headers, or the first error.
pub open spec fn loader_scan(s: Seq<u8>, phoff: int, phentsize: int, k: nat) -> Result<
    Seq<Segment>,
    ElfError,
>
    decreases k,
{
    if k == 0 {
        Ok(Seq::empty())
    } else {
        match loader_scan(s, phoff, phentsize, (k - 1) as nat) {
            Err(e) => Err(e),
            Ok(segs) => loader_header(s, phoff, phentsize, k - 1, segs),
        }
    }
}

/// The lowest address of `segs` (the largest `u64` when there is none).
pub open spec fn min_address(segs: Seq<Segment>) -> u64
    decreases segs.len(),
{
    if segs.len() == 0 {
        u64::MAX
    } else {
        let rest = min_address(segs.drop_last());
        if segs.last().address < rest {
            segs.last().address
        } else {
            rest
        }
    }
}

/// The highest end of `segs` (zero when there is none).
pub open spec fn max_end(segs: Seq<Segment>) -> u64
    decreases segs.len(),
{
    if segs.len() == 0 {
        0
    } else {
        let rest = max_end(segs.drop_last());
        let end = (segs.last().address + segs.last().memory_size) as u64;
        if end > rest {
            end
        } else {
            rest
        }
    }
}

/// Every segment occupies memory and its end fits in 64 bits.
pub open spec fn ends_fit(segs: Seq<Segment>) -> bool {
    forall|i: int|
        0 <= i < segs.len() ==> #[trigger] segs[i].address + segs[i].memory_size <= u64::MAX
            && segs[i].memory_size > 0
}

/// The start of the page holding `a`.
pub open spec fn floor_page(a: int) -> int {
    a - a % LOADER_PAGE_SIZE as int
}

/// What planning the load of `s` gives: the segments, the lowest address,
/// the highest end, the first page and the page count.
pub open spec fn load_plan_result(s: Seq<u8>) -> Result<(Seq<Segment>, u64, u64, u64, int), ElfError> {
    if 40 > s.len() {
        Err(ElfError::InvalidSegment)
    } else if le64(s, 32) > usize::MAX {
        Err(ElfError::Overflow)
    } else if 56 > s.len() || 58 > s.len() {
        Err(ElfError::InvalidSegment)
    } else {
        match loader_scan(s, le64(s, 32) as int, le16(s, 54) as int, le16(s, 56) as nat) {
            Err(e) => Err(e),
            Ok(segs) => {
                let lowest = min_address(segs);
                let highest = max_end(segs);
                if lowest == u64::MAX {
                    Err(ElfError::NoLoadSegments)
                } else if highest + (LOADER_PAGE_SIZE - 1) > u64::MAX {
                    Err(ElfError::Overflow)
                } else {
                    let page_start = floor_page(lowest as int);
                    let page_end = floor_page(highest + (LOADER_PAGE_SIZE - 1));
                    let pages = (page_end - page_start) / LOADER_PAGE_SIZE as int;
                    if pages > usize::MAX {
                        Err(ElfError::Overflow)
                    } else {
                        Ok((segs, lowest, highest, page_start as u64, pages))
                    }
                }
            },
        }
    }
}

fn read_u16_at(data: &[u8], offset: usize) -> (result: Result<u16, ElfError>)
    ensures
        match read_error(data@, offset as int, 2) {
            Some(e) => result == Err::<u16, ElfError>(e),
            None => result == Ok::<u16, ElfError>(le16(data@, offset as int)),
        },
{
    let end = match offset.checked_add(2) {
        Some(end) => end,
        None => return Err(ElfError::Overflow),
    };
    if end > data.len() {
        return Err(ElfError::InvalidSegment);
    }
    Ok((data[offset] as u16) | ((data[offset + 1] as u16) << 8u16))
}

fn read_u32_at(data: &[u8], offset: usize) -> (result: Result<u32, ElfError>)
    ensures
        match read_error(data@, offset as int, 4) {
            Some(e) => result == Err::<u32, ElfError>(e),
            None => result == Ok::<u32, ElfError>(le32(data@, offset as int)),
        },
{
    let end = match offset.checked_add(4) {
        Some(end) => end,
        None => return Err(ElfError::Overflow),
    };
    if end > data.len() {
        return Err(ElfError::InvalidSegment);
    }
    Ok((data[offset] as u32) | ((data[offset + 1] as u32) << 8u32) | ((data[offset + 2] as u32)
        << 16u32) | ((data[offset + 3] as u32) << 24u32))
}

fn read_u64_at(data: &[u8], offset: usize) -> (result: Result<u64, ElfError>)
    ensures
        match read_error(data@, offset as int, 8) {
            Some(e) => result == Err::<u64, ElfError>(e),
            None => result == Ok::<u64, ElfError>(le64(data@, offset as int)),
        },
{
    let end = match offset.checked_add(8) {
        Some(end) => end,
        None => return Err(ElfError::Overflow),
    };
    if end > data.len() {
        return Err(ElfError::InvalidSegment);
    }
    Ok((data[offset] as u64) | ((data[offset + 1] as u64) << 8u64) | ((data[offset + 2] as u64)
        << 16u64) | ((data[offset + 3] as u64) << 24u64) | ((data[offset + 4] as u64) << 32u64)
        | ((data[offset + 5] as u64) << 40u64) | ((data[offset + 6] as u64) << 48u64) | ((
    data[offset + 7] as u64) << 56u64))
}

/// A segment accepted by the scan ends within 64 bits.
proof fn lemma_scan_ends_fit(s: Seq<u8>, phoff: int, phentsize: int, k: nat)
    ensures
        loader_scan(s, phoff, phentsize, k) matches Ok(segs) ==> ends_fit(segs)
            && segs.len() <= MAX_LOADER_SEGMENTS,
    decreases k,
{
    if k > 0 {
        lemma_scan_ends_fit(s, phoff, phentsize, (k - 1) as nat);
    }
}

/// With segments present, the lowest address is below the largest `u64`
/// and no greater than the highest end.
proof fn lemma_bounds(segs: Seq<Segment>)
    requires
        ends_fit(segs),
    ensures
        segs.len() > 0 ==> min_address(segs) < u64::MAX && min_address(segs) < max_end(segs),
        segs.len() == 0 ==> min_address(segs) == u64::MAX,
    decreases segs.len(),
{
    if segs.len() > 0 {
        let rest = segs.drop_last();
        assert(forall|i: int| 0 <= i < rest.len() ==> rest[i] == segs[i]);
        lemma_bounds(rest);
        assert(segs[segs.len() - 1] == segs.last());
    }
}

/// A scan of the file's program-header table keeps one segment per
/// loadable header.
proof fn lemma_loader_scan_count(s: Seq<u8>, k: nat)
    ensures
        loader_scan(s, le64(s, 32) as int, le16(s, 54) as int, k) matches Ok(segs) ==> segs.len()
            == load_header_count(s, k as int),
    decreases k,
{
    if k > 0 {
        lemma_loader_scan_count(s, (k - 1) as nat);
        assert(program_header_offset(s, k - 1) == le64(s, 32) as int + (k - 1) * le16(s, 54) as int);
    }
}

/// When every header among the first `k` lies inside the file and every
/// loadable one has a non-empty memory image no smaller than its file image
/// whose end fits in 64 bits, and there are few enough of them, the scan
/// succeeds.
proof fn lemma_loader_scan_succeeds(s: Seq<u8>, k: nat)
    requires
        s.len() + 64 <= usize::MAX,
        forall|j: int|
            #![trigger program_header_offset(s, j)]
            0 <= j < k ==> 0 <= program_header_offset(s, j) && program_header_offset(s, j) + 48
                <= s.len(),
        forall|j: int|
            #![trigger program_header_offset(s, j)]
            0 <= j < k && le32(s, program_header_offset(s, j)) == PT_LOAD ==> le64(
                s,
                program_header_offset(s, j) + 40,
            ) > 0 && le64(s, program_header_offset(s, j) + 32) <= le64(
                s,
                program_header_offset(s, j) + 40,
            ) && le64(s, program_header_offset(s, j) + 24) + le64(s, program_header_offset(s, j) + 40)
                <= u64::MAX,
        load_header_count(s, k as int) <= MAX_LOADER_SEGMENTS,
    ensures
        loader_scan(s, le64(s, 32) as int, le16(s, 54) as int, k) is Ok,
    decreases k,
{
    if k > 0 {
        lemma_loader_scan_succeeds(s, (k - 1) as nat);
        lemma_loader_scan_count(s, (k - 1) as nat);
        let phoff = le64(s, 32) as int;
        let phentsize = le16(s, 54) as int;
        let index = k - 1;
        assert(program_header_offset(s, index) == phoff + index * phentsize);
        assert(0 <= program_header_offset(s, index));
        assert(index * phentsize >= 0) by (nonlinear_arith)
            requires
                index >= 0,
                phentsize >= 0,
        ;
    }
}

/// Every segment a scan accepts copies no more bytes than it occupies.
proof fn lemma_scan_file_sizes(s: Seq<u8>, phoff: int, phentsize: int, k: nat)
    ensures
        loader_scan(s, phoff, phentsize, k) matches Ok(segs) ==> forall|i: int|
            0 <= i < segs.len() ==> #[trigger] segs[i].file_size <= segs[i].memory_size,
    decreases k,
{
    if k > 0 {
        lemma_scan_file_sizes(s, phoff, phentsize, (k - 1) as nat);
        if let Ok(prev) = loader_scan(s, phoff, phentsize, (k - 1) as nat) {
            if let Ok(segs) = loader_scan(s, phoff, phentsize, k) {
                assert forall|i: int| 0 <= i < segs.len() implies #[trigger] segs[i].file_size
                    <= segs[i].memory_size by {
                    if i < prev.len() {
                        assert(segs[i] == prev[i]);
                    }
                }
            }
        }
    }
}

/// Every segment lies between the lowest address and the highest end.
proof fn lemma_segments_within(segs: Seq<Segment>)
    requires
        ends_fit(segs),
    ensures
        forall|i: int|
            0 <= i < segs.len() ==> min_address(segs) <= #[trigger] segs[i].address && segs[i].address
                + segs[i].memory_size <= max_end(segs),
    decreases segs.len(),
{
    if segs.len() > 0 {
        let rest = segs.drop_last();
        assert(forall|i: int| 0 <= i < rest.len() ==> rest[i] == segs[i]);
        lemma_segments_within(rest);
        assert(segs[segs.len() - 1] == segs.last());
    }
}

/// The segment the loadable program header at byte `off` describes.
pub open spec fn header_load_segment(s: Seq<u8>, off: int) -> Segment {
    Segment {
        address: le64(s, off + 24),
        file_size: le64(s, off + 32),
        file_offset: le64(s, off + 8),
        memory_size: le64(s, off + 40),
    }
}

/// `seg` is the segment of a loadable program header among the first `k`.
pub open spec fn from_load_header(s: Seq<u8>, phoff: int, phentsize: int, k: int, seg: Segment) -> bool {
    exists|j: int|
        0 <= j < k && le32(s, #[trigger] ph_at(phoff, phentsize, j)) == PT_LOAD && seg
            == header_load_segment(s, ph_at(phoff, phentsize, j))
}

/// The segments of a successful scan are exactly those of the loadable
/// program headers scanned: each comes from one, and each one is there.
proof fn lemma_loader_scan_headers(s: Seq<u8>, phoff: int, phentsize: int, k: nat)
    ensures
        loader_scan(s, phoff, phentsize, k) matches Ok(segs) ==> {
            &&& forall|i: int|
                #![trigger segs[i]]
                0 <= i < segs.len() ==> from_load_header(s, phoff, phentsize, k as int, segs[i])
            &&& forall|j: int|
                #![trigger ph_at(phoff, phentsize, j)]
                0 <= j < k && le32(s, ph_at(phoff, phentsize, j)) == PT_LOAD ==> segs.contains(
                    header_load_segment(s, ph_at(phoff, phentsize, j)),
                )
        },
    decreases k,
{
    if k > 0 {
        lemma_loader_scan_headers(s, phoff, phentsize, (k - 1) as nat);
        if let Ok(prev) = loader_scan(s, phoff, phentsize, (k - 1) as nat) {
            let index = k - 1;
            let off = phoff + index * phentsize;
            assert(off == ph_at(phoff, phentsize, index));
            assert forall|i: int| #![trigger prev[i]] 0 <= i < prev.len() implies from_load_header(
                s,
                phoff,
                phentsize,
                k as int,
                prev[i],
            ) by {
                assert(from_load_header(s, phoff, phentsize, k - 1, prev[i]));
                let j = choose|j: int|
                    0 <= j < k - 1 && le32(s, #[trigger] ph_at(phoff, phentsize, j)) == PT_LOAD
                        && prev[i] == header_load_segment(s, ph_at(phoff, phentsize, j));
                assert(le32(s, ph_at(phoff, phentsize, j)) == PT_LOAD);
            }
            if let Ok(segs) = loader_scan(s, phoff, phentsize, k) {
                if le32(s, off) == PT_LOAD {
                    let seg = header_load_segment(s, off);
                    assert(segs == prev.push(seg));
                    assert(segs[prev.len() as int] == seg);
                    assert(le32(s, ph_at(phoff, phentsize, index)) == PT_LOAD);
                    assert(from_load_header(s, phoff, phentsize, k as int, seg));
                    assert forall|i: int| #![trigger segs[i]] 0 <= i < segs.len() implies from_load_header(
                        s,
                        phoff,
                        phentsize,
                        k as int,
                        segs[i],
                    ) by {
                        if i < prev.len() {
                            assert(segs[i] == prev[i]);
                        }
                    }
                    assert forall|j: int|
                        #![trigger ph_at(phoff, phentsize, j)]
                        0 <= j < k && le32(s, ph_at(phoff, phentsize, j)) == PT_LOAD implies segs.contains(
                            header_load_segment(s, ph_at(phoff, phentsize, j)),
                        ) by {
                        if j < k - 1 {
                            let x = header_load_segment(s, ph_at(phoff, phentsize, j));
                            assert(prev.contains(x));
                            let w = choose|w: int| 0 <= w < prev.len() && prev[w] == x;
                            assert(segs[w] == x);
                        }
                    }
                } else {
                    assert(segs == prev);
                    assert forall|j: int|
                        #![trigger ph_at(phoff, phentsize, j)]
                        0 <= j < k && le32(s, ph_at(phoff, phentsize, j)) == PT_LOAD implies segs.contains(
                            header_load_segment(s, ph_at(phoff, phentsize, j)),
                        ) by {
                        assert(j != k - 1);
                    }
                }
            }
        }
    }
}

/// The lowest address and the highest end are those of some segment.
proof fn lemma_extremes_attained(segs: Seq<Segment>)
    requires
        segs.len() > 0,
        ends_fit(segs),
    ensures
        exists|i: int| 0 <= i < segs.len() && min_address(segs) == #[trigger] segs[i].address,
        exists|i: int|
            0 <= i < segs.len() && max_end(segs) == #[trigger] segs[i].address + segs[i].memory_size,
    decreases segs.len(),
{
    let rest = segs.drop_last();
    assert(forall|i: int| 0 <= i < rest.len() ==> rest[i] == segs[i]);
    assert(segs[segs.len() - 1] == segs.last());
    let n = segs.len() - 1;
    assert(segs[n].address + segs[n].memory_size <= u64::MAX && segs[n].memory_size > 0);
    if segs.len() > 1 {
        lemma_extremes_attained(rest);
        let w = choose|i: int| 0 <= i < rest.len() && min_address(rest) == #[trigger] rest[i].address;
        assert(segs[w] == rest[w]);
        let w2 = choose|i: int|
            0 <= i < rest.len() && max_end(rest) == #[trigger] rest[i].address + rest[i].memory_size;
        assert(segs[w2] == rest[w2]);
        if segs[n].address < min_address(rest) {
            assert(min_address(segs) == segs[n].address);
        } else {
            assert(min_address(segs) == segs[w].address);
        }
        if segs[n].address + segs[n].memory_size > max_end(rest) {
            assert(max_end(segs) == segs[n].address + segs[n].memory_size);
        } else {
            assert(max_end(segs) == segs[w2].address + segs[w2].memory_size);
        }
    } else {
        assert(min_address(rest) == u64::MAX);
        assert(max_end(rest) == 0);
        assert(min_address(segs) == segs[0].address);
        assert(max_end(segs) == segs[0].address + segs[0].memory_size);
    }
}

/// `seg` is the segment some loadable program header of the file `s`
/// describes.
pub open spec fn segment_of_load_header(s: Seq<u8>, seg: Segment) -> bool {
    exists|j: int|
        0 <= j < le16(s, 56) && le32(s, #[trigger] program_header_offset(s, j)) == PT_LOAD && seg
            == header_load_segment(s, program_header_offset(s, j))
}

/// The segments of a successful scan of the whole program-header table,
/// named by the file's header offsets.
proof fn lemma_file_segments(s: Seq<u8>, segs: Seq<Segment>)
    requires
        loader_scan(s, le64(s, 32) as int, le16(s, 54) as int, le16(s, 56) as nat) == Ok::<
            Seq<Segment>,
            ElfError,
        >(segs),
    ensures
        forall|i: int|
            #![trigger segs[i]]
            0 <= i < segs.len() ==> segment_of_load_header(s, segs[i]),
        forall|j: int|
            #![trigger program_header_offset(s, j)]
            0 <= j < le16(s, 56) && le32(s, program_header_offset(s, j)) == PT_LOAD ==> segs.contains(
                header_load_segment(s, program_header_offset(s, j)),
            ),
{
    let phoff = le64(s, 32) as int;
    let phentsize = le16(s, 54) as int;
    let k = le16(s, 56) as nat;
    lemma_loader_scan_headers(s, phoff, phentsize, k);
    assert(loader_scan(s, phoff, phentsize, k) is Ok);
    assert(loader_scan(s, phoff, phentsize, k)->Ok_0 == segs);
    assert forall|i: int| #![trigger segs[i]] 0 <= i < segs.len() implies segment_of_load_header(s, segs[i]) by {
        assert(from_load_header(s, phoff, phentsize, k as int, segs[i]));
        let j = choose|j: int|
            0 <= j < k && le32(s, #[trigger] ph_at(phoff, phentsize, j)) == PT_LOAD && segs[i]
                == header_load_segment(s, ph_at(phoff, phentsize, j));
        assert(program_header_offset(s, j) == ph_at(phoff, phentsize, j));
    }
    assert forall|j: int|
        #![trigger program_header_offset(s, j)]
        0 <= j < le16(s, 56) && le32(s, program_header_offset(s, j)) == PT_LOAD implies segs.contains(
            header_load_segment(s, program_header_offset(s, j)),
        ) by {
        assert(program_header_offset(s, j) == ph_at(phoff, phentsize, j));
    }
}

/// A load plan holds exactly the segments of the file's loadable program
/// headers: each segment is the one a loadable header describes, and each
/// loadable header's segment is in the plan. Each has a non-empty memory
/// image no smaller than its file image; the lowest address and highest end
/// are those of some segment and bound all of them.
pub proof fn lemma_load_plan_segments(s: Seq<u8>)
    ensures
        load_plan_result(s) matches Ok((segs, lowest, highest, page_start, pages)) ==> {
            &&& forall|i: int|
                #![trigger segs[i]]
                0 <= i < segs.len() ==> segment_of_load_header(s, segs[i])
            &&& forall|j: int|
                #![trigger program_header_offset(s, j)]
                0 <= j < le16(s, 56) && le32(s, program_header_offset(s, j)) == PT_LOAD
                    ==> segs.contains(header_load_segment(s, program_header_offset(s, j)))
            &&& forall|i: int|
                0 <= i < segs.len() ==> #[trigger] segs[i].memory_size > 0 && segs[i].file_size
                    <= segs[i].memory_size && lowest <= segs[i].address && segs[i].address
                    + segs[i].memory_size <= highest
            &&& segs.len() == load_header_count(s, le16(s, 56) as int)
            &&& exists|i: int| 0 <= i < segs.len() && lowest == #[trigger] segs[i].address
            &&& exists|i: int|
                0 <= i < segs.len() && highest == #[trigger] segs[i].address + segs[i].memory_size
        },
{
    if load_plan_result(s) is Ok {
        let phoff = le64(s, 32) as int;
        let phentsize = le16(s, 54) as int;
        let k = le16(s, 56) as nat;
        lemma_scan_ends_fit(s, phoff, phentsize, k);
        lemma_scan_file_sizes(s, phoff, phentsize, k);
        lemma_loader_scan_count(s, k);
        let segs = loader_scan(s, phoff, phentsize, k)->Ok_0;
        lemma_file_segments(s, segs);
        let r = load_plan_result(s)->Ok_0;
        assert(r.0 == segs && r.1 == min_address(segs) && r.2 == max_end(segs));
        lemma_bounds(segs);
        lemma_segments_within(segs);
        lemma_extremes_attained(segs);
        let w = choose|i: int| 0 <= i < segs.len() && min_address(segs) == #[trigger] segs[i].address;
        let w2 = choose|i: int|
            0 <= i < segs.len() && max_end(segs) == #[trigger] segs[i].address + segs[i].memory_size;
        assert(r.1 == segs[w].address);
        assert(r.2 == segs[w2].address + segs[w2].memory_size);
        assert forall|i: int| 0 <= i < segs.len() implies #[trigger] segs[i].memory_size > 0
            && segs[i].file_size <= segs[i].memory_size && r.1 <= segs[i].address
            && segs[i].address + segs[i].memory_size <= r.2 by {
            assert(min_address(segs) <= segs[i].address);
            assert(segs[i].address + segs[i].memory_size <= max_end(segs));
            assert(segs[i].memory_size > 0);
            assert(segs[i].file_size <= segs[i].memory_size);
        }
    }
}

/// A kernel image whose program-header table lies inside the file, with
/// one to `MAX_LOADER_SEGMENTS` loadable headers that each have a non-empty
/// memory image no smaller than their file image and end, rounded up to a
/// page, within the address range, is given a load plan.
pub proof fn lemma_well_formed_kernel_planned(s: Seq<u8>)
    requires
        58 <= s.len(),
        s.len() + 64 <= usize::MAX,
        forall|j: int|
            #![trigger program_header_offset(s, j)]
            0 <= j < le16(s, 56) ==> 0 <= program_header_offset(s, j) && program_header_offset(s, j)
                + 48 <= s.len(),
        forall|j: int|
            #![trigger program_header_offset(s, j)]
            0 <= j < le16(s, 56) && le32(s, program_header_offset(s, j)) == PT_LOAD ==> le64(
                s,
                program_header_offset(s, j) + 40,
            ) > 0 && le64(s, program_header_offset(s, j) + 32) <= le64(
                s,
                program_header_offset(s, j) + 40,
            ) && le64(s, program_header_offset(s, j) + 24) + le64(s, program_header_offset(s, j) + 40)
                + (LOADER_PAGE_SIZE - 1) <= usize::MAX,
        1 <= load_header_count(s, le16(s, 56) as int) <= MAX_LOADER_SEGMENTS,
    ensures
        load_plan_result(s) is Ok,
{
    let phoff = le64(s, 32) as int;
    let phentsize = le16(s, 54) as int;
    let k = le16(s, 56) as nat;
    lemma_count_positive_has_header(s, k as int);
    assert(program_header_offset(s, 0) == phoff);
    assert(le64(s, 32) <= usize::MAX);
    lemma_loader_scan_succeeds(s, k);
    lemma_loader_scan_count(s, k);
    lemma_scan_ends_fit(s, phoff, phentsize, k);
    let segs = loader_scan(s, phoff, phentsize, k)->Ok_0;
    lemma_file_segments(s, segs);
    lemma_bounds(segs);
    lemma_extremes_attained(segs);
    let w2 = choose|i: int|
        0 <= i < segs.len() && max_end(segs) == #[trigger] segs[i].address + segs[i].memory_size;
    assert(segment_of_load_header(s, segs[w2]));
    let j = choose|j: int|
        0 <= j < le16(s, 56) && le32(s, #[trigger] program_header_offset(s, j)) == PT_LOAD && segs[w2]
            == header_load_segment(s, program_header_offset(s, j));
    let lowest = min_address(segs);
    let highest = max_end(segs);
    assert(highest + (LOADER_PAGE_SIZE - 1) <= usize::MAX);
    lemma_page_multiples(lowest as int, highest + 4095, 4096);
    let page_start = floor_page(lowest as int);
    let page_end = floor_page(highest + (LOADER_PAGE_SIZE - 1));
    let pages = (page_end - page_start) / LOADER_PAGE_SIZE as int;
    assert(pages * 4096 == page_end - page_start);
    assert(pages <= usize::MAX) by (nonlinear_arith)
        requires
            pages * 4096 == page_end - page_start,
            0 <= page_start,
            page_end <= usize::MAX,
    ;
}

/// A positive count of loadable headers among the first `n` means there is
/// at least one header.
proof fn lemma_count_positive_has_header(s: Seq<u8>, n: int)
    requires
        load_header_count(s, n) >= 1,
    ensures
        n >= 1,
    decreases n,
{
}

/// Page-size multiples rounded down from `x` and `y`, and the pages between them.
proof fn lemma_page_multiples(x: int, y: int, d: int)
    requires
        0 <= x,
        0 <= y,
        0 < d,
    ensures
        x - x % d == d * (x / d),
        0 <= x % d < d,
        (x - x % d) % d == 0,
        ((y - y % d) - (x - x % d)) / d * d == (y - y % d) - (x - x % d),
{
    vstd::arithmetic::div_mod::lemma_fundamental_div_mod(x, d);
    vstd::arithmetic::div_mod::lemma_fundamental_div_mod(y, d);
    vstd::arithmetic::div_mod::lemma_mod_multiples_basic(x / d, d);
    assert(d * (x / d) == (x / d) * d) by (nonlinear_arith);
    assert(d * (y / d) - d * (x / d) == d * (y / d - x / d)) by (nonlinear_arith);
    vstd::arithmetic::div_mod::lemma_div_multiples_vanish(y / d - x / d, d);
    assert((y / d - x / d) * d == d * (y / d - x / d)) by (nonlinear_arith);
}

/// A load plan allocates whole pages: the first is the page holding the
/// lowest segment address, the allocation reaches the highest segment end,
/// and no page fewer would; every segment lies inside it.
pub proof fn lemma_load_plan_covers(s: Seq<u8>)
    ensures
        load_plan_result(s) matches Ok((segs, lowest, highest, page_start, pages)) ==> {
            &&& segs.len() > 0
            &&& page_start % 4096 == 0
            &&& page_start <= lowest < page_start + 4096
            &&& lowest < highest
            &&& pages >= 1
            &&& highest <= page_start + pages * 4096
            &&& page_start + (pages - 1) * 4096 < highest
            &&& forall|i: int|
                0 <= i < segs.len() ==> page_start <= #[trigger] segs[i].address && segs[i].address
                    + segs[i].memory_size <= page_start + pages * 4096
        },
{
    if 40 <= s.len() && le64(s, 32) <= usize::MAX && 58 <= s.len() {
        let phoff = le64(s, 32) as int;
        let phentsize = le16(s, 54) as int;
        let k = le16(s, 56) as nat;
        lemma_scan_ends_fit(s, phoff, phentsize, k);
        if let Ok(segs) = loader_scan(s, phoff, phentsize, k) {
            lemma_bounds(segs);
            lemma_segments_within(segs);
            let lowest = min_address(segs);
            let highest = max_end(segs);
            if lowest != u64::MAX && highest + 4095 <= u64::MAX {
                lemma_page_multiples(lowest as int, highest + 4095, 4096);
                assert(segs.len() > 0);
            }
        }
    }
}

/// An error in the first `k` headers is the error of any longer scan.
proof fn lemma_scan_error_persists(s: Seq<u8>, phoff: int, phentsize: int, k: nat, k2: nat)
    requires
        k <= k2,
        loader_scan(s, phoff, phentsize, k) is Err,
    ensures
        loader_scan(s, phoff, phentsize, k2) == loader_scan(s, phoff, phentsize, k),
    decreases k2 - k,
{
    if k < k2 {
        lemma_scan_error_persists(s, phoff, phentsize, k, (k2 - 1) as nat);
    }
}

/// Reads program header `index`: `None` for a header that loads nothing.
fn read_header(kernel: &[u8], phoff: usize, phentsize: usize, index: usize, count: usize) -> (result:
    Result<Option<Segment>, ElfError>)
    requires
        kernel@.len() + 64 <= usize::MAX,
    ensures
        forall|segs: Seq<Segment>|
            segs.len() == count ==> match #[trigger] loader_header(
                kernel@,
                phoff as int,
                phentsize as int,
                index as int,
                segs,
            ) {
                Err(e) => result == Err::<Option<Segment>, ElfError>(e),
                Ok(next) => (result == Ok::<Option<Segment>, ElfError>(None) && next == segs) || (
                result matches Ok(Some(seg)) && next == segs.push(seg)),
            },
{
    let step = match index.checked_mul(phentsize) {
        Some(v) => v,
        None => return Err(ElfError::Overflow),
    };
    let offset = match phoff.checked_add(step) {
        Some(v) => v,
        None => return Err(ElfError::Overflow),
    };
    let kind = match read_u32_at(kernel, offset) {
        Ok(v) => v,
        Err(e) => return Err(e),
    };
    if kind != PT_LOAD {
        return Ok(None);
    }
    let address = match read_u64_at(kernel, offset + 24) {
        Ok(v) => v,
        Err(e) => return Err(e),
    };
    let memory_size = match read_u64_at(kernel, offset + 40) {
        Ok(v) => v,
        Err(e) => return Err(e),
    };
    let file_size = match read_u64_at(kernel, offset + 32) {
        Ok(v) => v,
        Err(e) => return Err(e),
    };
    let file_offset = match read_u64_at(kernel, offset + 8) {
        Ok(v) => v,
        Err(e) => return Err(e),
    };
    if memory_size == 0 || file_size > memory_size {
        return Err(ElfError::InvalidSegment);
    }
    if address.checked_add(memory_size).is_none() {
        return Err(ElfError::Overflow);
    }
    if count == MAX_LOADER_SEGMENTS {
        return Err(ElfError::Overflow);
    }
    Ok(Some(Segment { address, file_size, file_offset, memory_size }))
}

/// Plans loading the kernel image `kernel`: it reads the program headers,
/// keeps the loadable segments in header order, and computes the page-aligned
/// range they occupy.
pub fn plan_load_segments(kernel: &[u8]) -> (result: Result<LoadPlan, ElfError>)
    requires
        kernel@.len() + 64 <= usize::MAX,
    ensures
        match load_plan_result(kernel@) {
            Err(e) => result == Err::<LoadPlan, ElfError>(e),
            Ok((segs, lowest, highest, page_start, pages)) => result matches Ok(plan) && plan.segments@
                == segs && plan.lowest == lowest && plan.highest == highest && plan.page_start
                == page_start && plan.pages == pages,
        },
        result matches Ok(plan) ==> {
            &&& plan.page_start % 4096 == 0
            &&& plan.page_start <= plan.lowest < plan.page_start + 4096
            &&& plan.lowest < plan.highest
            &&& plan.pages >= 1
            &&& plan.highest <= plan.page_start + plan.pages * 4096
            &&& plan.page_start + (plan.pages - 1) * 4096 < plan.highest
            &&& forall|i: int|
                0 <= i < plan.segments@.len() ==> plan.page_start <= #[trigger] plan.segments@[i].address
                    && plan.segments@[i].address + plan.segments@[i].memory_size <= plan.page_start
                    + plan.pages * 4096
        },
{
    proof {
        lemma_load_plan_covers(kernel@);
    }
    let phoff64 = match read_u64_at(kernel, 32) {
        Ok(v) => v,
        Err(e) => return Err(e),
    };
    if phoff64 > usize::MAX as u64 {
        return Err(ElfError::Overflow);
    }
    let phoff = phoff64 as usize;
    let phentsize = match read_u16_at(kernel, 54) {
        Ok(v) => v as usize,
        Err(e) => return Err(e),
    };
    let phnum = match read_u16_at(kernel, 56) {
        Ok(v) => v as usize,
        Err(e) => return Err(e),
    };
    let ghost s = kernel@;
    let mut segments: Vec<Segment> = Vec::new();
    let mut lowest: u64 = u64::MAX;
    let mut highest: u64 = 0;
    let mut index: usize = 0;
    while index < phnum
        invariant
            s == kernel@,
            kernel@.len() + 64 <= usize::MAX,
            58 <= s.len(),
            le64(s, 32) <= usize::MAX,
            phoff == le64(s, 32),
            phentsize == le16(s, 54),
            phnum == le16(s, 56),
            index <= phnum,
            loader_scan(s, phoff as int, phentsize as int, index as nat) == Ok::<
                Seq<Segment>,
                ElfError,
            >(segments@),
            lowest == min_address(segments@),
            highest == max_end(segments@),
            ends_fit(segments@),
            segments@.len() <= MAX_LOADER_SEGMENTS,
        decreases phnum - index,
    {
        proof {
            lemma_scan_ends_fit(s, phoff as int, phentsize as int, (index + 1) as nat);
        }
        let found = read_header(kernel, phoff, phentsize, index, segments.len());
        let ghost next = loader_header(s, phoff as int, phentsize as int, index as int, segments@);
        assert(loader_scan(s, phoff as int, phentsize as int, (index + 1) as nat) == next);
        let found = match found {
            Ok(found) => found,
            Err(e) => {
                proof {
                    lemma_scan_error_persists(s, phoff as int, phentsize as int, (index + 1) as nat, phnum as nat);
                }
                return Err(e);
            },
        };
        let seg = match found {
            None => {
                index += 1;
                continue;
            },
            Some(seg) => seg,
        };
        assert(next->Ok_0[next->Ok_0.len() - 1] == seg);
        let address = seg.address;
        let end = seg.address + seg.memory_size;
        let ghost before = segments@;
        segments.push(seg);
        assert(segments@.drop_last() =~= before);
        if address < lowest {
            lowest = address;
        }
        if end > highest {
            highest = end;
        }
        index += 1;
    }
    proof {
        lemma_scan_ends_fit(s, phoff as int, phentsize as int, phnum as nat);
    }
    if lowest == u64::MAX {
        return Err(ElfError::NoLoadSegments);
    }
    let page_start = lowest - lowest % LOADER_PAGE_SIZE;
    let rounded = match highest.checked_add(LOADER_PAGE_SIZE - 1) {
        Some(v) => v,
        None => return Err(ElfError::Overflow),
    };
    let page_end = rounded - rounded % LOADER_PAGE_SIZE;
    proof {
        lemma_bounds(segments@);
    }
    let page_count = (page_end - page_start) / LOADER_PAGE_SIZE;
    if page_count > usize::MAX as u64 {
        return Err(ElfError::Overflow);
    }
    Ok(LoadPlan { segments, lowest, highest, page_start, pages: page_count as usize })
}

/// The file bytes a segment copies, or why they are out of reach.
pub open spec fn source_range_result(seg: Segment, len: int) -> Result<(usize, usize), ElfError> {
    if seg.file_offset + seg.file_size > u64::MAX || seg.file_offset + seg.file_size > usize::MAX {
        Err(ElfError::Overflow)
    } else if seg.file_offset + seg.file_size > len {
        Err(ElfError::InvalidSegment)
    } else {
        Ok((seg.file_offset as usize, (seg.file_offset + seg.file_size) as usize))
    }
}

/// The range `[start, end)` of the file that `segment` copies.
pub fn segment_source_range(segment: Segment, file_len: usize) -> (result: Result<
    (usize, usize),
    ElfError,
>)
    ensures
        result == source_range_result(segment, file_len as int),
{
    let end = match segment.file_offset.checked_add(segment.file_size) {
        Some(v) => v,
        None => return Err(ElfError::Overflow),
    };
    if end > usize::MAX as u64 {
        return Err(ElfError::Overflow);
    }
    let end = end as usize;
    if end > file_len {
        return Err(ElfError::InvalidSegment);
    }
    Ok((segment.file_offset as usize, end))
}

/// The firmware's current graphics mode as the kernel will see it, when it
/// is usable: 32-bit RGB or BGR pixels, a non-null buffer, a non-empty
/// resolution and rows large enough for the buffer to hold.
pub open spec fn framebuffer_result(
    address: u64,
    byte_len: u64,
    width: usize,
    height: usize,
    stride: usize,
    format: PixelFormat,
) -> Option<FramebufferInfo> {
    if format.0 > 1 || width > u32::MAX || height > u32::MAX || stride > u32::MAX {
        None
    } else if stride * height * 4 > u64::MAX {
        None
    } else if address == 0 || width == 0 || height == 0 || stride < width || stride * height * 4
        > byte_len {
        None
    } else {
        Some(
            FramebufferInfo {
                address,
                byte_len,
                width: width as u32,
                height: height as u32,
                stride: stride as u32,
                pixel_format: format,
            },
        )
    }
}

/// Checks the firmware's graphics mode and describes its framebuffer.
pub fn checked_framebuffer(
    address: u64,
    byte_len: u64,
    width: usize,
    height: usize,
    stride: usize,
    format: PixelFormat,
) -> (result: Option<FramebufferInfo>)
    ensures
        result == framebuffer_result(address, byte_len, width, height, stride, format),
{
    if format.0 > 1 {
        return None;
    }
    if width > u32::MAX as usize || height > u32::MAX as usize || stride > u32::MAX as usize {
        return None;
    }
    let width = width as u32;
    let height = height as u32;
    let stride = stride as u32;
    let rows = match (stride as u64).checked_mul(height as u64) {
        Some(v) => v,
        None => return None,
    };
    let needed = match rows.checked_mul(4) {
        Some(v) => v,
        None => return None,
    };
    if address == 0 || width == 0 || height == 0 || stride < width || needed > byte_len {
        return None;
    }
    Some(FramebufferInfo { address, byte_len, width, height, stride, pixel_format: format })
}

/// Whether the ELF entry point lies inside the loaded range (whose end
/// saturates at the top of the address space).
pub fn entry_in_loaded_range(entry: u64, loaded: PhysicalRange) -> (inside: bool)
    ensures
        inside == (loaded.start <= entry && entry < (if loaded.start + loaded.byte_len > u64::MAX {
            u64::MAX as int
        } else {
            loaded.start + loaded.byte_len
        })),
{
    !(entry < loaded.start || entry >= loaded.start.saturating_add(loaded.byte_len))
}

} // verus!
