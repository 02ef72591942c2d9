use lib::elf::{validate_elf, ElfError, PF_X, PT_LOAD};

fn fixture() -> Vec<u8> {
    let mut e = vec![0; 64 + 56];
    e[0..4].copy_from_slice(b"\x7fELF");
    e[4] = 2;
    e[5] = 1;
    e[6] = 1;
    e[16..18].copy_from_slice(&2u16.to_le_bytes());
    e[18..20].copy_from_slice(&62u16.to_le_bytes());
    e[24..32].copy_from_slice(&0x1000u64.to_le_bytes());
    e[32..40].copy_from_slice(&64u64.to_le_bytes());
    e[54..56].copy_from_slice(&56u16.to_le_bytes());
    e[56..58].copy_from_slice(&1u16.to_le_bytes());
    e[64..68].copy_from_slice(&1u32.to_le_bytes());
    e[68..72].copy_from_slice(&1u32.to_le_bytes());
    e[72..80].copy_from_slice(&120u64.to_le_bytes());
    e[88..96].copy_from_slice(&0x1000u64.to_le_bytes());
    e[96..104].copy_from_slice(&4u64.to_le_bytes());
    e[104..112].copy_from_slice(&8u64.to_le_bytes());
    e[112..120].copy_from_slice(&1u64.to_le_bytes());
    e.extend_from_slice(&[0xde, 0xad, 0xbe, 0xef]);
    e
}

fn add_second_segment(e: &mut Vec<u8>, address: u64) {
    e.resize(184, 0);
    e[56..58].copy_from_slice(&2u16.to_le_bytes());
    e[72..80].copy_from_slice(&176u64.to_le_bytes());

    e[120..124].copy_from_slice(&PT_LOAD.to_le_bytes());
    e[124..128].copy_from_slice(&PF_X.to_le_bytes());
    e[128..136].copy_from_slice(&180u64.to_le_bytes());
    e[144..152].copy_from_slice(&address.to_le_bytes());
    e[152..160].copy_from_slice(&4u64.to_le_bytes());
    e[160..168].copy_from_slice(&8u64.to_le_bytes());
    e[168..176].copy_from_slice(&1u64.to_le_bytes());
}

#[test]
fn accepts_valid_fixture() {
    assert_eq!(validate_elf(&fixture()).unwrap().entry, 0x1000);
}

#[test]
fn rejects_truncated_and_magic() {
    assert_eq!(validate_elf(&[]), Err(ElfError::TruncatedHeader));
    let mut e = fixture();
    e[0] = 0;
    assert_eq!(validate_elf(&e), Err(ElfError::BadMagic));
}

#[test]
fn rejects_wrong_architecture_and_file_range() {
    let mut e = fixture();
    e[18..20].copy_from_slice(&3u16.to_le_bytes());
    assert_eq!(validate_elf(&e), Err(ElfError::WrongMachine));
    let mut e = fixture();
    e[96..104].copy_from_slice(&99_999u64.to_le_bytes());
    assert_eq!(validate_elf(&e), Err(ElfError::InvalidSegment));
}

#[test]
fn rejects_no_load_and_entry_range() {
    let mut e = fixture();
    e[64..68].copy_from_slice(&0u32.to_le_bytes());
    assert_eq!(validate_elf(&e), Err(ElfError::NoLoadSegments));
    let mut e = fixture();
    e[24..32].copy_from_slice(&0x2000u64.to_le_bytes());
    assert_eq!(validate_elf(&e), Err(ElfError::EntryOutsideExecutable));
}

#[test]
fn rejects_entry_in_gap_between_executable_segments() {
    let mut e = fixture();
    e[24..32].copy_from_slice(&0x2000u64.to_le_bytes());
    add_second_segment(&mut e, 0x3000);

    assert_eq!(validate_elf(&e), Err(ElfError::EntryOutsideExecutable));
}

#[test]
fn rejects_overlapping_load_segments() {
    let mut e = fixture();
    add_second_segment(&mut e, 0x1004);
    assert_eq!(validate_elf(&e), Err(ElfError::Overlap));
}

#[test]
fn rejects_overflowing_header_and_load_ranges() {
    let mut e = fixture();
    e[32..40].copy_from_slice(&u64::MAX.to_le_bytes());
    assert_eq!(validate_elf(&e), Err(ElfError::Overflow));

    let mut e = fixture();
    e[88..96].copy_from_slice(&(u64::MAX - 3).to_le_bytes());
    assert_eq!(validate_elf(&e), Err(ElfError::Overflow));
}

#[test]
fn rejects_invalid_segment_alignment() {
    let mut e = fixture();
    e[112..120].copy_from_slice(&3u64.to_le_bytes());
    assert_eq!(validate_elf(&e), Err(ElfError::InvalidSegment));

    let mut e = fixture();
    e[112..120].copy_from_slice(&0x1000u64.to_le_bytes());
    assert_eq!(validate_elf(&e), Err(ElfError::InvalidSegment));
}

#[test]
fn deterministic_mutation_corpus_never_panics() {
    let base = fixture();

    for length in 0..=base.len() {
        let input = &base[..length];
        assert_eq!(validate_elf(input), validate_elf(input));
    }

    for index in 0..base.len() {
        let mut input = base.clone();
        input[index] ^= 0xff;
        let first = validate_elf(&input);
        assert_eq!(first, validate_elf(&input));
        if let Ok(validated) = first {
            assert!(validated.load_start < validated.load_end);
            assert!((1..=32).contains(&validated.segment_count));
        }
    }
}

#[test]
fn valid_fixture_reports_load_bounds() {
    let validated = validate_elf(&fixture()).unwrap();
    assert_eq!(validated.load_start, 0x1000);
    assert_eq!(validated.load_end, 0x1008);
    assert_eq!(validated.segment_count, 1);
}

#[test]
fn two_disjoint_executable_segments_are_accepted() {
    let mut e = fixture();
    add_second_segment(&mut e, 0x3000);
    let validated = validate_elf(&e).unwrap();
    assert_eq!(validated.load_start, 0x1000);
    assert_eq!(validated.load_end, 0x3008);
    assert_eq!(validated.segment_count, 2);
}
