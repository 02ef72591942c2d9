use lib::boot_protocol::{PhysicalRange, PixelFormat};
use lib::elf::ElfError;
use lib::loader::{
    checked_framebuffer, entry_in_loaded_range, plan_load_segments, segment_source_range, Segment,
};

fn put(bytes: &mut [u8], offset: usize, value: u64, width: usize) {
    for i in 0..width {
        bytes[offset + i] = (value >> (8 * i)) as u8;
    }
}

fn image(memory_size: u64, file_size: u64, headers: u16) -> Vec<u8> {
    let mut bytes = vec![0u8; 64 + 56 * 2];
    put(&mut bytes, 32, 64, 8);
    put(&mut bytes, 54, 56, 2);
    put(&mut bytes, 56, u64::from(headers), 2);
    put(&mut bytes, 64, 1, 4);
    put(&mut bytes, 64 + 8, 0x1000, 8);
    put(&mut bytes, 64 + 24, 0x10_0000, 8);
    put(&mut bytes, 64 + 32, file_size, 8);
    put(&mut bytes, 64 + 40, memory_size, 8);
    put(&mut bytes, 120, 4, 4);
    bytes
}

#[test]
fn load_plan_keeps_loadable_segments_and_rounds_to_pages() {
    let plan = plan_load_segments(&image(0x3000, 0x200, 2)).unwrap();
    assert_eq!(
        plan.segments,
        vec![Segment { address: 0x10_0000, file_size: 0x200, file_offset: 0x1000, memory_size: 0x3000 }]
    );
    assert_eq!(plan.lowest, 0x10_0000);
    assert_eq!(plan.highest, 0x10_3000);
    assert_eq!(plan.page_start, 0x10_0000);
    assert_eq!(plan.pages, 3);
    let range = plan.loaded_range();
    assert_eq!((range.start, range.byte_len), (0x10_0000, 0x3000));
    let partial = plan_load_segments(&image(0x3001, 0x200, 2)).unwrap();
    assert_eq!(partial.pages, 4);
}

#[test]
fn load_plan_rejects_bad_segments_and_images() {
    assert_eq!(plan_load_segments(&image(0x3000, 0x200, 0)).unwrap_err(), ElfError::NoLoadSegments);
    assert_eq!(plan_load_segments(&image(0x100, 0x200, 1)).unwrap_err(), ElfError::InvalidSegment);
    assert_eq!(plan_load_segments(&image(0, 0, 1)).unwrap_err(), ElfError::InvalidSegment);
    assert_eq!(plan_load_segments(&[0u8; 30]).unwrap_err(), ElfError::InvalidSegment);
    assert_eq!(plan_load_segments(&image(0x3000, 0x200, 3)).unwrap_err(), ElfError::InvalidSegment);
    let mut wrapping = image(0x3000, 0x200, 1);
    put(&mut wrapping, 64 + 24, u64::MAX - 0x1000, 8);
    assert_eq!(plan_load_segments(&wrapping).unwrap_err(), ElfError::Overflow);
}

#[test]
fn segment_source_must_lie_in_the_file() {
    let segment = Segment { address: 0x10_0000, file_size: 0x200, file_offset: 0x1000, memory_size: 0x3000 };
    assert_eq!(segment_source_range(segment, 0x1200), Ok((0x1000, 0x1200)));
    assert_eq!(segment_source_range(segment, 0x11ff), Err(ElfError::InvalidSegment));
    let wrapping = Segment { file_offset: u64::MAX, ..segment };
    assert_eq!(segment_source_range(wrapping, usize::MAX), Err(ElfError::Overflow));
}

#[test]
fn framebuffer_mode_needs_rgb_pixels_and_enough_bytes() {
    let info = checked_framebuffer(0x8000_0000, 1024 * 768 * 4, 1024, 768, 1024, PixelFormat::Bgr()).unwrap();
    assert_eq!((info.width, info.height, info.stride), (1024, 768, 1024));
    assert_eq!(info.pixel_format, PixelFormat::Bgr());
    assert!(checked_framebuffer(0x8000_0000, 1024 * 768 * 4, 1024, 768, 1000, PixelFormat::Rgb()).is_none());
    assert!(checked_framebuffer(0x8000_0000, 1024 * 768 * 4, 1024, 768, 1024, PixelFormat::Bitmask()).is_none());
    assert!(checked_framebuffer(0x8000_0000, 1024 * 768 * 4 - 1, 1024, 768, 1024, PixelFormat::Rgb()).is_none());
    assert!(checked_framebuffer(0, 1024 * 768 * 4, 1024, 768, 1024, PixelFormat::Rgb()).is_none());
}

#[test]
fn entry_must_fall_inside_the_loaded_image() {
    let image = PhysicalRange { start: 0x10_0000, byte_len: 0x2000 };
    assert!(entry_in_loaded_range(0x10_0000, image));
    assert!(entry_in_loaded_range(0x10_1fff, image));
    assert!(!entry_in_loaded_range(0x10_2000, image));
    assert!(!entry_in_loaded_range(0xf_ffff, image));
    let top = PhysicalRange { start: u64::MAX - 0xf, byte_len: 0x100 };
    assert!(entry_in_loaded_range(u64::MAX - 1, top));
    assert!(!entry_in_loaded_range(u64::MAX, top));
}
