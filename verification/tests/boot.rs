use polished_boot::boot::{
    framebuffer_layout, initialize_framebuffer, make_boot_info, pitch_fits, FramebufferFormat,
    FramebufferInfo, PixelFormat, PHYS_OFFSET,
};
use polished_boot::kernel_space::KERNEL_PHYS_BASE;
use polished_boot::memory_map::{
    find_boot_region, find_max_usable_phys_addr, memory_map_is_addressable, MemoryDescriptor,
    CONVENTIONAL_MEMORY,
};
use uefi::boot::MemoryType;

fn region(ty: MemoryType, phys_start: u64, page_count: u64) -> MemoryDescriptor {
    MemoryDescriptor { ty: ty.0, phys_start, page_count }
}

#[test]
fn conventional_memory_has_the_number_of_the_firmware_crate() {
    assert_eq!(CONVENTIONAL_MEMORY, MemoryType::CONVENTIONAL.0);
}

#[test]
fn boot_region_is_the_first_that_is_large_enough() {
    let map = [
        region(MemoryType::CONVENTIONAL, 0x1000, 127),
        region(MemoryType::LOADER_DATA, 0x10_0000, 1000),
        region(MemoryType::CONVENTIONAL, 0x80_0000, 128),
        region(MemoryType::CONVENTIONAL, 0x100_0000, 4096),
    ];
    assert_eq!(find_boot_region(&map), Some((0x80_0000, 0x88_0000)));
    assert_eq!(find_max_usable_phys_addr(&map), Some(0x200_0000));
    assert_eq!(find_boot_region(&map[3..]), Some((0x100_0000, 0x108_0000)));
    assert_eq!(find_boot_region(&map[..2]), None);
    assert_eq!(find_boot_region(&[]), None);
    let last = region(MemoryType::CONVENTIONAL, u64::MAX - 0x7_FFFF, 128);
    assert_eq!(find_boot_region(&[last]), None);
    let below = region(MemoryType::CONVENTIONAL, u64::MAX - 0x8_0FFF, 128);
    assert_eq!(find_boot_region(&[below]), Some((u64::MAX - 0x8_0FFF, u64::MAX - 0xFFF)));
}

#[test]
fn max_address_is_the_end_of_the_highest_usable_region() {
    let map = [
        region(MemoryType::CONVENTIONAL, 0x10_0000, 16),
        region(MemoryType::CONVENTIONAL, 0x4000_0000, 2),
        region(MemoryType::MMIO, 0xFFFF_FFFF_FFFF_F000, 1),
        region(MemoryType::CONVENTIONAL, 0x1000, 1),
    ];
    assert!(memory_map_is_addressable(&map));
    assert_eq!(find_max_usable_phys_addr(&map), Some(0x4000_2000));
    assert_eq!(find_max_usable_phys_addr(&map[..1]), Some(0x11_0000));
}

#[test]
fn no_usable_region_has_no_max_address() {
    let map = [
        region(MemoryType::RESERVED, 0x10_0000, 16),
        region(MemoryType::CONVENTIONAL, 0, 0),
    ];
    assert_eq!(find_max_usable_phys_addr(&map), None);
    assert_eq!(find_max_usable_phys_addr(&[]), None);
}

#[test]
fn memory_beyond_physical_addresses_is_noticed() {
    let limit = 0x10_0000_0000_0000;
    assert!(memory_map_is_addressable(&[region(MemoryType::CONVENTIONAL, limit - 0x2000, 1)]));
    assert!(!memory_map_is_addressable(&[region(MemoryType::CONVENTIONAL, limit - 0x1000, 1)]));
    assert!(!memory_map_is_addressable(&[region(MemoryType::CONVENTIONAL, limit, 0)]));
    assert!(!memory_map_is_addressable(&[region(MemoryType::CONVENTIONAL, 0, u64::MAX)]));
    assert!(memory_map_is_addressable(&[region(MemoryType::RESERVED, 0, u64::MAX)]));
}

#[test]
fn framebuffer_is_described_as_reported() {
    let formats = [
        (PixelFormat::Rgb, FramebufferFormat::Rgb),
        (PixelFormat::Bgr, FramebufferFormat::Bgr),
        (PixelFormat::Bitmask, FramebufferFormat::Bitmask),
        (PixelFormat::BltOnly, FramebufferFormat::BltOnly),
    ];
    for (pixel_format, format) in formats {
        assert_eq!(
            initialize_framebuffer(0x8000_0000, 3_145_728, (1024, 768), 1040, pixel_format),
            FramebufferInfo {
                address: 0x8000_0000,
                size: 3_145_728,
                width: 1024,
                height: 768,
                stride: 1040,
                format,
            }
        );
    }
}

#[test]
fn line_takes_four_bytes_for_each_pixel_of_its_stride() {
    assert_eq!(framebuffer_layout(FramebufferFormat::Rgb, 1040), (32, 4160));
    assert_eq!(framebuffer_layout(FramebufferFormat::Bgr, 800), (32, 3200));
    assert_eq!(framebuffer_layout(FramebufferFormat::Bitmask, 0), (32, 0));
    assert_eq!(framebuffer_layout(FramebufferFormat::BltOnly, usize::MAX), (0, 0));
}

#[test]
fn boot_info_tells_of_memory_map_and_framebuffer() {
    let framebuffer = initialize_framebuffer(0xC000_0000, 4096, (640, 480), 704, PixelFormat::Bgr);
    let info = make_boot_info(&framebuffer, 0x7E_5018, 113);
    assert_eq!(info.framebuffer_addr, 0xC000_0000);
    assert_eq!(info.framebuffer_width, 640);
    assert_eq!(info.framebuffer_height, 480);
    assert_eq!(info.framebuffer_pitch, 2816);
    assert_eq!(info.framebuffer_bpp, 32);
    assert_eq!(info.memory_map_addr, 0x7E_5018);
    assert_eq!(info.memory_map_entries, 113);
    assert_eq!(info.initramfs_addr, 0);
    assert_eq!(info.initramfs_size, 0);
    assert_eq!(info.cmdline_addr, 0);
    assert_eq!(info.cmdline_len, 0);
    assert_eq!(info.usable_start_frame, 0x10_0000);
    assert_eq!(info.usable_end_frame, 0);
}

#[test]
fn line_of_four_gibibytes_is_too_long() {
    assert!(pitch_fits(FramebufferFormat::Rgb, 0x3FFF_FFFF));
    assert!(!pitch_fits(FramebufferFormat::Rgb, 0x4000_0000));
    assert!(!pitch_fits(FramebufferFormat::Bgr, 0xFFFF_FFFF));
    assert!(pitch_fits(FramebufferFormat::Bitmask, 0x1_0000_0000));
    assert!(pitch_fits(FramebufferFormat::BltOnly, usize::MAX));
}

#[test]
fn sizes_are_cut_to_32_bits() {
    let framebuffer = initialize_framebuffer(
        0,
        0,
        (0x1_0000_0280, 0x2_0000_01E0),
        0x3_0000_0010,
        PixelFormat::Rgb,
    );
    let info = make_boot_info(&framebuffer, 0, 0);
    assert_eq!(info.framebuffer_width, 0x280);
    assert_eq!(info.framebuffer_height, 0x1E0);
    assert_eq!(info.framebuffer_pitch, 0x40);
}

#[test]
fn kernel_window_is_put_where_its_memory_is() {
    assert_eq!(PHYS_OFFSET, KERNEL_PHYS_BASE);
}
