//! The framebuffer that the firmware set up, and what the kernel is told of the
//! machine.

use vstd::prelude::*;

verus! {

/// Virtual address at which the kernel's window on physical memory starts.
pub const PHYS_OFFSET: u64 = 0x10_0000;

/// Start of the memory that the kernel may use for frames.
pub const USABLE_START_FRAME: u64 = 0x10_0000;

/// How the firmware stores a pixel.
#[derive(Debug, Clone, Copy, PartialEq, Eq, Structural)]
pub enum PixelFormat {
    /// Red, green, blue and a reserved byte.
    Rgb,
    /// Blue, green, red and a reserved byte.
    Bgr,
    /// Colours as given by bit masks.
    Bitmask,
    /// No framebuffer, only block transfers.
    BltOnly,
}

/// How the framebuffer stores a pixel.
#[derive(Debug, Clone, Copy, PartialEq, Eq, Structural)]
pub enum FramebufferFormat {
    /// Red, green, blue and a reserved byte.
    Rgb,
    /// Blue, green, red and a reserved byte.
    Bgr,
    /// Colours as given by bit masks.
    Bitmask,
    /// No framebuffer, only block transfers.
    BltOnly,
}

/// A framebuffer in memory.
#[derive(Debug, Clone, Copy, PartialEq, Eq, Structural)]
pub struct FramebufferInfo {
    /// Address of the first byte.
    pub address: u64,
    /// Number of bytes.
    pub size: usize,
    /// Pixels in a line.
    pub width: usize,
    /// Lines.
    pub height: usize,
    /// Pixels from the start of one line to the start of the next.
    pub stride: usize,
    /// How a pixel is stored.
    pub format: FramebufferFormat,
}

/// Boot information that the boot loader passes to the kernel. All addresses
/// are physical.
#[derive(Debug, Clone, Copy, PartialEq, Eq, Structural)]
pub struct BootInfo {
    /// Physical address of the memory map.
    pub memory_map_addr: u64,
    /// Number of entries in the memory map.
    pub memory_map_entries: u64,
    /// Physical address of the initramfs blob.
    pub initramfs_addr: u64,
    /// Size of the initramfs blob in bytes.
    pub initramfs_size: u64,
    /// Physical address of the kernel command line string.
    pub cmdline_addr: u64,
    /// Length of the command line string, without the final zero byte.
    pub cmdline_len: u64,
    /// Physical address of the framebuffer.
    pub framebuffer_addr: u64,
    /// Width of the framebuffer in pixels.
    pub framebuffer_width: u32,
    /// Height of the framebuffer in pixels.
    pub framebuffer_height: u32,
    /// Number of bytes in a line of the framebuffer.
    pub framebuffer_pitch: u32,
    /// Bits per pixel in the framebuffer.
    pub framebuffer_bpp: u8,
    /// Start of the memory that can be used for frames.
    pub usable_start_frame: u64,
    /// End of the memory that can be used for frames.
    pub usable_end_frame: u64,
}

/// The framebuffer format for a pixel format.
pub open spec fn format_of(pixel_format: PixelFormat) -> FramebufferFormat {
    match pixel_format {
        PixelFormat::Rgb => FramebufferFormat::Rgb,
        PixelFormat::Bgr => FramebufferFormat::Bgr,
        PixelFormat::Bitmask => FramebufferFormat::Bitmask,
        PixelFormat::BltOnly => FramebufferFormat::BltOnly,
    }
}

/// The low 32 bits of a number.
pub open spec fn low_32(number: usize) -> int {
    number as int % 0x1_0000_0000
}

/// Bits per pixel: four bytes, or none where there is no framebuffer.
pub open spec fn bits_per_pixel(format: FramebufferFormat) -> u8 {
    match format {
        FramebufferFormat::BltOnly => 0,
        _ => 32,
    }
}

/// Bytes from one line to the next.
pub open spec fn pitch_of(format: FramebufferFormat, stride: usize) -> int {
    match format {
        FramebufferFormat::BltOnly => 0,
        _ => low_32(stride) * 4,
    }
}

/// Describes the framebuffer that the firmware reports.
pub fn initialize_framebuffer(
    address: u64,
    size: usize,
    resolution: (usize, usize),
    stride: usize,
    pixel_format: PixelFormat,
) -> (info: FramebufferInfo)
    ensures
        info == (FramebufferInfo {
            address,
            size,
            width: resolution.0,
            height: resolution.1,
            stride,
            format: format_of(pixel_format),
        }),
{
    FramebufferInfo {
        address,
        size,
        width: resolution.0,
        height: resolution.1,
        stride,
        format: match pixel_format {
            PixelFormat::Rgb => FramebufferFormat::Rgb,
            PixelFormat::Bgr => FramebufferFormat::Bgr,
            PixelFormat::Bitmask => FramebufferFormat::Bitmask,
            PixelFormat::BltOnly => FramebufferFormat::BltOnly,
        },
    }
}

fn truncate_to_32(number: usize) -> (low: u32)
    ensures
        low == low_32(number),
{
    let wide: u64 = number as u64;
    assert(wide as u32 == wide % 0x1_0000_0000) by (bit_vector);
    #[verifier::truncate]
    (wide as u32)
}

/// Tells whether the number of bytes per line fits its 32 bits.
pub fn pitch_fits(format: FramebufferFormat, stride: usize) -> (fits: bool)
    ensures
        fits == (pitch_of(format, stride) <= u32::MAX),
{
    match format {
        FramebufferFormat::Rgb | FramebufferFormat::Bgr | FramebufferFormat::Bitmask => {
            truncate_to_32(stride) <= u32::MAX / 4
        },
        FramebufferFormat::BltOnly => true,
    }
}

/// Bits per pixel and bytes per line of a framebuffer. The number of bytes per
/// line has to fit its 32 bits.
pub fn framebuffer_layout(format: FramebufferFormat, stride: usize) -> (layout: (u8, u32))
    requires
        pitch_of(format, stride) <= u32::MAX,
    ensures
        layout.0 == bits_per_pixel(format),
        layout.1 == pitch_of(format, stride),
        layout.1 * 8 == layout.0 * (stride as int % 0x1_0000_0000),
{
    match format {
        FramebufferFormat::Rgb | FramebufferFormat::Bgr | FramebufferFormat::Bitmask => {
            (32u8, truncate_to_32(stride) * 4)
        },
        FramebufferFormat::BltOnly => (0u8, 0u32),
    }
}

/// What the kernel is told: the firmware's memory map, the framebuffer, and
/// where usable memory starts. There is no initramfs and no command line.
pub fn make_boot_info(
    framebuffer: &FramebufferInfo,
    memory_map_addr: u64,
    memory_map_entries: u64,
) -> (info: BootInfo)
    requires
        pitch_of(framebuffer.format, framebuffer.stride) <= u32::MAX,
    ensures
        info.memory_map_addr == memory_map_addr,
        info.memory_map_entries == memory_map_entries,
        info.initramfs_addr == 0,
        info.initramfs_size == 0,
        info.cmdline_addr == 0,
        info.cmdline_len == 0,
        info.framebuffer_addr == framebuffer.address,
        info.framebuffer_width == low_32(framebuffer.width),
        info.framebuffer_height == low_32(framebuffer.height),
        info.framebuffer_pitch == pitch_of(framebuffer.format, framebuffer.stride),
        info.framebuffer_bpp == bits_per_pixel(framebuffer.format),
        info.usable_start_frame == USABLE_START_FRAME,
        info.usable_start_frame == 0x10_0000,
        info.usable_end_frame == 0,
        info.framebuffer_width == framebuffer.width as int % 0x1_0000_0000,
        info.framebuffer_height == framebuffer.height as int % 0x1_0000_0000,
        framebuffer.format != FramebufferFormat::BltOnly ==> info.framebuffer_bpp == 32
            && info.framebuffer_pitch == framebuffer.stride as int % 0x1_0000_0000 * 4,
        framebuffer.format == FramebufferFormat::BltOnly ==> info.framebuffer_bpp == 0
            && info.framebuffer_pitch == 0,
{
    let (bpp, pitch) = framebuffer_layout(framebuffer.format, framebuffer.stride);
    BootInfo {
        memory_map_addr,
        memory_map_entries,
        initramfs_addr: 0,
        initramfs_size: 0,
        cmdline_addr: 0,
        cmdline_len: 0,
        framebuffer_addr: framebuffer.address,
        framebuffer_width: truncate_to_32(framebuffer.width),
        framebuffer_height: truncate_to_32(framebuffer.height),
        framebuffer_pitch: pitch,
        framebuffer_bpp: bpp,
        usable_start_frame: USABLE_START_FRAME,
        usable_end_frame: 0,
    }
}

/// A line of the framebuffer is as long as its pixels: for every stride of less
/// than 2^30 pixels the bytes per line are the stride times the four bytes of a
/// pixel. So a line has room for `width` pixels whenever the stride has.
pub proof fn line_is_as_long_as_its_pixels(format: FramebufferFormat, stride: usize, width: usize)
    requires
        format != FramebufferFormat::BltOnly,
        stride < 0x4000_0000,
    ensures
        bits_per_pixel(format) == 32,
        pitch_of(format, stride) == stride * 4,
        pitch_of(format, stride) <= u32::MAX,
        pitch_of(format, stride) * 8 == stride * bits_per_pixel(format),
        width <= stride ==> width * 4 <= pitch_of(format, stride),
{
}

/// The bytes per line for every stride: four for each pixel, the stride cut to
/// 32 bits. One pixel more makes the line four bytes longer, as long as the
/// stride stays below 2^32.
pub proof fn each_pixel_takes_four_bytes(format: FramebufferFormat, stride: usize, more: usize)
    requires
        format != FramebufferFormat::BltOnly,
    ensures
        0 <= low_32(stride) <= u32::MAX,
        (stride - low_32(stride)) % 0x1_0000_0000 == 0,
        pitch_of(format, stride) == low_32(stride) * 4,
        more == stride + 1 && more <= u32::MAX ==> pitch_of(format, more) == pitch_of(
            format,
            stride,
        ) + 4,
{
}

/// Without a framebuffer there are no pixels and no lines.
pub proof fn no_framebuffer_has_no_lines(stride: usize)
    ensures
        bits_per_pixel(FramebufferFormat::BltOnly) == 0,
        pitch_of(FramebufferFormat::BltOnly, stride) == 0,
{
}

/// The framebuffer keeps the firmware's pixel format: each format stands for
/// itself. The window and the memory for the kernel's frames start at 1 MiB.
pub proof fn pixel_formats_stand_for_themselves(pixel_format: PixelFormat)
    ensures
        pixel_format == PixelFormat::Rgb <==> format_of(pixel_format) == FramebufferFormat::Rgb,
        pixel_format == PixelFormat::Bgr <==> format_of(pixel_format) == FramebufferFormat::Bgr,
        pixel_format == PixelFormat::Bitmask <==> format_of(pixel_format)
            == FramebufferFormat::Bitmask,
        pixel_format == PixelFormat::BltOnly <==> format_of(pixel_format)
            == FramebufferFormat::BltOnly,
        PHYS_OFFSET == 0x10_0000,
        USABLE_START_FRAME == 0x10_0000,
{
}

} // verus!
