//! The framebuffer character device.
use vstd::prelude::*;
use crate::bytes::{copy_into, splice};
use crate::device::available;
use crate::error::{FsError, LxError};
use crate::vfs::{node_metadata, FileType, Metadata, PollStatus};

verus! {

/// The major number of framebuffer nodes.
pub const FB_MAJOR: usize = 0x1d;

pub const FBIOGET_VSCREENINFO: u32 = 0x4600;

pub const FBIOGET_FSCREENINFO: u32 = 0x4602;

/// No hardware accelerator.
pub const FB_ACCEL_NONE: u32 = 0;

/// How a display stores a pixel.
#[derive(Clone, Copy, PartialEq, Eq, Structural, Debug)]
pub enum ColorFormat {
    RGB332,
    RGB565,
    RGB888,
    ARGB8888,
}

/// Bytes that a pixel takes.
pub open spec fn pixel_bytes(f: ColorFormat) -> int {
    match f {
        ColorFormat::RGB332 => 1,
        ColorFormat::RGB565 => 2,
        ColorFormat::RGB888 => 3,
        ColorFormat::ARGB8888 => 4,
    }
}

impl ColorFormat {
    pub fn bytes(&self) -> (n: u32)
        ensures
            n == pixel_bytes(*self),
    {
        match self {
            ColorFormat::RGB332 => 1,
            ColorFormat::RGB565 => 2,
            ColorFormat::RGB888 => 3,
            ColorFormat::ARGB8888 => 4,
        }
    }

    /// Bits that a pixel takes.
    pub fn depth(&self) -> (n: u32)
        ensures
            n == 8 * pixel_bytes(*self),
    {
        8 * self.bytes()
    }
}

/// What a driver says of its display.
#[derive(Clone, Copy, PartialEq, Eq, Structural, Debug)]
pub struct DisplayInfo {
    pub width: u32,
    pub height: u32,
    pub format: ColorFormat,
    pub fb_size: usize,
}

/// How a framebuffer is organised.
#[derive(Clone, Copy, PartialEq, Eq, Structural, Debug)]
pub enum FbType {
    PackedPixels,
    Planes,
    InterleavedPlanes,
    Text,
    VgaPlanes,
    FourCC,
}

impl Default for FbType {
    fn default() -> (t: Self)
        ensures
            t == FbType::PackedPixels,
    {
        FbType::PackedPixels
    }
}

/// What the values of a framebuffer mean.
#[derive(Clone, Copy, PartialEq, Eq, Structural, Debug)]
pub enum FbVisual {
    Mono01,
    Mono10,
    TrueColor,
    PseudoColor,
    DirectColor,
    StaticPseudoColor,
    FourCC,
}

impl Default for FbVisual {
    fn default() -> (v: Self)
        ensures
            v == FbVisual::Mono01,
    {
        FbVisual::Mono01
    }
}

/// What of a display cannot be changed.
#[derive(Clone, Copy, Debug)]
pub struct FbFixScreeninfo {
    pub id: [u8; 16],
    pub smem_start: u64,
    pub smem_len: u32,
    pub fb_type: FbType,
    pub type_aux: u32,
    pub visual: FbVisual,
    pub xpanstep: u16,
    pub ypanstep: u16,
    pub ywrapstep: u16,
    pub line_length: u32,
    pub mmio_start: u64,
    pub mmio_len: u32,
    pub accel: u32,
    pub capabilities: u16,
}

/// Where a framebuffer lies, as it is reported: all ones where that is not known.
pub open spec fn start_of(paddr: Option<u64>) -> u64 {
    match paddr {
        Some(p) => p,
        None => u64::MAX,
    }
}

/// What of a display is fixed: where its memory lies, how long that is and how long a line is, all
/// else being zero or plain.
pub open spec fn fix_info(f: FbFixScreeninfo, info: DisplayInfo, paddr: Option<u64>) -> bool {
    &&& f.id@ == Seq::new(16, |i: int| 0u8)
    &&& f.smem_start == start_of(paddr)
    &&& f.smem_len == info.fb_size as u32
    &&& f.fb_type == FbType::PackedPixels
    &&& f.type_aux == 0
    &&& f.visual == FbVisual::TrueColor
    &&& f.xpanstep == 0
    &&& f.ypanstep == 0
    &&& f.ywrapstep == 0
    &&& f.line_length == info.width * pixel_bytes(info.format)
    &&& f.mmio_start == 0
    &&& f.mmio_len == 0
    &&& f.accel == FB_ACCEL_NONE
    &&& f.capabilities == 0
}

impl FbFixScreeninfo {
    /// `paddr` is where the framebuffer lies in physical memory, where that is known.
    pub fn from(info: DisplayInfo, paddr: Option<u64>) -> (f: Self)
        requires
            info.width * pixel_bytes(info.format) <= u32::MAX,
        ensures
            fix_info(f, info, paddr),
    {
        #[verifier::truncate]
        let smem_len: u32 = info.fb_size as u32;
        let f = FbFixScreeninfo {
            id: [0u8; 16],
            smem_start: match paddr {
                Some(p) => p,
                None => u64::MAX,
            },
            smem_len,
            fb_type: FbType::PackedPixels,
            type_aux: 0,
            visual: FbVisual::TrueColor,
            xpanstep: 0,
            ypanstep: 0,
            ywrapstep: 0,
            line_length: info.width * info.format.bytes(),
            mmio_start: 0,
            mmio_len: 0,
            accel: FB_ACCEL_NONE,
            capabilities: 0,
        };
        assert(f.id@ =~= Seq::new(16, |i: int| 0u8));
        f
    }
}

/// Where in a pixel a colour stands.
#[derive(Clone, Copy, PartialEq, Eq, Structural, Debug)]
pub struct FbBitfield {
    pub offset: u32,
    pub length: u32,
    pub msb_right: u32,
}

/// What of a display users may set.
#[derive(Clone, Copy, PartialEq, Eq, Debug)]
pub struct FbVarScreeninfo {
    pub xres: u32,
    pub yres: u32,
    pub xres_virtual: u32,
    pub yres_virtual: u32,
    pub xoffset: u32,
    pub yoffset: u32,
    pub bits_per_pixel: u32,
    pub grayscale: u32,
    pub red: FbBitfield,
    pub green: FbBitfield,
    pub blue: FbBitfield,
    pub transp: FbBitfield,
    /// Not zero for an unusual pixel format.
    pub nonstd: u32,
    pub activate: u32,
    /// Height of the picture in millimetres.
    pub height: u32,
    /// Width of the picture in millimetres.
    pub width: u32,
    pub accel_flags: u32,
    /// Timings follow, all in pixel clocks but this one.
    pub pixclock: u32,
    pub left_margin: u32,
    pub right_margin: u32,
    pub upper_margin: u32,
    pub lower_margin: u32,
    pub hsync_len: u32,
    pub vsync_len: u32,
    pub sync: u32,
    pub vmode: u32,
    pub rotate: u32,
    pub colorspace: u32,
    pub reserved: [u32; 4],
}

/// So many bits from an offset on.
pub open spec fn field(offset: u32, length: u32) -> FbBitfield {
    FbBitfield { offset, length, msb_right: 0 }
}

/// Where red, green, blue and transparency stand in a pixel.
pub open spec fn fields_of(f: ColorFormat) -> (FbBitfield, FbBitfield, FbBitfield, FbBitfield) {
    match f {
        ColorFormat::RGB332 => (field(5, 3), field(3, 3), field(0, 2), field(0, 0)),
        ColorFormat::RGB565 => (field(11, 5), field(5, 6), field(0, 5), field(0, 0)),
        ColorFormat::RGB888 => (field(16, 8), field(8, 8), field(0, 8), field(0, 0)),
        ColorFormat::ARGB8888 => (field(16, 8), field(8, 8), field(0, 8), field(24, 8)),
    }
}

/// What of a display users may set: its size and the layout of its pixels, all else being zero.
pub open spec fn var_info(v: FbVarScreeninfo, info: DisplayInfo) -> bool {
    &&& v.reserved@ == Seq::new(4, |i: int| 0u32)
    &&& v == FbVarScreeninfo {
        xres: info.width,
        yres: info.height,
        xres_virtual: info.width,
        yres_virtual: info.height,
        xoffset: 0,
        yoffset: 0,
        bits_per_pixel: (8 * pixel_bytes(info.format)) as u32,
        grayscale: 0,
        red: fields_of(info.format).0,
        green: fields_of(info.format).1,
        blue: fields_of(info.format).2,
        transp: fields_of(info.format).3,
        nonstd: 0,
        activate: 0,
        height: 0,
        width: 0,
        accel_flags: 0,
        pixclock: 0,
        left_margin: 0,
        right_margin: 0,
        upper_margin: 0,
        lower_margin: 0,
        hsync_len: 0,
        vsync_len: 0,
        sync: 0,
        vmode: 0,
        rotate: 0,
        colorspace: 0,
        reserved: v.reserved,
    }
}

fn bits(offset: u32, length: u32) -> (f: FbBitfield)
    ensures
        f == field(offset, length),
{
    FbBitfield { offset, length, msb_right: 0 }
}

impl FbVarScreeninfo {
    pub fn from(info: DisplayInfo) -> (v: Self)
        ensures
            var_info(v, info),
    {
        let (red, green, blue, transp) = match info.format {
            ColorFormat::RGB332 => (bits(5, 3), bits(3, 3), bits(0, 2), bits(0, 0)),
            ColorFormat::RGB565 => (bits(11, 5), bits(5, 6), bits(0, 5), bits(0, 0)),
            ColorFormat::RGB888 => (bits(16, 8), bits(8, 8), bits(0, 8), bits(0, 0)),
            ColorFormat::ARGB8888 => (bits(16, 8), bits(8, 8), bits(0, 8), bits(24, 8)),
        };
        let reserved: [u32; 4] = [0u32; 4];
        assert(reserved@ =~= Seq::new(4, |i: int| 0u32));
        FbVarScreeninfo {
            xres: info.width,
            yres: info.height,
            xres_virtual: info.width,
            yres_virtual: info.height,
            xoffset: 0,
            yoffset: 0,
            bits_per_pixel: info.format.depth(),
            grayscale: 0,
            red,
            green,
            blue,
            transp,
            nonstd: 0,
            activate: 0,
            height: 0,
            width: 0,
            accel_flags: 0,
            pixclock: 0,
            left_margin: 0,
            right_margin: 0,
            upper_margin: 0,
            lower_margin: 0,
            hsync_len: 0,
            vsync_len: 0,
            sync: 0,
            vmode: 0,
            rotate: 0,
            colorspace: 0,
            reserved,
        }
    }
}

/// What a request of the device answers.
pub enum FbReply {
    Fix(FbFixScreeninfo),
    Var(FbVarScreeninfo),
}

/// A framebuffer device.
pub struct FbDev {
    pub info: DisplayInfo,
    pub inode_id: usize,
}

impl FbDev {
    pub fn new(info: DisplayInfo, inode_id: usize) -> (d: Self)
        ensures
            d.info == info,
            d.inode_id == inode_id,
    {
        FbDev { info, inode_id }
    }

    /// Which physical memory a mapping covers: where it starts, and how many pages it has.
    pub fn get_vmo(&self, offset: usize, len: usize, paddr: Option<u64>) -> (r: Result<
        (usize, usize),
        LxError,
    >)
        requires
            self.info.fb_size <= usize::MAX - 4096,
            paddr matches Some(p) ==> p == u64::MAX || p + self.info.fb_size <= usize::MAX,
        ensures
            r == screen_mapping(self.info.fb_size, offset, len, paddr),
    {
        if offset % 4096 != 0 || offset >= self.info.fb_size {
            return Err(LxError::EINVAL);
        }
        let start: u64 = match paddr {
            Some(p) => p,
            None => u64::MAX,
        };
        if start == u64::MAX {
            return Err(LxError::ENOMEM);
        }
        let left: usize = self.info.fb_size - offset;
        let n: usize = if len < left {
            len
        } else {
            left
        };
        Ok((start as usize + offset, (n + 4095) / 4096))
    }

    /// Copies out what exists from `offset` on.
    pub fn read_at(&self, fb: &[u8], offset: usize, buf: &mut [u8]) -> (n: usize)
        requires
            fb@.len() == self.info.fb_size,
        ensures
            n == available(fb@.len() as int, offset as int, old(buf)@.len() as int),
            final(buf)@ == splice(
                old(buf)@,
                0,
                if n == 0 {
                    Seq::empty()
                } else {
                    fb@.subrange(offset as int, offset + n)
                },
            ),
    {
        if offset >= self.info.fb_size {
            assert(buf@ =~= splice(buf@, 0, Seq::empty()));
            return 0;
        }
        let left: usize = self.info.fb_size - offset;
        let n: usize = if buf.len() < left {
            buf.len()
        } else {
            left
        };
        copy_into(buf, 0, &fb[offset..offset + n]);
        assert(n == 0 ==> fb@.subrange(offset as int, offset + n) =~= Seq::empty());
        n
    }

    /// Copies in what fits from `offset` on.
    pub fn write_at(&self, fb: &mut [u8], offset: usize, buf: &[u8]) -> (n: usize)
        requires
            old(fb)@.len() == self.info.fb_size,
        ensures
            n == available(old(fb)@.len() as int, offset as int, buf@.len() as int),
            final(fb)@ == splice(old(fb)@, offset as int, buf@.take(n as int)),
    {
        if offset >= self.info.fb_size {
            assert(fb@ =~= splice(fb@, offset as int, buf@.take(0)));
            return 0;
        }
        let left: usize = self.info.fb_size - offset;
        let n: usize = if buf.len() < left {
            buf.len()
        } else {
            left
        };
        copy_into(fb, offset, &buf[0..n]);
        assert(buf@.subrange(0, n as int) =~= buf@.take(n as int));
        n
    }

    pub fn poll(&self) -> (s: PollStatus)
        ensures
            s == (PollStatus { read: true, write: false, error: false }),
    {
        PollStatus { read: true, write: false, error: false }
    }

    /// Metadata of the node, whose number is made of its major and minor number.
    pub fn metadata<F: Fn(usize, usize) -> usize>(&self, make_rdev: F) -> (m: Metadata)
        requires
            make_rdev.requires((FB_MAJOR, 0usize)),
        ensures
            make_rdev.ensures((FB_MAJOR, 0usize), m.rdev),
            m == crate::vfs::bare_node(1, self.inode_id, FileType::CharDevice, 0o660, m.rdev),
    {
        node_metadata(1, self.inode_id, FileType::CharDevice, 0o660, make_rdev(FB_MAJOR, 0))
    }

    /// Answers a request.
    pub fn io_control(&self, cmd: u32, paddr: Option<u64>) -> (r: Result<FbReply, FsError>)
        requires
            self.info.width * pixel_bytes(self.info.format) <= u32::MAX,
        ensures
            if cmd == FBIOGET_FSCREENINFO {
                r matches Ok(FbReply::Fix(f)) && fix_info(f, self.info, paddr)
            } else if cmd == FBIOGET_VSCREENINFO {
                r matches Ok(FbReply::Var(v)) && var_info(v, self.info)
            } else {
                r matches Err(e) && e == FsError::NotSupported
            },
    {
        if cmd == FBIOGET_FSCREENINFO {
            Ok(FbReply::Fix(FbFixScreeninfo::from(self.info, paddr)))
        } else if cmd == FBIOGET_VSCREENINFO {
            Ok(FbReply::Var(FbVarScreeninfo::from(self.info)))
        } else {
            Err(FsError::NotSupported)
        }
    }
}

/// Whether two fields of a pixel share a bit.
pub open spec fn overlap(a: FbBitfield, b: FbBitfield) -> bool {
    a.offset < b.offset + b.length && b.offset < a.offset + a.length && a.length > 0 && b.length > 0
}

/// The fields of a pixel of more than eight bits lie inside it, and no two share a bit.
pub proof fn law_fields_disjoint(f: ColorFormat)
    requires
        f != ColorFormat::RGB332,
    ensures
        ({
            let (r, g, b, a) = fields_of(f);
            &&& r.offset + r.length <= 8 * pixel_bytes(f)
            &&& g.offset + g.length <= 8 * pixel_bytes(f)
            &&& b.offset + b.length <= 8 * pixel_bytes(f)
            &&& a.offset + a.length <= 8 * pixel_bytes(f)
            &&& !overlap(r, g)
            &&& !overlap(g, b)
            &&& !overlap(r, b)
            &&& !overlap(r, a)
            &&& !overlap(g, a)
            &&& !overlap(b, a)
        }),
{
}

/// Which memory of the screen an offset maps, and how many pages of it.
pub open spec fn screen_mapping(fb_size: usize, offset: usize, len: usize, paddr: Option<u64>) -> Result<
    (usize, usize),
    LxError,
> {
    if offset % 4096 != 0 || offset >= fb_size {
        Err(LxError::EINVAL)
    } else if start_of(paddr) == u64::MAX {
        Err(LxError::ENOMEM)
    } else {
        Ok(
            (
                (paddr->0 + offset) as usize,
                ((available(fb_size as int, offset as int, len as int) + 4095) / 4096) as usize,
            ),
        )
    }
}

/// The screen is mapped from a page within it, where it has an address; the pages cover what was asked
/// for, up to the end of the screen.
pub proof fn law_screen_mapped(fb_size: usize, offset: usize, len: usize, paddr: Option<u64>)
    requires
        fb_size <= usize::MAX - 4096,
        paddr matches Some(p) ==> p == u64::MAX || p + fb_size <= usize::MAX,
    ensures
        offset % 4096 != 0 || offset >= fb_size ==> screen_mapping(fb_size, offset, len, paddr) == Err::<
            (usize, usize),
            LxError,
        >(LxError::EINVAL),
        offset % 4096 == 0 && offset < fb_size ==> (screen_mapping(fb_size, offset, len, paddr) is Ok <==> (
        paddr matches Some(p) && p != u64::MAX)),
        screen_mapping(fb_size, offset, len, paddr) matches Ok(r) ==> {
            let n = if len <= fb_size - offset {
                len as int
            } else {
                fb_size - offset
            };
            &&& r.0 == paddr->0 + offset
            &&& 4096 * r.1 >= n
            &&& 4096 * r.1 < n + 4096
        },
{
}

/// The colors of a pixel take all of its bits together, and each has a size of its own: a pixel with
/// transparency eight bits each, one without as many as there are.
pub proof fn law_pixel_bits(f: ColorFormat)
    ensures
        ({
            let (r, g, b, a) = fields_of(f);
            &&& r.length + g.length + b.length + a.length == 8 * pixel_bytes(f)
            &&& a.length > 0 <==> f == ColorFormat::ARGB8888
            &&& b.offset == 0
            &&& r.offset > g.offset && g.offset > b.offset
            &&& r.msb_right == 0 && g.msb_right == 0 && b.msb_right == 0 && a.msb_right == 0
            &&& r.offset + r.length == (if f == ColorFormat::ARGB8888 {
                24
            } else {
                8 * pixel_bytes(f)
            })
        }),
{
}

/// What is told of the screen is its size, all of it to be seen from the corner, and the bits of its
/// pixels.
pub proof fn law_screen_told(v: FbVarScreeninfo, info: DisplayInfo)
    requires
        var_info(v, info),
    ensures
        v.xres == info.width && v.yres == info.height,
        v.xres_virtual == info.width && v.yres_virtual == info.height,
        v.xoffset == 0 && v.yoffset == 0,
        v.bits_per_pixel == 8 * pixel_bytes(info.format),
        v.red.length + v.green.length + v.blue.length + v.transp.length == v.bits_per_pixel,
{
}

/// The fixed part of a display tells where its memory lies, or that this is not known, and how much
/// of it there is where that fits. A line is as long as its pixels, whose bytes hold all of their
/// bits.
pub proof fn law_fixed_part(f: FbFixScreeninfo, info: DisplayInfo, paddr: Option<u64>)
    requires
        fix_info(f, info, paddr),
    ensures
        paddr matches Some(p) ==> f.smem_start == p,
        paddr is None ==> f.smem_start == 0xffff_ffff_ffff_ffff,
        info.fb_size <= u32::MAX ==> f.smem_len == info.fb_size,
        info.format is RGB332 ==> f.line_length == info.width,
        info.format is RGB565 ==> f.line_length == 2 * info.width,
        info.format is RGB888 ==> f.line_length == 3 * info.width,
        info.format is ARGB8888 ==> f.line_length == 4 * info.width,
        f.visual is TrueColor && f.fb_type is PackedPixels,
        f.xpanstep == 0 && f.ypanstep == 0 && f.ywrapstep == 0 && f.mmio_len == 0,
{
}

} // verus!
