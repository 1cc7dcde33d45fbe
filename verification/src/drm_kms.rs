//! Presenting frames: scan-out planning, the composited cursor, page flips and atomic commits.
use vstd::prelude::*;
use crate::drm::{
    get_fb, get_handle, get_primary_driver, schedule_flip_event, set_crtc_fb, software_kms_active,
    CursorModel, DisplayInfo, DrmFramebuffer, DrmModel, DrmState, PendingDrmTimer,
};

verus! {

/// A rectangle `(x, y, width, height)` of a frame.
pub type Area = (u32, u32, u32, u32);

/// A placed cursor image `(x, y, width, height)`.
pub type Placed = (i32, i32, u32, u32);

/// Rows of one blit band.
pub const BLIT_CHUNK_ROWS: u32 = 32;

/// A copy from a framebuffer's pixels to the display.
#[derive(Clone, Copy, PartialEq, Eq, Structural, Debug)]
pub struct Blit {
    pub x: u32,
    pub y: u32,
    pub w: u32,
    pub h: u32,
    /// First source pixel.
    pub src_off: usize,
    /// Source pixels per row.
    pub src_stride: usize,
}

/// What scanning out a framebuffer comes to.
#[derive(Clone, Copy, PartialEq, Eq, Debug)]
pub enum Scanout {
    /// No such framebuffer, no display, or no memory behind the framebuffer.
    Refused,
    /// The framebuffer or the display has no pixels.
    Empty,
    Draw {
        /// Bytes the copy engine may transfer instead of the blit.
        engine: Option<u64>,
        blit: Option<Blit>,
        cursor: Option<Placed>,
    },
}

pub open spec fn min_int(a: int, b: int) -> int {
    if a <= b {
        a
    } else {
        b
    }
}

fn min_u32(a: u32, b: u32) -> (r: u32)
    ensures
        r == min_int(a as int, b as int),
{
    if a <= b {
        a
    } else {
        b
    }
}

/// The part of the requested area that both the framebuffer and the display have.
pub open spec fn visible_area(fb: DrmFramebuffer, d: DisplayInfo, rect: Option<Area>) -> Area {
    let fw = min_int(fb.width as int, d.width as int);
    let fh = min_int(fb.height as int, d.height as int);
    match rect {
        None => (0, 0, fw as u32, fh as u32),
        Some((x, y, w, h)) => {
            let cx = min_int(x as int, fw);
            let cy = min_int(y as int, fh);
            (cx as u32, cy as u32, min_int(w as int, fw - cx) as u32, min_int(h as int, fh - cy) as u32)
        },
    }
}

/// The area to repaint: the requested one, or everything where no pixel of it is visible.
pub open spec fn usable_clip(fb: DrmFramebuffer, d: DisplayInfo, rect: Option<Area>) -> Option<Area> {
    let a = visible_area(fb, d, rect);
    if a.2 == 0 || a.3 == 0 {
        None
    } else {
        rect
    }
}

/// Where the cursor is drawn: nowhere while it is hidden or has no image.
pub open spec fn cursor_place(c: CursorModel) -> Option<Placed> {
    if c.visible && c.w > 0 && c.h > 0 && (c.bitmap matches Some(b) && b.len() > 0) {
        Some((c.x, c.y, c.w, c.h))
    } else {
        None
    }
}

/// The blit of a visible area: from its first pixel on, where the framebuffer has that pixel.
pub open spec fn area_blit(fb: DrmFramebuffer, a: Area) -> Option<Blit> {
    let stride = fb.pitch as int / 4;
    let off = a.1 * stride + a.0;
    if off < fb.size / 4 {
        Some(
            Blit {
                x: a.0,
                y: a.1,
                w: a.2,
                h: a.3,
                src_off: off as usize,
                src_stride: stride as usize,
            },
        )
    } else {
        None
    }
}

/// What scanning out comes to.
pub open spec fn scanout_of(m: DrmModel, fb_id: u32, rect: Option<Area>) -> Scanout {
    match crate::drm::fb_of(m.framebuffers, fb_id) {
        None => Scanout::Refused,
        Some(fb) => match m.display {
            None => Scanout::Refused,
            Some(d) => {
                let clip = usable_clip(fb, d, rect);
                let a = visible_area(fb, d, clip);
                if fb.phys_addr == 0 || fb.size == 0 {
                    Scanout::Refused
                } else if a.2 == 0 || a.3 == 0 {
                    Scanout::Empty
                } else {
                    Scanout::Draw {
                        engine: if clip is None && m.ce_present && fb.pitch == d.pitch {
                            Some((d.pitch * a.3) as u64)
                        } else {
                            None
                        },
                        blit: area_blit(fb, a),
                        cursor: cursor_place(m.cursor),
                    }
                }
            },
        },
    }
}

/// Scanning out a visible frame puts the cursor where it now belongs.
pub open spec fn scanned_out(m: DrmModel, fb_id: u32, rect: Option<Area>) -> DrmModel {
    if scanout_of(m, fb_id, rect) is Draw {
        DrmModel { cursor: CursorModel { drawn: cursor_place(m.cursor), ..m.cursor }, ..m }
    } else {
        m
    }
}

fn snapshot_cursor(st: &DrmState) -> (p: Option<Placed>)
    ensures
        p == cursor_place(st@.cursor),
{
    if st.cursor.visible && st.cursor.w > 0 && st.cursor.h > 0 {
        match &st.cursor.bitmap {
            Some(b) => {
                if b.len() > 0 {
                    Some((st.cursor.x, st.cursor.y, st.cursor.w, st.cursor.h))
                } else {
                    None
                }
            },
            None => None,
        }
    } else {
        None
    }
}

fn plan_area(fb: &DrmFramebuffer, d: &DisplayInfo, rect: Option<Area>) -> (a: Area)
    ensures
        a == visible_area(*fb, *d, rect),
{
    let fw: u32 = min_u32(fb.width, d.width);
    let fh: u32 = min_u32(fb.height, d.height);
    match rect {
        None => (0, 0, fw, fh),
        Some((x, y, w, h)) => {
            let cx: u32 = min_u32(x, fw);
            let cy: u32 = min_u32(y, fh);
            (cx, cy, min_u32(w, fw - cx), min_u32(h, fh - cy))
        },
    }
}

fn plan_clip(fb: &DrmFramebuffer, d: &DisplayInfo, rect: Option<Area>) -> (r: Option<Area>)
    ensures
        r == usable_clip(*fb, *d, rect),
{
    let a = plan_area(fb, d, rect);
    if a.2 == 0 || a.3 == 0 {
        None
    } else {
        rect
    }
}

fn plan_blit(fb: &DrmFramebuffer, a: Area) -> (b: Option<Blit>)
    ensures
        b == area_blit(*fb, a),
{
    let stride: u64 = (fb.pitch / 4) as u64;
    assert(a.1 * stride <= 0xffff_ffff * 0x4000_0000) by (nonlinear_arith)
        requires
            0 <= a.1 <= 0xffff_ffff,
            0 <= stride <= 0x4000_0000,
    ;
    let off: u64 = a.1 as u64 * stride + a.0 as u64;
    if off < (fb.size / 4) as u64 {
        Some(
            Blit {
                x: a.0,
                y: a.1,
                w: a.2,
                h: a.3,
                src_off: off as usize,
                src_stride: stride as usize,
            },
        )
    } else {
        None
    }
}

/// Plans the copy of a framebuffer, or of an area of it, to the display. An area of which nothing is
/// visible stands for the whole frame.
pub fn scanout_region(st: &mut DrmState, fb_id: u32, rect: Option<Area>) -> (r: Scanout)
    ensures
        r == scanout_of(old(st)@, fb_id, rect),
        final(st)@ == scanned_out(old(st)@, fb_id, rect),
{
    let fb = match get_fb(st, fb_id) {
        Some(f) => f,
        None => {
            return Scanout::Refused;
        },
    };
    let d = match st.display {
        Some(d) => d,
        None => {
            return Scanout::Refused;
        },
    };
    if fb.phys_addr == 0 || fb.size == 0 {
        return Scanout::Refused;
    }
    let clip = plan_clip(&fb, &d, rect);
    let a = plan_area(&fb, &d, clip);
    if a.2 == 0 || a.3 == 0 {
        return Scanout::Empty;
    }
    assert(d.pitch * a.3 <= 0xffff_ffff * 0xffff_ffff) by (nonlinear_arith)
        requires
            0 <= d.pitch <= 0xffff_ffff,
            0 <= a.3 <= 0xffff_ffff,
    ;
    let engine: Option<u64> = if clip.is_none() && st.ce_present && fb.pitch == d.pitch {
        Some(d.pitch as u64 * a.3 as u64)
    } else {
        None
    };
    let blit = plan_blit(&fb, a);
    let cursor = snapshot_cursor(st);
    st.cursor.drawn = cursor;
    Scanout::Draw { engine, blit, cursor }
}

/// Plans the copy of a whole framebuffer to the display.
pub fn scanout(st: &mut DrmState, fb_id: u32) -> (r: Scanout)
    ensures
        r == scanout_of(old(st)@, fb_id, None),
        final(st)@ == scanned_out(old(st)@, fb_id, None),
{
    scanout_region(st, fb_id, None)
}

/// An area of which no pixel is visible, being empty or outside the frame, repaints everything.
pub proof fn law_unusable_area_repaints_everything(
    m: DrmModel,
    fb: DrmFramebuffer,
    d: DisplayInfo,
    fb_id: u32,
    area: Area,
)
    requires
        crate::drm::fb_of(m.framebuffers, fb_id) == Some(fb),
        m.display == Some(d),
        area.2 == 0 || area.3 == 0 || area.0 >= min_int(fb.width as int, d.width as int) || area.1
            >= min_int(fb.height as int, d.height as int),
    ensures
        scanout_of(m, fb_id, Some(area)) == scanout_of(m, fb_id, None),
        scanned_out(m, fb_id, Some(area)) == scanned_out(m, fb_id, None),
        fb.phys_addr != 0 && fb.size > 0 && fb.width > 0 && fb.height > 0 && d.width > 0 && d.height
            > 0 ==> scanout_of(m, fb_id, Some(area)) is Draw,
{
}

/// A scan-out never reads past the framebuffer's buffer and never draws outside the display.
pub proof fn law_scanout_inside(m: DrmModel, fb_id: u32, rect: Option<Area>)
    requires
        scanout_of(m, fb_id, rect) is Draw,
    ensures
        m.display matches Some(d) && crate::drm::fb_of(m.framebuffers, fb_id) matches Some(fb)
            && (scanout_of(m, fb_id, rect)->blit matches Some(b) ==> b.src_off < fb.size / 4 && b.x
            + b.w <= d.width && b.y + b.h <= d.height && b.x + b.w <= fb.width && b.y + b.h
            <= fb.height),
{
}

/// One band of a blit: its first row, its number of rows, and the offset of its first source
/// pixel.
#[derive(Clone, Copy, PartialEq, Eq, Structural, Debug)]
pub struct Band {
    pub row: u32,
    pub rows: u32,
    pub src_off: usize,
}

/// The offset of the `k`-th band's first source pixel.
#[verifier::opaque]
pub open spec fn band_off(k: int, stride: usize) -> int {
    k * 32 * stride
}

/// The `k`-th band.
pub open spec fn band(k: int, height: u32, stride: usize) -> Band {
    Band {
        row: (k * 32) as u32,
        rows: min_int(32, height - k * 32) as u32,
        src_off: band_off(k, stride) as usize,
    }
}

/// Whether there is a `k`-th band: it has rows, and its first pixel exists.
pub open spec fn has_band(k: int, height: u32, stride: usize, pixels: usize) -> bool {
    k * 32 < height && band_off(k, stride) < pixels
}

/// Cuts a blit into bands of at most 32 rows, top to bottom.
pub fn blit_bands(height: u32, stride: usize, pixels: usize) -> (bands: Vec<Band>)
    requires
        height * stride <= usize::MAX,
    ensures
        forall|k: int| 0 <= k < bands@.len() ==> #[trigger] has_band(k, height, stride, pixels),
        forall|k: int|
            0 <= k < bands@.len() ==> #[trigger] bands@[k] == band(k, height, stride),
        !has_band(bands@.len() as int, height, stride, pixels),
{
    let mut bands: Vec<Band> = Vec::new();
    let mut row: u32 = 0;
    while row < height
        invariant
            height * stride <= usize::MAX,
            row <= height,
            row < height ==> row == bands@.len() * 32,
            row == height ==> height <= bands@.len() * 32,
            forall|k: int| 0 <= k < bands@.len() ==> #[trigger] has_band(k, height, stride, pixels),
            forall|k: int|
                0 <= k < bands@.len() ==> #[trigger] bands@[k] == band(k, height, stride),
        decreases height - row,
    {
        let rows: u32 = min_u32(BLIT_CHUNK_ROWS, height - row);
        assert(row * stride <= height * stride) by (nonlinear_arith)
            requires
                0 <= row <= height,
                0 <= stride,
        ;
        let src_off: usize = row as usize * stride;
        assert(band_off(bands@.len() as int, stride) == src_off) by {
            reveal(band_off);
            assert(bands@.len() * 32 * stride == row * stride) by (nonlinear_arith)
                requires
                    row == bands@.len() * 32,
            ;
        }
        if src_off >= pixels {
            return bands;
        }
        bands.push(Band { row, rows, src_off });
        row = row + rows;
    }
    bands
}

/// The bands lie under each other without gaps.
pub proof fn law_bands_contiguous(k: int, height: u32, stride: usize, pixels: usize)
    requires
        0 <= k,
        has_band(k + 1, height, stride, pixels),
    ensures
        band(k + 1, height, stride).row == band(k, height, stride).row + band(
            k,
            height,
            stride,
        ).rows,
        band(k, height, stride).rows == 32,
{
}

/// The number of pixels a cursor image needs from its buffer, where the buffer can hold them.
pub open spec fn cursor_pixels(m: DrmModel, handle_id: u32, w: u32, h: u32) -> Option<int> {
    match crate::drm::handle_of(m.handles, handle_id) {
        None => None,
        Some(g) => if w * h > g.size / 4 || g.phys_addr == 0 {
            None
        } else {
            Some(w * h)
        },
    }
}

/// The address of a cursor image and how many pixels it has.
pub open spec fn image_source(m: DrmModel, handle_id: u32, w: u32, h: u32) -> Option<(u64, u64)> {
    if handle_id == 0 || w == 0 || h == 0 {
        None
    } else {
        match cursor_pixels(m, handle_id, w, h) {
            None => None,
            Some(px) => Some(
                (crate::drm::handle_of(m.handles, handle_id)->Some_0.phys_addr, px as u64),
            ),
        }
    }
}

/// How many pixels have to be read from a buffer, and from which address, to make it the cursor
/// image.
pub fn cursor_source(st: &DrmState, handle_id: u32, w: u32, h: u32) -> (r: Option<(u64, u64)>)
    ensures
        r == image_source(st@, handle_id, w, h),
{
    if handle_id == 0 || w == 0 || h == 0 {
        return None;
    }
    match get_handle(st, handle_id) {
        None => None,
        Some(g) => {
            assert(w * h <= 0xffff_ffff * 0xffff_ffff) by (nonlinear_arith)
                requires
                    0 <= w <= 0xffff_ffff,
                    0 <= h <= 0xffff_ffff,
            ;
            let px: u64 = w as u64 * h as u64;
            if px > (g.size / 4) as u64 || g.phys_addr == 0 {
                None
            } else {
                Some((g.phys_addr, px))
            }
        },
    }
}

/// Whether `n` pixels are those of a cursor image that a buffer holds; where it holds none, none are
/// looked at.
pub open spec fn image_given(m: DrmModel, handle_id: u32, w: u32, h: u32, n: int) -> bool {
    cursor_pixels(m, handle_id, w, h) is Some ==> n == w * h
}

/// Sets the cursor image from a buffer, whose first `w * h` pixels are `pixels`, or hides the cursor.
/// Says whether a repaint is due.
pub fn set_cursor_bo(st: &mut DrmState, handle_id: u32, w: u32, h: u32, pixels: Vec<u32>) -> (repaint:
    bool)
    requires
        image_given(old(st)@, handle_id, w, h, pixels@.len() as int),
    ensures
        (repaint, final(st)@) == cursor_set(old(st)@, handle_id, w, h, pixels@),
{
    if handle_id == 0 || w == 0 || h == 0 {
        let was_visible = st.cursor.visible;
        st.cursor.visible = false;
        return was_visible;
    }
    if cursor_source(st, handle_id, w, h).is_none() {
        st.cursor.visible = false;
        return true;
    }
    st.cursor.bitmap = Some(pixels);
    st.cursor.w = w;
    st.cursor.h = h;
    st.cursor.visible = true;
    true
}

/// Moves the cursor.
pub fn move_cursor(st: &mut DrmState, x: i32, y: i32)
    ensures
        final(st)@ == (DrmModel {
            cursor: CursorModel { x, y, ..old(st)@.cursor },
            ..old(st)@
        }),
{
    st.cursor.x = x;
    st.cursor.y = y;
}

/// The blit that restores the frame under a rectangle, clipped to the display.
pub open spec fn restore_blit(
    pixels: int,
    stride: int,
    fw: u32,
    fh: u32,
    x: int,
    y: int,
    w: int,
    h: int,
) -> Option<Blit> {
    let x0 = if x >= 0 { x } else { 0 };
    let y0 = if y >= 0 { y } else { 0 };
    let x1 = min_int(x + w, fw as int);
    let y1 = min_int(y + h, fh as int);
    let off = y0 * stride + x0;
    if stride == 0 || x1 <= x0 || y1 <= y0 || off >= pixels {
        None
    } else {
        Some(
            Blit {
                x: x0 as u32,
                y: y0 as u32,
                w: (x1 - x0) as u32,
                h: (y1 - y0) as u32,
                src_off: off as usize,
                src_stride: stride as usize,
            },
        )
    }
}

/// Clips the restoration of a rectangle to the display.
pub fn restore_rect(
    pixels: usize,
    stride: usize,
    fw: u32,
    fh: u32,
    x: i64,
    y: i64,
    w: i64,
    h: i64,
) -> (b: Option<Blit>)
    requires
        stride <= 0x4000_0000,
        -0x1_0000_0000 <= x <= 0x1_0000_0000,
        -0x1_0000_0000 <= y <= 0x1_0000_0000,
        0 <= w <= 0x1_0000_0010,
        0 <= h <= 0x1_0000_0010,
    ensures
        b == restore_blit(
            pixels as int,
            stride as int,
            fw,
            fh,
            x as int,
            y as int,
            w as int,
            h as int,
        ),
{
    if stride == 0 {
        return None;
    }
    let x0: i64 = if x >= 0 { x } else { 0 };
    let y0: i64 = if y >= 0 { y } else { 0 };
    let x1: i64 = if x + w <= fw as i64 { x + w } else { fw as i64 };
    let y1: i64 = if y + h <= fh as i64 { y + h } else { fh as i64 };
    if x1 <= x0 || y1 <= y0 {
        return None;
    }
    assert(0 <= y0 * stride <= 0xffff_ffff * 0x4000_0000) by (nonlinear_arith)
        requires
            0 <= y0 <= 0xffff_ffff,
            0 <= stride <= 0x4000_0000,
    ;
    let off: u64 = y0 as u64 * stride as u64 + x0 as u64;
    if off >= pixels as u64 {
        return None;
    }
    Some(
        Blit {
            x: x0 as u32,
            y: y0 as u32,
            w: (x1 - x0) as u32,
            h: (y1 - y0) as u32,
            src_off: off as usize,
            src_stride: stride,
        },
    )
}

/// What a cursor change puts on the display: the frame where the cursor was, one pixel wider on
/// each side, and the cursor where it is.
#[derive(Clone, Copy, PartialEq, Eq, Debug)]
pub struct Repaint {
    pub fb: DrmFramebuffer,
    pub restore: Option<Blit>,
    pub draw: Option<Placed>,
}

/// Whether the compositor's frames are on the display.
pub open spec fn owns_screen(m: DrmModel, active_vt: usize) -> bool {
    m.graphics_vt == Some(active_vt)
}

/// The scanout of a return to a terminal, and the state afterwards.
pub open spec fn presented_again(m: DrmModel, active_vt: usize) -> (Option<Scanout>, DrmModel) {
    if owns_screen(m, active_vt) && m.crtc_fb != 0 {
        (Some(scanout_of(m, m.crtc_fb, None)), scanned_out(m, m.crtc_fb, None))
    } else {
        (None, m)
    }
}

/// The repaint that a cursor change asks for.
pub open spec fn repaint_of(m: DrmModel, active_vt: usize) -> Option<Repaint> {
    if !crate::drm::software_kms(m) || !owns_screen(m, active_vt) || m.crtc_fb == 0 {
        None
    } else {
        match crate::drm::fb_of(m.framebuffers, m.crtc_fb) {
            None => None,
            Some(fb) => if fb.phys_addr == 0 || fb.size == 0 {
                None
            } else {
                let d = m.display->Some_0;
                Some(
                    Repaint {
                        fb,
                        restore: match m.cursor.drawn {
                            None => None,
                            Some((ox, oy, ow, oh)) => restore_blit(
                                fb.size as int / 4,
                                fb.pitch as int / 4,
                                d.width,
                                d.height,
                                ox - 1,
                                oy - 1,
                                ow + 2,
                                oh + 2,
                            ),
                        },
                        draw: cursor_place(m.cursor),
                    },
                )
            },
        }
    }
}

/// Makes a cursor change visible without drawing the whole frame.
pub fn repaint_for_cursor(st: &mut DrmState, active_vt: usize) -> (r: Option<Repaint>)
    ensures
        r == repaint_of(old(st)@, active_vt),
        final(st)@ == repainted(old(st)@, active_vt),
{
    if !software_kms_active(st) {
        return None;
    }
    match st.graphics_vt {
        None => {
            return None;
        },
        Some(vt) => {
            if vt != active_vt {
                return None;
            }
        },
    }
    let fb_id: u32 = st.crtc_fb;
    let old_rect = st.cursor.drawn;
    let draw = snapshot_cursor(st);
    st.cursor.drawn = draw;
    if fb_id == 0 {
        return None;
    }
    let fb = match get_fb(st, fb_id) {
        Some(f) => f,
        None => {
            return None;
        },
    };
    let d = match st.display {
        Some(d) => d,
        None => {
            return None;
        },
    };
    if fb.phys_addr == 0 || fb.size == 0 {
        return None;
    }
    let restore = match old_rect {
        None => None,
        Some((ox, oy, ow, oh)) => restore_rect(
            fb.size / 4,
            (fb.pitch / 4) as usize,
            d.width,
            d.height,
            ox as i64 - 1,
            oy as i64 - 1,
            ow as i64 + 2,
            oh as i64 + 2,
        ),
    };
    Some(Repaint { fb, restore, draw })
}

/// How a frame reaches the screen.
#[derive(Clone, Copy, PartialEq, Eq, Structural, Debug)]
pub enum PresentPath {
    /// Another virtual terminal is in front: the frame counts as shown and is not drawn.
    Dropped,
    /// The frame is blitted.
    Software,
    /// The primary driver is asked to flip, by its own framebuffer id where it has one.
    Driver(u32),
}

/// The framebuffer id that the driver knows.
pub open spec fn driver_fb(m: DrmModel, fb_id: u32) -> u32 {
    match crate::drm::fb_of(m.framebuffers, fb_id) {
        Some(fb) => match fb.driver_fb_id {
            Some(d) => d,
            None => fb_id,
        },
        None => fb_id,
    }
}

/// How a frame would reach the screen.
pub open spec fn path_of(m: DrmModel, active_vt: usize, fb_id: u32) -> PresentPath {
    if m.graphics_vt is Some && m.graphics_vt != Some(active_vt) {
        PresentPath::Dropped
    } else if crate::drm::software_kms(m) || crate::drm::primary(m) is None {
        PresentPath::Software
    } else {
        PresentPath::Driver(driver_fb(m, fb_id))
    }
}

/// Decides how a frame reaches the screen.
pub fn present_path(st: &DrmState, active_vt: usize, fb_id: u32) -> (p: PresentPath)
    ensures
        p == path_of(st@, active_vt, fb_id),
{
    match st.graphics_vt {
        Some(owner) => {
            if owner != active_vt {
                return PresentPath::Dropped;
            }
        },
        None => {},
    }
    if software_kms_active(st) || get_primary_driver(st).is_none() {
        return PresentPath::Software;
    }
    let id: u32 = match get_fb(st, fb_id) {
        Some(fb) => match fb.driver_fb_id {
            Some(d) => d,
            None => fb_id,
        },
        None => fb_id,
    };
    PresentPath::Driver(id)
}

/// What presenting a frame comes to.
#[derive(Clone, Copy, PartialEq, Eq, Debug)]
pub struct Present {
    /// Whether the client is told that the frame is shown.
    pub flipped: bool,
    /// The blit to perform, where the frame goes to the framebuffer display.
    pub scanout: Option<Scanout>,
    /// Whether the text console has to stop drawing.
    pub take_console: bool,
}

/// The state once the compositor's terminal is settled: the first frame claims the active one.
pub open spec fn claimed(m: DrmModel, active_vt: usize) -> DrmModel {
    if m.graphics_vt is None {
        DrmModel { graphics_vt: Some(active_vt), ..m }
    } else {
        m
    }
}

/// What presenting comes to; `hw_flip` is the driver's answer where it is asked.
pub open spec fn present_of(
    m: DrmModel,
    active_vt: usize,
    fb_id: u32,
    rect: Option<Area>,
    hw_flip: bool,
) -> Present {
    match path_of(m, active_vt, fb_id) {
        PresentPath::Dropped => Present { flipped: true, scanout: None, take_console: false },
        p => if p is Driver && hw_flip {
            Present { flipped: true, scanout: None, take_console: true }
        } else {
            let s = scanout_of(m, fb_id, rect);
            Present { flipped: s !is Refused, scanout: Some(s), take_console: s !is Refused }
        },
    }
}

/// The state after presenting.
pub open spec fn presented(
    m: DrmModel,
    active_vt: usize,
    fb_id: u32,
    rect: Option<Area>,
    hw_flip: bool,
) -> DrmModel {
    match path_of(m, active_vt, fb_id) {
        PresentPath::Dropped => m,
        p => {
            let c = claimed(m, active_vt);
            let drawn = if p is Driver && hw_flip {
                c
            } else {
                scanned_out(c, fb_id, rect)
            };
            if present_of(m, active_vt, fb_id, rect, hw_flip).flipped {
                DrmModel { crtc_fb: fb_id, ..drawn }
            } else {
                drawn
            }
        },
    }
}

/// Presents a frame, or an area of it, without a completion event.
pub fn present_now_region(
    st: &mut DrmState,
    active_vt: usize,
    fb_id: u32,
    crtc_id: u32,
    rect: Option<Area>,
    hw_flip: bool,
) -> (p: Present)
    ensures
        p == present_of(old(st)@, active_vt, fb_id, rect, hw_flip),
        final(st)@ == presented(old(st)@, active_vt, fb_id, rect, hw_flip),
{
    let path = present_path(st, active_vt, fb_id);
    match path {
        PresentPath::Dropped => {
            return Present { flipped: true, scanout: None, take_console: false };
        },
        _ => {},
    }
    if st.graphics_vt.is_none() {
        st.graphics_vt = Some(active_vt);
    }
    let by_driver = match path {
        PresentPath::Driver(_) => hw_flip,
        _ => false,
    };
    if by_driver {
        set_crtc_fb(st, crtc_id, fb_id);
        return Present { flipped: true, scanout: None, take_console: true };
    }
    let s = scanout_region(st, fb_id, rect);
    let flipped = match s {
        Scanout::Refused => false,
        _ => true,
    };
    if flipped {
        set_crtc_fb(st, crtc_id, fb_id);
    }
    Present { flipped, scanout: Some(s), take_console: flipped }
}

/// Presents a whole frame without a completion event.
pub fn present_now(
    st: &mut DrmState,
    active_vt: usize,
    fb_id: u32,
    crtc_id: u32,
    hw_flip: bool,
) -> (p: Present)
    ensures
        p == present_of(old(st)@, active_vt, fb_id, None, hw_flip),
        final(st)@ == presented(old(st)@, active_vt, fb_id, None, hw_flip),
{
    present_now_region(st, active_vt, fb_id, crtc_id, None, hw_flip)
}

/// Shows the compositor's last frame again where its terminal is in front.
pub fn represent_if_owner_active(st: &mut DrmState, active_vt: usize) -> (r: Option<Scanout>)
    ensures
        r == presented_again(old(st)@, active_vt).0,
        final(st)@ == presented_again(old(st)@, active_vt).1,
{
    match st.graphics_vt {
        None => {
            return None;
        },
        Some(vt) => {
            if vt != active_vt {
                return None;
            }
        },
    }
    let fb: u32 = st.crtc_fb;
    if fb == 0 {
        return None;
    }
    Some(scanout(st, fb))
}

/// Presents a frame and schedules its completion event. The second part is the time for which a
/// timer has to be set, where one has to.
pub fn page_flip(
    st: &mut DrmState,
    active_vt: usize,
    fb_id: u32,
    crtc_id: u32,
    user_data: u64,
    hw_flip: bool,
    now_ns: u64,
) -> (r: (Present, Option<u64>))
    ensures
        r.0 == present_of(old(st)@, active_vt, fb_id, None, hw_flip),
        (r.1, final(st)@) == flip_scheduled(
            presented(old(st)@, active_vt, fb_id, None, hw_flip),
            r.0.flipped,
            crtc_id,
            user_data,
            now_ns,
        ),
{
    let p = present_now(st, active_vt, fb_id, crtc_id, hw_flip);
    if p.flipped {
        let at = schedule_flip_event(st, crtc_id, user_data, now_ns);
        (p, at)
    } else {
        (p, None)
    }
}

/// While another terminal is in front, frames are reported as shown and nothing changes.
pub proof fn law_background_frames_dropped(
    m: DrmModel,
    owner: usize,
    active_vt: usize,
    fb_id: u32,
    rect: Option<Area>,
    hw_flip: bool,
)
    requires
        m.graphics_vt == Some(owner),
        owner != active_vt,
    ensures
        present_of(m, active_vt, fb_id, rect, hw_flip).flipped,
        present_of(m, active_vt, fb_id, rect, hw_flip).scanout is None,
        presented(m, active_vt, fb_id, rect, hw_flip) == m,
{
}

/// Whether to paint again, and the card, after a cursor image was set.
pub open spec fn cursor_set(m: DrmModel, handle_id: u32, w: u32, h: u32, pixels: Seq<u32>) -> (
    bool,
    DrmModel,
) {
    let hidden = DrmModel { cursor: CursorModel { visible: false, ..m.cursor }, ..m };
    if handle_id == 0 || w == 0 || h == 0 {
        (m.cursor.visible, hidden)
    } else if cursor_pixels(m, handle_id, w, h) is None {
        (true, hidden)
    } else {
        (
            true,
            DrmModel {
                cursor: CursorModel { visible: true, w, h, bitmap: Some(pixels), ..m.cursor },
                ..m
            },
        )
    }
}

/// The time to wait until, and the card, after a frame was shown whose client wants to be told.
pub open spec fn flip_scheduled(
    shown: DrmModel,
    flipped: bool,
    crtc_id: u32,
    user_data: u64,
    now_ns: u64,
) -> (Option<u64>, DrmModel) {
    (
        if flipped && !shown.timer_armed {
            Some(crate::drm::vblank_deadline(shown, now_ns))
        } else {
            None
        },
        if flipped {
            crate::drm::armed(shown, PendingDrmTimer::Flip { crtc_id, user_data }, now_ns)
        } else {
            shown
        },
    )
}

/// The card after the cursor was painted again.
pub open spec fn repainted(m: DrmModel, active_vt: usize) -> DrmModel {
    if crate::drm::software_kms(m) && owns_screen(m, active_vt) {
        DrmModel { cursor: CursorModel { drawn: cursor_place(m.cursor), ..m.cursor }, ..m }
    } else {
        m
    }
}

/// A pixel is drawn exactly where it is in the framebuffer, on the display, and in the area asked for.
pub proof fn law_pixels_drawn(fb: DrmFramebuffer, d: DisplayInfo, area: Area, px: int, py: int)
    requires
        0 <= px,
        0 <= py,
    ensures
        ({
            let a = visible_area(fb, d, Some(area));
            a.0 <= px < a.0 + a.2 && a.1 <= py < a.1 + a.3 <==> px < fb.width && px < d.width && py
                < fb.height && py < d.height && area.0 <= px < area.0 + area.2 && area.1 <= py < area.1
                + area.3
        }),
        ({
            let a = visible_area(fb, d, None);
            a.0 <= px < a.0 + a.2 && a.1 <= py < a.1 + a.3 <==> px < fb.width && px < d.width && py
                < fb.height && py < d.height
        }),
{
}

/// What is drawn comes from the same place in the framebuffer, row by row.
pub proof fn law_drawn_from_same_place(fb: DrmFramebuffer, a: Area)
    ensures
        area_blit(fb, a) is Some <==> a.1 * (fb.pitch as int / 4) + a.0 < fb.size / 4,
        area_blit(fb, a) matches Some(b) ==> b.x == a.0 && b.y == a.1 && b.w == a.2 && b.h == a.3
            && b.src_stride == fb.pitch / 4 && b.src_off == a.1 * (fb.pitch as int / 4) + a.0,
{
    assert(a.1 * (fb.pitch as int / 4) >= 0) by (nonlinear_arith);
}

/// When a frame can be drawn: there is such a framebuffer, with memory, and a display. It is drawn where
/// both have pixels, and the copy engine may do it only for the whole of it, where it is allowed and the
/// rows are equally long.
pub proof fn law_when_drawn(m: DrmModel, fb_id: u32, rect: Option<Area>)
    ensures
        scanout_of(m, fb_id, rect) is Refused <==> m.display is None || !(crate::drm::fb_of(
            m.framebuffers,
            fb_id,
        ) matches Some(fb) && fb.phys_addr != 0 && fb.size != 0),
        scanout_of(m, fb_id, rect) matches Scanout::Draw { engine, blit, cursor } ==> {
            let fb = crate::drm::fb_of(m.framebuffers, fb_id)->0;
            let d = m.display->0;
            &&& engine is Some ==> m.ce_present && fb.pitch == d.pitch
            &&& m.ce_present && fb.pitch == d.pitch && rect is None ==> engine == Some(
                (d.pitch * min_int(fb.height as int, d.height as int)) as u64,
            )
            &&& cursor == cursor_place(m.cursor)
            &&& fb.width > 0 && fb.height > 0 && d.width > 0 && d.height > 0
        },
        m.display matches Some(d) ==> (crate::drm::fb_of(m.framebuffers, fb_id) matches Some(fb) ==> (
        fb.phys_addr != 0 && fb.size != 0 && fb.width > 0 && fb.height > 0 && d.width > 0 && d.height > 0
            ==> scanout_of(m, fb_id, rect) is Draw)),
{
}

/// An area that can be drawn keeps the copy engine out.
pub proof fn law_engine_for_whole_frames(m: DrmModel, fb_id: u32, area: Area)
    requires
        scanout_of(m, fb_id, Some(area)) is Draw,
        ({
            let fb = crate::drm::fb_of(m.framebuffers, fb_id)->0;
            let d = m.display->0;
            area.2 > 0 && area.3 > 0 && area.0 < fb.width && area.0 < d.width && area.1 < fb.height
                && area.1 < d.height
        }),
    ensures
        scanout_of(m, fb_id, Some(area))->engine is None,
{
}

/// The cursor is shown where it is to be seen and has an image with pixels, at its place and size.
pub proof fn law_cursor_shown(c: CursorModel)
    ensures
        cursor_place(c) is Some <==> c.visible && c.w > 0 && c.h > 0 && (c.bitmap matches Some(b)
            && b.len() > 0),
        cursor_place(c) matches Some(p) ==> p.0 == c.x && p.1 == c.y && p.2 == c.w && p.3 == c.h,
{
}

/// What is painted over where the cursor was: the part of that place that is on the display, from the
/// same place in the framebuffer.
pub proof fn law_cursor_painted_over(
    pixels: int,
    stride: int,
    fw: u32,
    fh: u32,
    x: int,
    y: int,
    w: int,
    h: int,
    px: int,
    py: int,
)
    requires
        0 < stride,
        0 <= w,
        0 <= h,
    ensures
        restore_blit(pixels, stride, fw, fh, x, y, w, h) matches Some(b) ==> {
            &&& b.x <= px < b.x + b.w && b.y <= py < b.y + b.h <==> x <= px < x + w && y <= py < y + h
                && 0 <= px < fw && 0 <= py < fh
            &&& b.y * stride + b.x < pixels
            &&& pixels <= usize::MAX ==> b.src_off == b.y * stride + b.x
            &&& stride <= usize::MAX ==> b.src_stride == stride
        },
        restore_blit(pixels, stride, fw, fh, x, y, w, h) is None && x <= px < x + w && y <= py < y + h
            && 0 <= px < fw && 0 <= py < fh ==> (if y >= 0 {
            y
        } else {
            0
        }) * stride + (if x >= 0 {
            x
        } else {
            0
        }) >= pixels,
{
    let x0 = if x >= 0 {
        x
    } else {
        0
    };
    let y0 = if y >= 0 {
        y
    } else {
        0
    };
    assert(y0 * stride >= 0) by (nonlinear_arith)
        requires
            y0 >= 0,
            stride > 0,
    ;
}

/// Which way a frame goes: it is dropped while another terminal is in front, drawn by software where no
/// driver scans out, and flipped by the driver, under the number it knows, otherwise.
pub proof fn law_which_way(m: DrmModel, active_vt: usize, fb_id: u32)
    ensures
        path_of(m, active_vt, fb_id) is Dropped <==> (m.graphics_vt matches Some(vt) && vt != active_vt),
        path_of(m, active_vt, fb_id) is Driver <==> (m.graphics_vt is None || m.graphics_vt == Some(
            active_vt,
        )) && !crate::drm::software_kms(m) && m.drivers.len() > 0,
        path_of(m, active_vt, fb_id) matches PresentPath::Driver(n) ==> n == (match crate::drm::fb_of(
            m.framebuffers,
            fb_id,
        ) {
            Some(fb) => if fb.driver_fb_id is Some {
                fb.driver_fb_id->0
            } else {
                fb_id
            },
            None => fb_id,
        }),
{
}

/// The first terminal to show a frame owns the screen, and keeps it.
pub proof fn law_first_terminal_owns(m: DrmModel, active_vt: usize, other: usize)
    ensures
        claimed(m, active_vt).graphics_vt is Some,
        m.graphics_vt is None ==> claimed(m, active_vt).graphics_vt == Some(active_vt),
        claimed(claimed(m, active_vt), other) == claimed(m, active_vt),
{
}

/// A frame in front counts as shown where the driver flipped it, or where it could be drawn; then it is
/// what the display shows, and the text console stops drawing. A flip that the driver made is not drawn
/// again.
pub proof fn law_frame_shown(m: DrmModel, active_vt: usize, fb_id: u32, rect: Option<Area>, hw_flip: bool)
    requires
        m.graphics_vt is None || m.graphics_vt == Some(active_vt),
    ensures
        ({
            let p = present_of(m, active_vt, fb_id, rect, hw_flip);
            let n = presented(m, active_vt, fb_id, rect, hw_flip);
            let by_driver = !crate::drm::software_kms(m) && m.drivers.len() > 0 && hw_flip;
            &&& p.flipped <==> by_driver || !(scanout_of(m, fb_id, rect) is Refused)
            &&& p.take_console == p.flipped
            &&& p.scanout is None <==> by_driver
            &&& !by_driver ==> p.scanout == Some(scanout_of(m, fb_id, rect))
            &&& p.flipped ==> n.crtc_fb == fb_id
            &&& !p.flipped ==> n.crtc_fb == m.crtc_fb
            &&& n.graphics_vt == Some(active_vt)
            &&& n.framebuffers == m.framebuffers && n.handles == m.handles && n.events == m.events
        }),
{
}

/// A cursor image is taken where its buffer holds all its pixels; without one, or where the buffer is
/// too small, the cursor is hidden. The place stays.
pub proof fn law_cursor_image(m: DrmModel, handle_id: u32, w: u32, h: u32, pixels: Seq<u32>)
    ensures
        ({
            let r = cursor_set(m, handle_id, w, h, pixels);
            let taken = handle_id != 0 && w > 0 && h > 0 && (crate::drm::handle_of(
                m.handles,
                handle_id,
            ) matches Some(g) && w * h <= g.size / 4 && g.phys_addr != 0);
            &&& r.1.cursor.visible == taken
            &&& taken ==> r.1.cursor.w == w && r.1.cursor.h == h && r.1.cursor.bitmap == Some(pixels)
            &&& !taken ==> r.1.cursor.bitmap == m.cursor.bitmap && r.1.cursor.w == m.cursor.w
                && r.1.cursor.h == m.cursor.h
            &&& r.1.cursor.x == m.cursor.x && r.1.cursor.y == m.cursor.y && r.1.cursor.drawn
                == m.cursor.drawn
            &&& taken ==> r.0
            &&& m.cursor.visible ==> r.0
        }),
{
}

/// A client is told of a frame at the next vertical blank, and only of one that was shown; the timer is
/// started where it does not run.
pub proof fn law_client_told(
    shown: DrmModel,
    flipped: bool,
    crtc_id: u32,
    user_data: u64,
    now_ns: u64,
)
    ensures
        ({
            let r = flip_scheduled(shown, flipped, crtc_id, user_data, now_ns);
            &&& r.0 is Some <==> flipped && !shown.timer_armed
            &&& !flipped ==> r.1 == shown
            &&& flipped ==> r.1.pending == Some(PendingDrmTimer::Flip { crtc_id, user_data })
                && r.1.timer_armed
            &&& r.0 matches Some(t) ==> r.1.next_vblank == t
            &&& r.1.events == shown.events && r.1.crtc_fb == shown.crtc_fb
        }),
{
}

/// The cursor is painted again by software alone, for the terminal that owns the screen, over the frame
/// that is shown; the place it was at is painted over with a border of one pixel.
pub proof fn law_cursor_repainted(m: DrmModel, active_vt: usize)
    ensures
        repaint_of(m, active_vt) is Some <==> crate::drm::software_kms(m) && m.graphics_vt == Some(
            active_vt,
        ) && m.crtc_fb != 0 && (crate::drm::fb_of(m.framebuffers, m.crtc_fb) matches Some(fb)
            && fb.phys_addr != 0 && fb.size != 0),
        repaint_of(m, active_vt) matches Some(r) ==> {
            &&& r.fb == crate::drm::fb_of(m.framebuffers, m.crtc_fb)->0
            &&& r.draw == cursor_place(m.cursor)
            &&& m.cursor.drawn is None ==> r.restore is None
            &&& m.cursor.drawn matches Some(o) ==> r.restore == restore_blit(
                r.fb.size as int / 4,
                r.fb.pitch as int / 4,
                m.display->0.width,
                m.display->0.height,
                o.0 - 1,
                o.1 - 1,
                o.2 + 2,
                o.3 + 2,
            )
        },
        crate::drm::software_kms(m) && m.graphics_vt == Some(active_vt) ==> repainted(
            m,
            active_vt,
        ).cursor.drawn == cursor_place(m.cursor),
        !crate::drm::software_kms(m) || m.graphics_vt != Some(active_vt) ==> repainted(m, active_vt) == m,
{
}

/// The rows of a frame are drawn in bands of thirty-two, the last one shorter where they do not come out
/// even.
pub proof fn law_bands(k: int, height: u32, stride: usize, pixels: usize)
    requires
        0 <= k,
        has_band(k, height, stride, pixels),
    ensures
        band(k, height, stride).row == 32 * k,
        band(k, height, stride).rows == (if height - 32 * k < 32 {
            height - 32 * k
        } else {
            32
        }),
        band(k, height, stride).row + band(k, height, stride).rows <= height,
        band(k, height, stride).src_off == 32 * k * stride,
{
    reveal(band_off);
    let o = band_off(k, stride);
    assert(o == 32 * k * stride && o >= 0) by (nonlinear_arith)
        requires
            o == k * 32 * stride,
            0 <= k,
            0 <= stride,
    ;
}

/// On a return to a terminal the frame on the screen is drawn again, whole, exactly where that
/// terminal owns the screen and shows a frame. Elsewhere nothing is drawn and nothing changes. The
/// frame shown, the owner and the buffers stay as they were.
pub proof fn law_frame_presented_again(m: DrmModel, active_vt: usize)
    ensures
        presented_again(m, active_vt).0 is Some <==> m.graphics_vt == Some(active_vt) && m.crtc_fb
            > 0,
        presented_again(m, active_vt).0 matches Some(s) ==> s == scanout_of(m, m.crtc_fb, None),
        presented_again(m, active_vt).0 is None ==> presented_again(m, active_vt).1 == m,
        presented_again(m, active_vt).1.crtc_fb == m.crtc_fb,
        presented_again(m, active_vt).1.graphics_vt == m.graphics_vt,
        presented_again(m, active_vt).1.handles == m.handles,
        presented_again(m, active_vt).1.framebuffers == m.framebuffers,
        presented_again(m, active_vt).1.events == m.events,
        presented_again(m, active_vt).0 matches Some(s) ==> (s is Draw ==> presented_again(
            m,
            active_vt,
        ).1.cursor.drawn == cursor_place(m.cursor)),
{
}

/// A cursor image is read from a buffer that exists, has memory and holds all of its pixels, from the
/// beginning of that memory; an image without a buffer or without extent is read from nowhere.
pub proof fn law_image_source(m: DrmModel, handle_id: u32, w: u32, h: u32)
    ensures
        image_source(m, handle_id, w, h) is Some ==> handle_id != 0 && w != 0 && h != 0,
        image_source(m, handle_id, w, h) matches Some((addr, px)) ==> {
            &&& crate::drm::handle_of(m.handles, handle_id) matches Some(g) && g.phys_addr == addr
                && addr != 0 && 4 * (w * h) <= g.size
            &&& px == w * h
        },
        handle_id != 0 && w != 0 && h != 0 ==> (crate::drm::handle_of(m.handles, handle_id) matches Some(
            g,
        ) ==> (g.phys_addr != 0 && 4 * (w * h) <= g.size ==> image_source(m, handle_id, w, h)
            is Some)),
{
    assert(w * h <= u64::MAX) by (nonlinear_arith)
        requires
            w <= u32::MAX,
            h <= u32::MAX,
    ;
    assert(w * h >= 0) by (nonlinear_arith);
}

} // verus!
