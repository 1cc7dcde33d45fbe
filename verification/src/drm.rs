//! The display manager's state: GEM buffers, framebuffers, property blobs, completion events and
//! the atomic pipeline.
use vstd::prelude::*;
use std::collections::VecDeque;
use crate::bytes::{low32, push_u32, push_u64};

verus! {

/// Id of the synthetic CRTC.
pub const SYNTH_CRTC_ID: u32 = 1;

/// Id of the synthetic connector.
pub const SYNTH_CONNECTOR_ID: u32 = 2;

/// Id of the synthetic encoder.
pub const SYNTH_ENCODER_ID: u32 = 3;

/// Id of the synthetic primary plane.
pub const SYNTH_PLANE_ID: u32 = 4;

/// The first id of a property blob, far above those of every other kind of object.
pub const FIRST_BLOB_ID: u32 = 30000;

/// Ceiling on live GEM objects.
pub const MAX_LIVE_GEMS: usize = 64;

/// Nanoseconds between two synthetic vertical blanks: 60 Hz.
pub const VBLANK_PERIOD_NS: u64 = 16_666_667;

/// Event type of a vertical blank.
pub const DRM_EVENT_VBLANK: u32 = 1;

/// Event type of a completed page flip.
pub const DRM_EVENT_FLIP_COMPLETE: u32 = 2;

/// A buffer object.
#[derive(Clone, Copy, PartialEq, Eq, Structural, Debug)]
pub struct GemHandle {
    pub id: u32,
    pub size: usize,
    pub phys_addr: u64,
}

/// A live buffer object and the process it is charged to (0: none).
#[derive(Clone, Copy, PartialEq, Eq, Structural, Debug)]
pub struct GemEntry {
    pub handle: GemHandle,
    pub owner: u64,
}

/// A framebuffer object.
#[derive(Clone, Copy, PartialEq, Eq, Structural, Debug)]
pub struct DrmFramebuffer {
    pub id: u32,
    /// The driver's own framebuffer, where it made one.
    pub driver_fb_id: Option<u32>,
    /// The buffer that backs this framebuffer.
    pub gem_handle_id: u32,
    pub width: u32,
    pub height: u32,
    pub pitch: u32,
    pub phys_addr: u64,
    pub size: usize,
}

/// A property blob.
pub struct DrmBlob {
    pub id: u32,
    /// Whether user space created it; only such blobs can be destroyed.
    pub user_created: bool,
    pub data: Vec<u8>,
}

/// A property blob, mathematically.
pub struct BlobModel {
    pub id: u32,
    pub user_created: bool,
    pub data: Seq<u8>,
}

/// Last committed atomic state of the pipeline.
#[derive(Clone, Copy, PartialEq, Eq, Structural, Debug)]
pub struct AtomicKmsState {
    pub active: bool,
    /// Kernel-owned blob with the current mode (0: none committed).
    pub mode_blob_id: u32,
    pub crtc_x: i32,
    pub crtc_y: i32,
    pub crtc_w: u32,
    pub crtc_h: u32,
    /// Source rectangle, 16.16 fixed point.
    pub src_x: u32,
    pub src_y: u32,
    pub src_w: u32,
    pub src_h: u32,
}

impl Default for AtomicKmsState {
    fn default() -> (s: Self)
        ensures
            s == atomic_initial(),
    {
        AtomicKmsState {
            active: false,
            mode_blob_id: 0,
            crtc_x: 0,
            crtc_y: 0,
            crtc_w: 0,
            crtc_h: 0,
            src_x: 0,
            src_y: 0,
            src_w: 0,
            src_h: 0,
        }
    }
}

/// The pipeline before anything was committed.
pub open spec fn atomic_initial() -> AtomicKmsState {
    AtomicKmsState {
        active: false,
        mode_blob_id: 0,
        crtc_x: 0,
        crtc_y: 0,
        crtc_w: 0,
        crtc_h: 0,
        src_x: 0,
        src_y: 0,
        src_w: 0,
        src_h: 0,
    }
}

/// The composited cursor.
pub struct CursorState {
    pub visible: bool,
    pub x: i32,
    pub y: i32,
    pub w: u32,
    pub h: u32,
    /// Cursor pixels, once an image was set.
    pub bitmap: Option<Vec<u32>>,
    /// The rectangle `(x, y, w, h)` currently on the display.
    pub drawn: Option<(i32, i32, u32, u32)>,
}

/// The composited cursor, mathematically.
pub struct CursorModel {
    pub visible: bool,
    pub x: i32,
    pub y: i32,
    pub w: u32,
    pub h: u32,
    pub bitmap: Option<Seq<u32>>,
    pub drawn: Option<(i32, i32, u32, u32)>,
}

impl View for CursorState {
    type V = CursorModel;

    open spec fn view(&self) -> CursorModel {
        CursorModel {
            visible: self.visible,
            x: self.x,
            y: self.y,
            w: self.w,
            h: self.h,
            bitmap: match self.bitmap {
                Some(b) => Some(b@),
                None => None,
            },
            drawn: self.drawn,
        }
    }
}

/// One queued completion event.
#[derive(Clone, Copy, PartialEq, Eq, Structural, Debug)]
pub struct DrmEvent {
    pub ev_type: u32,
    pub user_data: u64,
    pub tv_sec: u32,
    pub tv_usec: u32,
    pub sequence: u32,
    pub crtc_id: u32,
}

/// A completion that waits for the next vertical blank.
#[derive(Clone, Copy, PartialEq, Eq, Structural, Debug)]
pub enum PendingDrmTimer {
    Flip { crtc_id: u32, user_data: u64 },
    Vblank { seq: u32, signal: u64 },
}

/// What the display manager knows of a registered driver.
#[derive(Clone, Copy, PartialEq, Eq, Structural, Debug)]
pub struct DriverInfo {
    /// The plain framebuffer driver, used only when there is no other.
    pub simplefb: bool,
    /// Whether the driver scans out by itself.
    pub hardware_kms: bool,
}

/// Geometry of the primary framebuffer display.
#[derive(Clone, Copy, PartialEq, Eq, Structural, Debug)]
pub struct DisplayInfo {
    pub width: u32,
    pub height: u32,
    pub pitch: u32,
}

/// The state of the display manager.
pub struct DrmState {
    pub drivers: Vec<DriverInfo>,
    /// The primary framebuffer display, where there is one.
    pub display: Option<DisplayInfo>,
    pub next_handle_id: u32,
    pub next_fb_id: u32,
    pub handles: Vec<GemEntry>,
    pub framebuffers: Vec<DrmFramebuffer>,
    /// Framebuffer bound to the CRTC.
    pub crtc_fb: u32,
    /// The virtual terminal on which the compositor owns the display.
    pub graphics_vt: Option<usize>,
    pub events: VecDeque<DrmEvent>,
    /// Whether readers of the card have been told that events wait.
    pub readable: bool,
    /// Uptime of the last synthetic vertical blank handed out, in nanoseconds.
    pub next_vblank: u64,
    pub cursor: CursorState,
    pub blobs: Vec<DrmBlob>,
    pub next_blob_id: u32,
    pub atomic: AtomicKmsState,
    pub flip_seq: u32,
    pub pending: Option<PendingDrmTimer>,
    pub timer_armed: bool,
    pub ce_present: bool,
    pub atomic_uapi: bool,
    pub client_atomic: bool,
    /// Buffers that are gone and of which the primary driver has yet to be told.
    pub freed: Vec<GemHandle>,
}

/// The state of the display manager, mathematically.
#[verifier::ext_equal]
pub struct DrmModel {
    pub drivers: Seq<DriverInfo>,
    pub display: Option<DisplayInfo>,
    pub next_handle_id: u32,
    pub next_fb_id: u32,
    pub handles: Seq<GemEntry>,
    pub framebuffers: Seq<DrmFramebuffer>,
    pub crtc_fb: u32,
    pub graphics_vt: Option<usize>,
    pub events: Seq<DrmEvent>,
    pub readable: bool,
    pub next_vblank: u64,
    pub cursor: CursorModel,
    pub blobs: Seq<BlobModel>,
    pub next_blob_id: u32,
    pub atomic: AtomicKmsState,
    pub flip_seq: u32,
    pub pending: Option<PendingDrmTimer>,
    pub timer_armed: bool,
    pub ce_present: bool,
    pub atomic_uapi: bool,
    pub client_atomic: bool,
    pub freed: Seq<GemHandle>,
}

/// A blob's model.
pub open spec fn blob_model(b: DrmBlob) -> BlobModel {
    BlobModel { id: b.id, user_created: b.user_created, data: b.data@ }
}

impl View for DrmState {
    type V = DrmModel;

    open spec fn view(&self) -> DrmModel {
        DrmModel {
            drivers: self.drivers@,
            display: self.display,
            next_handle_id: self.next_handle_id,
            next_fb_id: self.next_fb_id,
            handles: self.handles@,
            framebuffers: self.framebuffers@,
            crtc_fb: self.crtc_fb,
            graphics_vt: self.graphics_vt,
            events: self.events@,
            readable: self.readable,
            next_vblank: self.next_vblank,
            cursor: self.cursor@,
            blobs: self.blobs@.map_values(|b: DrmBlob| blob_model(b)),
            next_blob_id: self.next_blob_id,
            atomic: self.atomic,
            flip_seq: self.flip_seq,
            pending: self.pending,
            timer_armed: self.timer_armed,
            ce_present: self.ce_present,
            atomic_uapi: self.atomic_uapi,
            client_atomic: self.client_atomic,
            freed: self.freed@,
        }
    }
}

/// The state at boot, with the display that was found.
pub open spec fn drm_initial(display: Option<DisplayInfo>) -> DrmModel {
    DrmModel {
        drivers: Seq::empty(),
        display,
        next_handle_id: 1,
        next_fb_id: 1,
        handles: Seq::empty(),
        framebuffers: Seq::empty(),
        crtc_fb: 0,
        graphics_vt: None,
        events: Seq::empty(),
        readable: false,
        next_vblank: 0,
        cursor: CursorModel {
            visible: false,
            x: 0,
            y: 0,
            w: 0,
            h: 0,
            bitmap: None,
            drawn: None,
        },
        blobs: Seq::empty(),
        next_blob_id: FIRST_BLOB_ID,
        atomic: atomic_initial(),
        flip_seq: 0,
        pending: None,
        timer_armed: false,
        ce_present: false,
        atomic_uapi: false,
        client_atomic: false,
        freed: Seq::empty(),
    }
}

impl DrmState {
    pub fn new(display: Option<DisplayInfo>) -> (st: Self)
        ensures
            st@ == drm_initial(display),
            crate::drm_ids::well_named(st@),
    {
        let st = DrmState {
            drivers: Vec::new(),
            display,
            next_handle_id: 1,
            next_fb_id: 1,
            handles: Vec::new(),
            framebuffers: Vec::new(),
            crtc_fb: 0,
            graphics_vt: None,
            events: VecDeque::new(),
            readable: false,
            next_vblank: 0,
            cursor: CursorState {
                visible: false,
                x: 0,
                y: 0,
                w: 0,
                h: 0,
                bitmap: None,
                drawn: None,
            },
            blobs: Vec::new(),
            next_blob_id: FIRST_BLOB_ID,
            atomic: AtomicKmsState::default(),
            flip_seq: 0,
            pending: None,
            timer_armed: false,
            ce_present: false,
            atomic_uapi: false,
            client_atomic: false,
            freed: Vec::new(),
        };
        assert(st@ =~= drm_initial(display));
        proof {
            crate::drm_ids::law_well_named_at_boot(display);
        }
        st
    }
}

/// Switches the per-frame copy-engine present on or off.
pub fn set_ce_present_enabled(st: &mut DrmState, on: bool)
    ensures
        final(st)@ == (DrmModel { ce_present: on, ..old(st)@ }),
{
    st.ce_present = on;
}

/// Switches the atomic interface on or off.
pub fn set_atomic_enabled(st: &mut DrmState, on: bool)
    ensures
        final(st)@ == (DrmModel { atomic_uapi: on, ..old(st)@ }),
{
    st.atomic_uapi = on;
}

/// Whether the atomic interface is on.
pub fn atomic_enabled(st: &DrmState) -> (on: bool)
    ensures
        on == st@.atomic_uapi,
{
    st.atomic_uapi
}

/// Records whether the client negotiated the atomic capability.
pub fn set_atomic_client(st: &mut DrmState, on: bool)
    ensures
        final(st)@ == (DrmModel { client_atomic: on, ..old(st)@ }),
{
    st.client_atomic = on;
}

/// Whether the client is an atomic one.
pub fn atomic_client(st: &DrmState) -> (on: bool)
    ensures
        on == st@.client_atomic,
{
    st.client_atomic
}

/// Registers a driver: the plain framebuffer driver behind the others, any other in front.
pub fn register_driver(st: &mut DrmState, driver: DriverInfo)
    ensures
        final(st)@ == with_driver(old(st)@, driver),
{
    if driver.simplefb {
        st.drivers.push(driver);
    } else {
        st.drivers.insert(0, driver);
        assert(st.drivers@ =~= seq![driver] + old(st).drivers@);
    }
}

/// The first registered driver.
pub open spec fn primary(m: DrmModel) -> Option<DriverInfo> {
    if m.drivers.len() > 0 {
        Some(m.drivers[0])
    } else {
        None
    }
}

/// The primary driver.
pub fn get_primary_driver(st: &DrmState) -> (d: Option<DriverInfo>)
    ensures
        d == primary(st@),
{
    if st.drivers.len() > 0 {
        Some(st.drivers[0])
    } else {
        None
    }
}

/// Whether frames are blitted to the framebuffer display: there is one, and no registered driver
/// scans out by itself.
pub open spec fn software_kms(m: DrmModel) -> bool {
    &&& m.display is Some
    &&& forall|i: int| 0 <= i < m.drivers.len() ==> !(#[trigger] m.drivers[i]).hardware_kms
}

pub fn software_kms_active(st: &DrmState) -> (b: bool)
    ensures
        b == software_kms(st@),
{
    for i in 0..st.drivers.len()
        invariant
            forall|j: int| 0 <= j < i ==> !(#[trigger] st.drivers@[j]).hardware_kms,
    {
        if st.drivers[i].hardware_kms {
            assert(st@.drivers[i as int].hardware_kms);
            return false;
        }
    }
    st.display.is_some()
}

/// The next value of a 32-bit counter.
pub open spec fn next_u32(x: u32) -> u32 {
    if x == u32::MAX {
        0
    } else {
        (x + 1) as u32
    }
}

/// The number set aside for a buffer of `size` bytes, and the state afterwards.
pub open spec fn reserved(m: DrmModel, size: usize) -> (Option<u32>, DrmModel) {
    if size == 0 || m.handles.len() >= MAX_LIVE_GEMS {
        (None, m)
    } else {
        (
            Some(m.next_handle_id),
            DrmModel { next_handle_id: next_u32(m.next_handle_id), ..m },
        )
    }
}

/// Reserves a handle id for a buffer of `size` bytes, or refuses: empty buffers, and any buffer
/// while too many are live.
pub fn reserve_handle(st: &mut DrmState, size: usize) -> (id: Option<u32>)
    ensures
        id == reserved(old(st)@, size).0,
        final(st)@ == reserved(old(st)@, size).1,
        crate::drm_ids::well_named(old(st)@) && old(st)@.next_handle_id < u32::MAX
            ==> crate::drm_ids::well_named(final(st)@),
{
    proof {
        if crate::drm_ids::well_named(st@) && st@.next_handle_id < u32::MAX {
            crate::drm_ids::lemma_reserved_keeps_names(st@);
        }
    }
    if size == 0 {
        return None;
    }
    if st.handles.len() >= MAX_LIVE_GEMS {
        return None;
    }
    let id: u32 = st.next_handle_id;
    st.next_handle_id = st.next_handle_id.wrapping_add(1);
    Some(id)
}

/// Records a buffer under a reserved id, charged to `pid`.
pub fn record_handle(st: &mut DrmState, handle: GemHandle, pid: u64)
    ensures
        final(st)@ == (DrmModel {
            handles: old(st)@.handles.push(GemEntry { handle, owner: pid }),
            ..old(st)@
        }),
{
    st.handles.push(GemEntry { handle, owner: pid });
}

/// Allocates a buffer, given what the outside answers: the address of the contiguous backing
/// memory (`None`: no memory) and, where there is a driver, whether it accepts the buffer. Without a
/// driver the buffer is software's alone.
pub fn alloc_buffer(
    st: &mut DrmState,
    size: usize,
    backing: Option<u64>,
    accepted: bool,
    pid: u64,
) -> (r: Option<GemHandle>)
    ensures
        (r, final(st)@) == allocated(old(st)@, size, backing, accepted, pid),
        crate::drm_ids::well_named(old(st)@) && old(st)@.next_handle_id < u32::MAX
            ==> crate::drm_ids::well_named(final(st)@),
{
    let id: u32 = match reserve_handle(st, size) {
        None => {
            return None;
        },
        Some(id) => id,
    };
    let phys_addr: u64 = match backing {
        None => {
            return None;
        },
        Some(p) => p,
    };
    if !accepted && get_primary_driver(st).is_some() {
        return None;
    }
    let handle = GemHandle { id, size, phys_addr };
    record_handle(st, handle, pid);
    proof {
        if crate::drm_ids::well_named(old(st)@) && old(st)@.next_handle_id < u32::MAX {
            crate::drm_ids::law_import_keeps_names(old(st)@, GemEntry { handle, owner: pid });
        }
    }
    Some(handle)
}

/// The position, from `from` on, of the first buffer with an id; the length where there is none.
pub open spec fn handle_pos(hs: Seq<GemEntry>, id: u32, from: int) -> int
    decreases hs.len() - from,
{
    if from >= hs.len() || hs[from].handle.id == id {
        from
    } else {
        handle_pos(hs, id, from + 1)
    }
}

/// The buffer with an id.
pub open spec fn handle_of(hs: Seq<GemEntry>, id: u32) -> Option<GemHandle> {
    if handle_pos(hs, id, 0) < hs.len() {
        Some(hs[handle_pos(hs, id, 0)].handle)
    } else {
        None
    }
}

pub(crate) fn find_handle(hs: &Vec<GemEntry>, id: u32) -> (pos: Option<usize>)
    ensures
        pos == if handle_pos(hs@, id, 0) < hs@.len() {
            Some(handle_pos(hs@, id, 0) as usize)
        } else {
            None
        },
        pos matches Some(p) ==> p < hs@.len() && p == handle_pos(hs@, id, 0) && hs@[p as int].handle.id
            == id,
{
    let mut i: usize = 0;
    while i < hs.len()
        invariant
            i <= hs@.len(),
            handle_pos(hs@, id, 0) == handle_pos(hs@, id, i as int),
        decreases hs@.len() - i,
    {
        if hs[i].handle.id == id {
            return Some(i);
        }
        i = i + 1;
    }
    None
}

/// The buffer with an id.
pub fn get_handle(st: &DrmState, handle_id: u32) -> (h: Option<GemHandle>)
    ensures
        h == handle_of(st@.handles, handle_id),
{
    match find_handle(&st.handles, handle_id) {
        Some(p) => Some(st.handles[p].handle),
        None => None,
    }
}

/// Address and size of a buffer that is to be shared.
pub fn export_handle(st: &DrmState, handle_id: u32) -> (r: Option<(u64, usize)>)
    ensures
        r == match handle_of(st@.handles, handle_id) {
            Some(h) => Some((h.phys_addr, h.size)),
            None => None,
        },
{
    match get_handle(st, handle_id) {
        Some(h) => Some((h.phys_addr, h.size)),
        None => None,
    }
}

/// Registers a new handle over shared memory.
pub fn import_dmabuf(st: &mut DrmState, phys_addr: u64, size: usize, pid: u64) -> (id: u32)
    ensures
        id == old(st)@.next_handle_id,
        final(st)@ == (DrmModel {
            next_handle_id: next_u32(id),
            handles: old(st)@.handles.push(
                GemEntry { handle: GemHandle { id, size, phys_addr }, owner: pid },
            ),
            ..old(st)@
        }),
        crate::drm_ids::well_named(old(st)@) && old(st)@.next_handle_id < u32::MAX
            ==> crate::drm_ids::well_named(final(st)@),
{
    let id: u32 = st.next_handle_id;
    proof {
        if crate::drm_ids::well_named(st@) && st@.next_handle_id < u32::MAX {
            crate::drm_ids::law_import_keeps_names(
                st@,
                GemEntry { handle: GemHandle { id, size, phys_addr }, owner: pid },
            );
        }
    }
    st.next_handle_id = st.next_handle_id.wrapping_add(1);
    record_handle(st, GemHandle { id, size, phys_addr }, pid);
    id
}

/// The position, from `from` on, of the first framebuffer with an id; the length where there is
/// none.
pub open spec fn fb_pos(fbs: Seq<DrmFramebuffer>, id: u32, from: int) -> int
    decreases fbs.len() - from,
{
    if from >= fbs.len() || fbs[from].id == id {
        from
    } else {
        fb_pos(fbs, id, from + 1)
    }
}

/// The framebuffer with an id.
pub open spec fn fb_of(fbs: Seq<DrmFramebuffer>, id: u32) -> Option<DrmFramebuffer> {
    if fb_pos(fbs, id, 0) < fbs.len() {
        Some(fbs[fb_pos(fbs, id, 0)])
    } else {
        None
    }
}

pub(crate) fn find_fb(fbs: &Vec<DrmFramebuffer>, id: u32) -> (pos: Option<usize>)
    ensures
        pos is Some == (fb_pos(fbs@, id, 0) < fbs@.len()),
        pos matches Some(p) ==> p < fbs@.len() && p == fb_pos(fbs@, id, 0) && fbs@[p as int].id == id,
{
    let mut i: usize = 0;
    while i < fbs.len()
        invariant
            i <= fbs@.len(),
            fb_pos(fbs@, id, 0) == fb_pos(fbs@, id, i as int),
        decreases fbs@.len() - i,
    {
        if fbs[i].id == id {
            return Some(i);
        }
        i = i + 1;
    }
    None
}

/// The framebuffer with an id.
pub fn get_fb(st: &DrmState, fb_id: u32) -> (f: Option<DrmFramebuffer>)
    ensures
        f == fb_of(st@.framebuffers, fb_id),
        f matches Some(fb) ==> fb.id == fb_id,
{
    match find_fb(&st.framebuffers, fb_id) {
        Some(p) => Some(st.framebuffers[p]),
        None => None,
    }
}

/// The framebuffer that `create_fb` makes of a buffer: it must be non-empty and fit the buffer.
pub open spec fn new_fb(
    m: DrmModel,
    handle_id: u32,
    width: u32,
    height: u32,
    pitch: u32,
    driver_fb: Option<u32>,
) -> Option<DrmFramebuffer> {
    match handle_of(m.handles, handle_id) {
        None => None,
        Some(h) => if pitch * height == 0 || pitch * height > h.size {
            None
        } else {
            Some(
                DrmFramebuffer {
                    id: m.next_fb_id,
                    driver_fb_id: if software_kms(m) || primary(m) is None {
                        None
                    } else {
                        driver_fb
                    },
                    gem_handle_id: handle_id,
                    width,
                    height,
                    pitch,
                    phys_addr: h.phys_addr,
                    size: (pitch * height) as usize,
                },
            )
        },
    }
}

/// Creates a framebuffer over a buffer. `driver_fb` is the driver's own framebuffer, which counts
/// only where a driver scans out.
pub fn create_fb(
    st: &mut DrmState,
    handle_id: u32,
    width: u32,
    height: u32,
    pitch: u32,
    driver_fb: Option<u32>,
) -> (id: Option<u32>)
    ensures
        match new_fb(old(st)@, handle_id, width, height, pitch, driver_fb) {
            None => id is None && final(st)@ == old(st)@,
            Some(fb) => id == Some(fb.id) && final(st)@ == (DrmModel {
                framebuffers: old(st)@.framebuffers.push(fb),
                next_fb_id: next_u32(fb.id),
                ..old(st)@
            }),
        },
        crate::drm_ids::well_named(old(st)@) && old(st)@.next_fb_id < u32::MAX
            ==> crate::drm_ids::well_named(final(st)@),
{
    let handle = match get_handle(st, handle_id) {
        None => {
            return None;
        },
        Some(h) => h,
    };
    let wide: u64 = pitch as u64;
    let tall: u64 = height as u64;
    assert(pitch * height <= 0xffff_ffff * 0xffff_ffff) by (nonlinear_arith)
        requires
            0 <= pitch <= 0xffff_ffff,
            0 <= height <= 0xffff_ffff,
    ;
    let bytes: u64 = wide * tall;
    if bytes == 0 || bytes > handle.size as u64 {
        return None;
    }
    let size: usize = bytes as usize;
    let driver_fb_id = if software_kms_active(st) || get_primary_driver(st).is_none() {
        None
    } else {
        driver_fb
    };
    let fb_id: u32 = st.next_fb_id;
    st.next_fb_id = st.next_fb_id.wrapping_add(1);
    st.framebuffers.push(
        DrmFramebuffer {
            id: fb_id,
            driver_fb_id,
            gem_handle_id: handle_id,
            width,
            height,
            pitch,
            phys_addr: handle.phys_addr,
            size,
        },
    );
    proof {
        if crate::drm_ids::well_named(old(st)@) && old(st)@.next_fb_id < u32::MAX {
            crate::drm_ids::lemma_fb_made_keeps_names(old(st)@, st@.framebuffers.last());
        }
    }
    Some(fb_id)
}

/// Removes a framebuffer and unbinds it from the CRTC; says whether it existed.
pub fn rmfb(st: &mut DrmState, fb_id: u32) -> (found: bool)
    ensures
        found == (fb_of(old(st)@.framebuffers, fb_id) is Some),
        final(st)@ == fb_removed(old(st)@, fb_id),
        crate::drm_ids::well_named(old(st)@) ==> crate::drm_ids::well_named(final(st)@),
{
    proof {
        if crate::drm_ids::well_named(st@) {
            crate::drm_ids::lemma_fb_removed_keeps_names(st@, fb_id);
        }
    }
    if st.crtc_fb == fb_id {
        st.crtc_fb = 0;
    }
    match find_fb(&st.framebuffers, fb_id) {
        Some(p) => {
            st.framebuffers.remove(p);
            true
        },
        None => false,
    }
}

/// Native mode of the framebuffer display: `(width, height, pitch)`.
pub fn display_mode(st: &DrmState) -> (m: Option<(u32, u32, u32)>)
    ensures
        m == match st@.display {
            Some(d) => Some((d.width, d.height, d.pitch)),
            None => None,
        },
{
    match st.display {
        Some(d) => Some((d.width, d.height, d.pitch)),
        None => None,
    }
}

/// Binds a framebuffer to the CRTC.
pub fn set_crtc_fb(st: &mut DrmState, _crtc_id: u32, fb_id: u32)
    ensures
        final(st)@ == (DrmModel { crtc_fb: fb_id, ..old(st)@ }),
{
    st.crtc_fb = fb_id;
}

/// Forgets which virtual terminal the compositor owned.
pub fn clear_graphics_owner(st: &mut DrmState)
    ensures
        final(st)@ == (DrmModel { graphics_vt: None, ..old(st)@ }),
{
    st.graphics_vt = None;
}

/// Seconds and microseconds of an uptime in nanoseconds, as an event carries them.
pub open spec fn event_time(now_ns: u64) -> (u32, u32) {
    ((now_ns / 1_000_000_000 % 0x1_0000_0000) as u32, (now_ns % 1_000_000_000 / 1000) as u32)
}

/// Queues an event and marks the card readable.
fn push_drm_event(
    st: &mut DrmState,
    ev_type: u32,
    crtc_id: u32,
    seq: u32,
    user_data: u64,
    now_ns: u64,
)
    ensures
        final(st)@ == (DrmModel {
            events: old(st)@.events.push(
                DrmEvent {
                    ev_type,
                    user_data,
                    tv_sec: event_time(now_ns).0,
                    tv_usec: event_time(now_ns).1,
                    sequence: seq,
                    crtc_id,
                },
            ),
            readable: true,
            ..old(st)@
        }),
{
    st.events.push_back(
        DrmEvent {
            ev_type,
            user_data,
            tv_sec: low32(now_ns / 1_000_000_000),
            tv_usec: (now_ns % 1_000_000_000 / 1000) as u32,
            sequence: seq,
            crtc_id,
        },
    );
    st.readable = true;
}

/// The completion event of a page flip.
pub open spec fn flip_event(m: DrmModel, crtc_id: u32, user_data: u64, now_ns: u64) -> DrmEvent {
    DrmEvent {
        ev_type: DRM_EVENT_FLIP_COMPLETE,
        user_data,
        tv_sec: event_time(now_ns).0,
        tv_usec: event_time(now_ns).1,
        sequence: m.flip_seq,
        crtc_id,
    }
}

/// Queues the completion event of a page flip.
pub fn queue_flip_event(st: &mut DrmState, crtc_id: u32, user_data: u64, now_ns: u64)
    ensures
        final(st)@ == (DrmModel {
            events: old(st)@.events.push(flip_event(old(st)@, crtc_id, user_data, now_ns)),
            readable: true,
            flip_seq: next_u32(old(st)@.flip_seq),
            ..old(st)@
        }),
{
    let seq: u32 = st.flip_seq;
    st.flip_seq = st.flip_seq.wrapping_add(1);
    push_drm_event(st, DRM_EVENT_FLIP_COMPLETE, crtc_id, seq, user_data, now_ns);
}

/// The event of a vertical-blank wait.
pub open spec fn vblank_event(seq: u32, user_data: u64, now_ns: u64) -> DrmEvent {
    DrmEvent {
        ev_type: DRM_EVENT_VBLANK,
        user_data,
        tv_sec: event_time(now_ns).0,
        tv_usec: event_time(now_ns).1,
        sequence: seq,
        crtc_id: SYNTH_CRTC_ID,
    }
}

/// Queues the event of a vertical-blank wait.
pub fn queue_vblank_event(st: &mut DrmState, seq: u32, user_data: u64, now_ns: u64)
    ensures
        final(st)@ == (DrmModel {
            events: old(st)@.events.push(vblank_event(seq, user_data, now_ns)),
            readable: true,
            ..old(st)@
        }),
{
    push_drm_event(st, DRM_EVENT_VBLANK, SYNTH_CRTC_ID, seq, user_data, now_ns);
}

/// The synthetic 60 Hz vertical-blank counter at an uptime.
pub open spec fn vblank_seq_at(now_ns: u64) -> u32 {
    (now_ns * 60 / 1_000_000_000 % 0x1_0000_0000) as u32
}

pub fn vblank_seq_now(now_ns: u64) -> (seq: u32)
    ensures
        seq == vblank_seq_at(now_ns),
{
    let ticks: u128 = now_ns as u128 * 60 / 1_000_000_000;
    (ticks % 0x1_0000_0000) as u32
}

/// The wire form of an event: `struct drm_event_vblank`.
pub open spec fn event_bytes(e: DrmEvent) -> Seq<u8> {
    crate::bytes::le32(e.ev_type) + crate::bytes::le32(32) + crate::bytes::le64(e.user_data)
        + crate::bytes::le32(e.tv_sec) + crate::bytes::le32(e.tv_usec) + crate::bytes::le32(
        e.sequence,
    ) + crate::bytes::le32(e.crtc_id)
}

fn encode_event(e: &DrmEvent) -> (v: Vec<u8>)
    ensures
        v@ == event_bytes(*e),
        v@.len() == 32,
{
    let mut v: Vec<u8> = Vec::new();
    push_u32(&mut v, e.ev_type);
    push_u32(&mut v, 32);
    push_u64(&mut v, e.user_data);
    push_u32(&mut v, e.tv_sec);
    push_u32(&mut v, e.tv_usec);
    push_u32(&mut v, e.sequence);
    push_u32(&mut v, e.crtc_id);
    assert(v@ =~= event_bytes(*e));
    v
}

/// Takes the oldest event into `buf`. Nothing is taken while no event waits or the buffer cannot
/// hold a whole event.
pub fn read_event(st: &mut DrmState, buf: &mut [u8]) -> (n: Option<usize>)
    ensures
        final(buf)@.len() == old(buf)@.len(),
        n == if old(st)@.events.len() > 0 && old(buf)@.len() >= 32 {
            Some(32usize)
        } else {
            None
        },
        n is Some ==> {
            &&& final(buf)@ == crate::bytes::splice(old(buf)@, 0, event_bytes(old(st)@.events[0]))
            &&& final(st)@ == event_taken(old(st)@)
        },
        n is None ==> final(buf)@ == old(buf)@ && final(st)@ == old(st)@,
{
    if st.events.len() == 0 || buf.len() < 32 {
        return None;
    }
    let e = st.events[0];
    let v = encode_event(&e);
    crate::bytes::copy_into(buf, 0, v.as_slice());
    let _ = st.events.pop_front();
    assert(st.events@ =~= old(st).events@.drop_first());
    if st.events.len() == 0 {
        st.readable = false;
    }
    Some(32)
}

/// Whether events wait to be read.
pub fn has_events(st: &DrmState) -> (b: bool)
    ensures
        b == (st@.events.len() > 0),
{
    st.events.len() > 0
}

/// `a + b`, at most `u64::MAX`.
pub open spec fn sat_add(a: u64, b: u64) -> u64 {
    if a + b > u64::MAX {
        u64::MAX
    } else {
        (a + b) as u64
    }
}

/// When the next completion may be delivered: one period after the previous vertical blank, or
/// one period from now where that is already past.
pub open spec fn vblank_deadline(m: DrmModel, now_ns: u64) -> u64 {
    if sat_add(m.next_vblank, VBLANK_PERIOD_NS) <= now_ns {
        sat_add(now_ns, VBLANK_PERIOD_NS)
    } else {
        sat_add(m.next_vblank, VBLANK_PERIOD_NS)
    }
}

/// Advances the vertical-blank clock.
pub fn next_vblank_deadline(st: &mut DrmState, now_ns: u64) -> (at: u64)
    ensures
        at == vblank_deadline(old(st)@, now_ns),
        final(st)@ == (DrmModel { next_vblank: at, ..old(st)@ }),
{
    let mut next: u64 = st.next_vblank.saturating_add(VBLANK_PERIOD_NS);
    if next <= now_ns {
        next = now_ns.saturating_add(VBLANK_PERIOD_NS);
    }
    st.next_vblank = next;
    next
}

/// The state after a completion was scheduled: it replaces one that waits, and at most one timer
/// runs.
pub open spec fn armed(m: DrmModel, job: PendingDrmTimer, now_ns: u64) -> DrmModel {
    DrmModel {
        pending: Some(job),
        timer_armed: true,
        next_vblank: if m.timer_armed { m.next_vblank } else { vblank_deadline(m, now_ns) },
        ..m
    }
}

/// Schedules a completion for the next vertical blank. Gives the time at which a timer has to be
/// set, where none runs yet.
pub fn arm_coalesced_drm_timer(st: &mut DrmState, job: PendingDrmTimer, now_ns: u64) -> (at: Option<
    u64,
>)
    ensures
        at == if old(st)@.timer_armed {
            None
        } else {
            Some(vblank_deadline(old(st)@, now_ns))
        },
        final(st)@ == armed(old(st)@, job, now_ns),
{
    st.pending = Some(job);
    if st.timer_armed {
        return None;
    }
    st.timer_armed = true;
    Some(next_vblank_deadline(st, now_ns))
}

/// Schedules the completion of a page flip.
pub fn schedule_flip_event(st: &mut DrmState, crtc_id: u32, user_data: u64, now_ns: u64) -> (at:
    Option<u64>)
    ensures
        at == if old(st)@.timer_armed {
            None
        } else {
            Some(vblank_deadline(old(st)@, now_ns))
        },
        final(st)@ == armed(old(st)@, PendingDrmTimer::Flip { crtc_id, user_data }, now_ns),
{
    arm_coalesced_drm_timer(st, PendingDrmTimer::Flip { crtc_id, user_data }, now_ns)
}

/// Schedules the event of a vertical-blank wait; `signal` is echoed in the event.
pub fn schedule_vblank_event(st: &mut DrmState, signal: u64, now_ns: u64) -> (at: Option<u64>)
    ensures
        at == if old(st)@.timer_armed {
            None
        } else {
            Some(vblank_deadline(old(st)@, now_ns))
        },
        final(st)@ == armed(
            old(st)@,
            PendingDrmTimer::Vblank { seq: next_u32(vblank_seq_at(now_ns)), signal },
            now_ns,
        ),
{
    let seq: u32 = vblank_seq_now(now_ns).wrapping_add(1);
    arm_coalesced_drm_timer(st, PendingDrmTimer::Vblank { seq, signal }, now_ns)
}

/// The state after the timer fired.
pub open spec fn delivered(m: DrmModel, now_ns: u64) -> DrmModel {
    let idle = DrmModel { pending: None, timer_armed: false, ..m };
    match m.pending {
        None => idle,
        Some(PendingDrmTimer::Flip { crtc_id, user_data }) => DrmModel {
            events: m.events.push(flip_event(m, crtc_id, user_data, now_ns)),
            readable: true,
            flip_seq: next_u32(m.flip_seq),
            ..idle
        },
        Some(PendingDrmTimer::Vblank { seq, signal }) => DrmModel {
            events: m.events.push(vblank_event(seq, signal, now_ns)),
            readable: true,
            ..idle
        },
    }
}

/// The timer fired: queues the event of the waiting completion.
pub fn deliver_pending_drm_timer(st: &mut DrmState, now_ns: u64)
    ensures
        final(st)@ == delivered(old(st)@, now_ns),
{
    st.timer_armed = false;
    match st.pending.take() {
        Some(PendingDrmTimer::Flip { crtc_id, user_data }) => {
            queue_flip_event(st, crtc_id, user_data, now_ns);
        },
        Some(PendingDrmTimer::Vblank { seq, signal }) => {
            queue_vblank_event(st, seq, signal, now_ns);
        },
        None => {},
    }
}

/// Events are paced: two timers are set at least one period apart, and none fires in the past.
pub proof fn law_vblank_paced(m: DrmModel, now_ns: u64)
    requires
        m.next_vblank + VBLANK_PERIOD_NS <= u64::MAX,
        now_ns + VBLANK_PERIOD_NS <= u64::MAX,
    ensures
        vblank_deadline(m, now_ns) >= m.next_vblank + VBLANK_PERIOD_NS,
        vblank_deadline(m, now_ns) > now_ns,
{
}

/// A scheduled flip that nothing replaces is read back as one event with the caller's token.
pub proof fn law_flip_roundtrip(m: DrmModel, crtc_id: u32, user_data: u64, t0: u64, t1: u64)
    ensures
        ({
            let after = delivered(
                armed(m, PendingDrmTimer::Flip { crtc_id, user_data }, t0),
                t1,
            );
            &&& after.events == m.events.push(flip_event(m, crtc_id, user_data, t1))
            &&& after.pending is None
            &&& !after.timer_armed
            &&& after.flip_seq == next_u32(m.flip_seq)
        }),
{
}

/// Events are as long as their header says, and carry the caller's token at its place.
pub proof fn law_event_layout(e: DrmEvent)
    ensures
        event_bytes(e).len() == 32,
        crate::bytes::u32_at(event_bytes(e), 4) == 32,
        crate::bytes::u32_at(event_bytes(e), 0) == e.ev_type,
        crate::bytes::u32_at(event_bytes(e), 28) == e.crtc_id,
        crate::bytes::u64_at(event_bytes(e), 8) == e.user_data,
{
    crate::bytes::law_le32_roundtrip(e.ev_type);
    crate::bytes::law_le32_roundtrip(32);
    crate::bytes::law_le32_roundtrip(e.crtc_id);
    crate::bytes::law_le64_roundtrip(e.user_data);
    let b = event_bytes(e);
    assert(forall|k: int| 0 <= k < 8 ==> b[8 + k] == crate::bytes::le64(e.user_data)[k]);
}

/// The position, from `from` on, of the first blob with an id; the length where there is none.
pub open spec fn blob_pos(bs: Seq<BlobModel>, id: u32, from: int) -> int
    decreases bs.len() - from,
{
    if from >= bs.len() || bs[from].id == id {
        from
    } else {
        blob_pos(bs, id, from + 1)
    }
}

/// The contents of the blob with an id.
pub open spec fn blob_of(bs: Seq<BlobModel>, id: u32) -> Option<Seq<u8>> {
    if blob_pos(bs, id, 0) < bs.len() {
        Some(bs[blob_pos(bs, id, 0)].data)
    } else {
        None
    }
}

/// The models of the blobs.
pub open spec fn blob_models(bs: Seq<DrmBlob>) -> Seq<BlobModel> {
    bs.map_values(|b: DrmBlob| blob_model(b))
}

pub(crate) fn find_blob(bs: &Vec<DrmBlob>, id: u32) -> (pos: Option<usize>)
    ensures
        pos is Some == (blob_pos(blob_models(bs@), id, 0) < bs@.len()),
        pos matches Some(p) ==> p < bs@.len() && p == blob_pos(blob_models(bs@), id, 0)
            && bs@[p as int].id == id,
{
    let mut i: usize = 0;
    while i < bs.len()
        invariant
            i <= bs@.len(),
            blob_pos(blob_models(bs@), id, 0) == blob_pos(blob_models(bs@), id, i as int),
        decreases bs@.len() - i,
    {
        if bs[i].id == id {
            return Some(i);
        }
        i = i + 1;
    }
    None
}

/// The state once a property blob was created.
pub open spec fn blob_created(m: DrmModel, data: Seq<u8>, user_created: bool) -> DrmModel {
    DrmModel {
        next_blob_id: next_u32(m.next_blob_id),
        blobs: m.blobs.push(BlobModel { id: m.next_blob_id, user_created, data }),
        ..m
    }
}

/// The state once a property blob was destroyed: one that is not there, or that the kernel made,
/// changes nothing.
pub open spec fn blob_destroyed(m: DrmModel, id: u32) -> DrmModel {
    let p = blob_pos(m.blobs, id, 0);
    if p < m.blobs.len() && m.blobs[p].user_created {
        DrmModel { blobs: m.blobs.remove(p), ..m }
    } else {
        m
    }
}

/// Creates a property blob.
pub fn create_blob(st: &mut DrmState, data: Vec<u8>, user_created: bool) -> (id: u32)
    ensures
        id == old(st)@.next_blob_id,
        final(st)@ == blob_created(old(st)@, data@, user_created),
        crate::drm_ids::well_named(old(st)@) && id < u32::MAX ==> crate::drm_ids::well_named(
            final(st)@,
        ),
{
    proof {
        if crate::drm_ids::well_named(st@) && st@.next_blob_id < u32::MAX {
            crate::drm_ids::lemma_created_keeps_names(st@, data@, user_created);
        }
    }
    let id: u32 = st.next_blob_id;
    st.next_blob_id = st.next_blob_id.wrapping_add(1);
    st.blobs.push(DrmBlob { id, user_created, data });
    assert(st@.blobs =~= old(st)@.blobs.push(BlobModel { id, user_created, data: data@ }));
    id
}

/// A copy of a byte vector.
pub(crate) fn copy_bytes(v: &Vec<u8>) -> (c: Vec<u8>)
    ensures
        c@ == v@,
{
    let mut c: Vec<u8> = Vec::new();
    let mut i: usize = 0;
    while i < v.len()
        invariant
            i <= v@.len(),
            c@ == v@.subrange(0, i as int),
        decreases v@.len() - i,
    {
        c.push(v[i]);
        i = i + 1;
        assert(c@ =~= v@.subrange(0, i as int));
    }
    assert(v@.subrange(0, i as int) =~= v@);
    c
}

/// The contents of a blob.
pub fn get_blob(st: &DrmState, id: u32) -> (data: Option<Vec<u8>>)
    ensures
        match blob_of(st@.blobs, id) {
            Some(d) => data matches Some(v) && v@ == d,
            None => data is None,
        },
{
    match find_blob(&st.blobs, id) {
        Some(p) => Some(copy_bytes(&st.blobs[p].data)),
        None => None,
    }
}

/// Outcome of destroying a blob.
#[derive(Clone, Copy, PartialEq, Eq, Structural, Debug)]
pub enum BlobDestroy {
    Destroyed,
    NotFound,
    /// A blob the kernel made.
    KernelOwned,
}

/// Destroys a blob that user space created.
pub fn destroy_blob(st: &mut DrmState, id: u32) -> (r: BlobDestroy)
    ensures
        ({
            let bs = old(st)@.blobs;
            let p = blob_pos(bs, id, 0);
            if p >= bs.len() {
                r == BlobDestroy::NotFound && final(st)@ == old(st)@
            } else if !bs[p].user_created {
                r == BlobDestroy::KernelOwned && final(st)@ == old(st)@
            } else {
                r == BlobDestroy::Destroyed && final(st)@ == blob_destroyed(old(st)@, id)
            }
        }),
        crate::drm_ids::well_named(old(st)@) ==> crate::drm_ids::well_named(final(st)@),
{
    proof {
        if crate::drm_ids::well_named(st@) {
            crate::drm_ids::lemma_destroyed_keeps_names(st@, id);
        }
    }
    match find_blob(&st.blobs, id) {
        None => BlobDestroy::NotFound,
        Some(p) => {
            if !st.blobs[p].user_created {
                BlobDestroy::KernelOwned
            } else {
                st.blobs.remove(p);
                assert(st@.blobs =~= old(st)@.blobs.remove(p as int));
                BlobDestroy::Destroyed
            }
        },
    }
}

/// The pipeline's committed state and the framebuffer on the CRTC.
pub fn atomic_snapshot(st: &DrmState) -> (r: (AtomicKmsState, u32))
    ensures
        r == (st@.atomic, st@.crtc_fb),
{
    (st.atomic, st.crtc_fb)
}

/// The buffers of a process.
pub open spec fn owned_by(hs: Seq<GemEntry>, pid: u64) -> Seq<GemHandle>
    decreases hs.len(),
{
    if hs.len() == 0 {
        Seq::empty()
    } else {
        let rest = owned_by(hs.drop_last(), pid);
        if hs.last().owner == pid {
            rest.push(hs.last().handle)
        } else {
            rest
        }
    }
}

/// The buffers that do not belong to a process.
pub open spec fn not_owned_by(hs: Seq<GemEntry>, pid: u64) -> Seq<GemEntry>
    decreases hs.len(),
{
    if hs.len() == 0 {
        Seq::empty()
    } else {
        let rest = not_owned_by(hs.drop_last(), pid);
        if hs.last().owner == pid {
            rest
        } else {
            rest.push(hs.last())
        }
    }
}

/// Whether one of the buffers has an id.
pub open spec fn names(hs: Seq<GemHandle>, id: u32) -> bool {
    exists|k: int| 0 <= k < hs.len() && (#[trigger] hs[k]).id == id
}

/// The framebuffers that do not lie on one of the buffers.
pub open spec fn fbs_off(fbs: Seq<DrmFramebuffer>, doomed: Seq<GemHandle>) -> Seq<DrmFramebuffer>
    decreases fbs.len(),
{
    if fbs.len() == 0 {
        Seq::empty()
    } else {
        let rest = fbs_off(fbs.drop_last(), doomed);
        if names(doomed, fbs.last().gem_handle_id) {
            rest
        } else {
            rest.push(fbs.last())
        }
    }
}

/// The state after a process is gone.
pub open spec fn released(m: DrmModel, pid: u64) -> DrmModel {
    let doomed = owned_by(m.handles, pid);
    if pid == 0 || doomed.len() == 0 {
        m
    } else {
        let fbs = fbs_off(m.framebuffers, doomed);
        DrmModel {
            handles: not_owned_by(m.handles, pid),
            framebuffers: fbs,
            crtc_fb: if fb_of(fbs, m.crtc_fb) is Some { m.crtc_fb } else { 0 },
            freed: if primary(m) is Some { m.freed + doomed } else { m.freed },
            ..m
        }
    }
}

fn contains_handle(hs: &Vec<GemHandle>, id: u32) -> (b: bool)
    ensures
        b == names(hs@, id),
{
    let mut i: usize = 0;
    while i < hs.len()
        invariant
            i <= hs@.len(),
            forall|k: int| 0 <= k < i ==> (#[trigger] hs@[k]).id != id,
        decreases hs@.len() - i,
    {
        if hs[i].id == id {
            assert(hs@[i as int].id == id);
            return true;
        }
        i = i + 1;
    }
    false
}

/// Releases every buffer of a process, and every framebuffer on one of them; says how many
/// buffers went. Process 0 stands for "no process" and owns nothing.
pub fn release_process(st: &mut DrmState, pid: u64) -> (n: usize)
    ensures
        n == if pid == 0 { 0 } else { owned_by(old(st)@.handles, pid).len() },
        final(st)@ == released(old(st)@, pid),
        crate::drm_ids::well_named(old(st)@) ==> crate::drm_ids::well_named(final(st)@),
{
    proof {
        if crate::drm_ids::well_named(st@) {
            crate::drm_ids::law_release_keeps_names(st@, pid);
        }
    }
    if pid == 0 {
        return 0;
    }
    let ghost hs = st.handles@;
    let mut doomed: Vec<GemHandle> = Vec::new();
    let mut kept: Vec<GemEntry> = Vec::new();
    let mut i: usize = 0;
    while i < st.handles.len()
        invariant
            i <= hs.len(),
            st@ == old(st)@,
            st.handles@ == hs,
            doomed@ == owned_by(hs.subrange(0, i as int), pid),
            kept@ == not_owned_by(hs.subrange(0, i as int), pid),
        decreases hs.len() - i,
    {
        let e = st.handles[i];
        assert(hs.subrange(0, i + 1).drop_last() =~= hs.subrange(0, i as int));
        if e.owner == pid {
            doomed.push(e.handle);
        } else {
            kept.push(e);
        }
        i = i + 1;
    }
    assert(hs.subrange(0, i as int) =~= hs);
    if doomed.len() == 0 {
        return 0;
    }
    let ghost fbs = st.framebuffers@;
    let mut left: Vec<DrmFramebuffer> = Vec::new();
    let mut j: usize = 0;
    while j < st.framebuffers.len()
        invariant
            j <= fbs.len(),
            st@ == old(st)@,
            st.framebuffers@ == fbs,
            left@ == fbs_off(fbs.subrange(0, j as int), doomed@),
        decreases fbs.len() - j,
    {
        let fb = st.framebuffers[j];
        assert(fbs.subrange(0, j + 1).drop_last() =~= fbs.subrange(0, j as int));
        if !contains_handle(&doomed, fb.gem_handle_id) {
            left.push(fb);
        }
        j = j + 1;
    }
    assert(fbs.subrange(0, j as int) =~= fbs);
    let n: usize = doomed.len();
    st.handles = kept;
    st.framebuffers = left;
    if find_fb(&st.framebuffers, st.crtc_fb).is_none() {
        st.crtc_fb = 0;
    }
    if st.drivers.len() > 0 {
        st.freed.append(&mut doomed);
    }
    n
}

/// Hands over the buffers that are gone, for the primary driver to be told of.
pub fn take_freed(st: &mut DrmState) -> (v: Vec<GemHandle>)
    ensures
        v@ == old(st)@.freed,
        final(st)@ == (DrmModel { freed: Seq::empty(), ..old(st)@ }),
{
    let mut v: Vec<GemHandle> = Vec::new();
    v.append(&mut st.freed);
    assert(v@ =~= old(st)@.freed);
    assert(st.freed@ =~= Seq::empty());
    v
}

/// Closes a buffer; says whether it existed.
pub fn gem_close(st: &mut DrmState, handle_id: u32) -> (found: bool)
    ensures
        found == (handle_of(old(st)@.handles, handle_id) is Some),
        final(st)@ == handle_closed(old(st)@, handle_id),
        crate::drm_ids::well_named(old(st)@) ==> crate::drm_ids::well_named(final(st)@),
{
    proof {
        if crate::drm_ids::well_named(st@) {
            crate::drm_ids::lemma_closed_keeps_names(st@, handle_id);
        }
    }
    match find_handle(&st.handles, handle_id) {
        Some(p) => {
            let handle = st.handles[p].handle;
            st.handles.remove(p);
            if st.drivers.len() > 0 {
                st.freed.push(handle);
            }
            true
        },
        None => false,
    }
}

proof fn lemma_owned(hs: Seq<GemEntry>, pid: u64)
    ensures
        forall|k: int|
            0 <= k < not_owned_by(hs, pid).len() ==> (#[trigger] not_owned_by(hs, pid)[k]).owner
                != pid && hs.contains(not_owned_by(hs, pid)[k]),
        forall|k: int|
            0 <= k < hs.len() ==> if (#[trigger] hs[k]).owner == pid {
                names(owned_by(hs, pid), hs[k].handle.id)
            } else {
                not_owned_by(hs, pid).contains(hs[k])
            },
        owned_by(not_owned_by(hs, pid), pid).len() == 0,
        owned_by(hs, pid).len() + not_owned_by(hs, pid).len() == hs.len(),
    decreases hs.len(),
{
    if hs.len() > 0 {
        let front = hs.drop_last();
        let last = hs.last();
        lemma_owned(front, pid);
        let n = not_owned_by(hs, pid);
        let o = owned_by(hs, pid);
        assert forall|k: int| 0 <= k < n.len() implies (#[trigger] n[k]).owner != pid
            && hs.contains(n[k]) by {
            if k < not_owned_by(front, pid).len() {
                assert(n[k] == not_owned_by(front, pid)[k]);
                let j = choose|j: int| 0 <= j < front.len() && front[j] == n[k];
                assert(hs[j] == n[k]);
            } else {
                assert(hs[hs.len() - 1] == n[k]);
            }
        }
        assert forall|k: int| 0 <= k < hs.len() implies if (#[trigger] hs[k]).owner == pid {
            names(o, hs[k].handle.id)
        } else {
            n.contains(hs[k])
        } by {
            if k < front.len() {
                assert(front[k] == hs[k]);
                if hs[k].owner == pid {
                    let fo = owned_by(front, pid);
                    let j = choose|j: int| 0 <= j < fo.len() && (#[trigger] fo[j]).id
                        == hs[k].handle.id;
                    assert(o[j] == fo[j]);
                } else {
                    let fm = not_owned_by(front, pid);
                    let j = choose|j: int| 0 <= j < fm.len() && fm[j] == hs[k];
                    assert(n[j] == hs[k]);
                }
            } else if last.owner == pid {
                assert(o[o.len() - 1].id == last.handle.id);
            } else {
                assert(n[n.len() - 1] == last);
            }
        }
        if last.owner != pid {
            assert(n.drop_last() =~= not_owned_by(front, pid));
        }
    }
}

/// A process exit takes exactly that process's buffers: none of its buffers is left, every other
/// buffer is, and a second exit takes nothing more.
pub proof fn law_release_exact(m: DrmModel, pid: u64, k: int)
    requires
        pid != 0,
        0 <= k < m.handles.len(),
    ensures
        released(m, pid).handles.contains(m.handles[k]) <==> m.handles[k].owner != pid,
        owned_by(released(m, pid).handles, pid).len() == 0,
        released(released(m, pid), pid) == released(m, pid),
{
    lemma_owned(m.handles, pid);
    let n = released(m, pid).handles;
    if owned_by(m.handles, pid).len() == 0 {
        assert(n == m.handles);
        if m.handles[k].owner == pid {
            assert(names(owned_by(m.handles, pid), m.handles[k].handle.id));
        }
    } else {
        assert(n == not_owned_by(m.handles, pid));
        if n.contains(m.handles[k]) {
            let j = choose|j: int| 0 <= j < n.len() && n[j] == m.handles[k];
            assert(n[j].owner != pid);
        }
    }
}

/// Buffers allocated without a process are never reclaimed.
pub proof fn law_unowned_survive(m: DrmModel, pid: u64, k: int)
    requires
        0 <= k < m.handles.len(),
        m.handles[k].owner == 0,
    ensures
        released(m, pid).handles.contains(m.handles[k]),
{
    lemma_owned(m.handles, pid);
    if released(m, pid) == m {
        assert(m.handles.contains(m.handles[k]));
    }
}

proof fn lemma_fbs_off(fbs: Seq<DrmFramebuffer>, doomed: Seq<GemHandle>)
    ensures
        forall|k: int|
            0 <= k < fbs_off(fbs, doomed).len() ==> !names(
                doomed,
                (#[trigger] fbs_off(fbs, doomed)[k]).gem_handle_id,
            ) && fbs.contains(fbs_off(fbs, doomed)[k]),
    decreases fbs.len(),
{
    if fbs.len() > 0 {
        let front = fbs.drop_last();
        lemma_fbs_off(front, doomed);
        let r = fbs_off(fbs, doomed);
        assert forall|k: int| 0 <= k < r.len() implies !names(doomed, (#[trigger] r[k]).gem_handle_id)
            && fbs.contains(r[k]) by {
            let fr = fbs_off(front, doomed);
            if k < fr.len() {
                assert(r[k] == fr[k]);
                let j = choose|j: int| 0 <= j < front.len() && front[j] == fr[k];
                assert(fbs[j] == r[k]);
            } else {
                assert(fbs[fbs.len() - 1] == r[k]);
            }
        }
    }
}

/// After a process exit no framebuffer lies on one of its buffers, and the CRTC shows either
/// nothing or a framebuffer that exists (where it did so before, or where a buffer went).
pub proof fn law_release_drops_framebuffers(m: DrmModel, pid: u64, k: int)
    requires
        pid != 0,
        owned_by(m.handles, pid).len() > 0,
        0 <= k < released(m, pid).framebuffers.len(),
    ensures
        !names(owned_by(m.handles, pid), released(m, pid).framebuffers[k].gem_handle_id),
        released(m, pid).crtc_fb == 0 || fb_of(
            released(m, pid).framebuffers,
            released(m, pid).crtc_fb,
        ) is Some,
{
    lemma_fbs_off(m.framebuffers, owned_by(m.handles, pid));
}

/// What allocating a buffer gives, and the card after it.
pub open spec fn allocated(
    m: DrmModel,
    size: usize,
    backing: Option<u64>,
    accepted: bool,
    pid: u64,
) -> (Option<GemHandle>, DrmModel) {
    let bumped = DrmModel { next_handle_id: next_u32(m.next_handle_id), ..m };
    if size == 0 || m.handles.len() >= MAX_LIVE_GEMS {
        (None, m)
    } else if backing is None || (primary(m) is Some && !accepted) {
        (None, bumped)
    } else {
        let handle = GemHandle { id: m.next_handle_id, size, phys_addr: backing->Some_0 };
        (
            Some(handle),
            DrmModel { handles: m.handles.push(GemEntry { handle, owner: pid }), ..bumped },
        )
    }
}

/// The card with one more driver: the plain one goes last.
pub open spec fn with_driver(m: DrmModel, driver: DriverInfo) -> DrmModel {
    DrmModel {
        drivers: if driver.simplefb {
            m.drivers.push(driver)
        } else {
            seq![driver] + m.drivers
        },
        ..m
    }
}

/// The card without a framebuffer.
pub open spec fn fb_removed(m: DrmModel, fb_id: u32) -> DrmModel {
    DrmModel {
        crtc_fb: if m.crtc_fb == fb_id {
            0
        } else {
            m.crtc_fb
        },
        framebuffers: if fb_of(m.framebuffers, fb_id) is Some {
            m.framebuffers.remove(fb_pos(m.framebuffers, fb_id, 0))
        } else {
            m.framebuffers
        },
        ..m
    }
}

/// The card without a buffer, of which the primary driver is to be told.
pub open spec fn handle_closed(m: DrmModel, handle_id: u32) -> DrmModel {
    match handle_of(m.handles, handle_id) {
        Some(h) => DrmModel {
            handles: m.handles.remove(handle_pos(m.handles, handle_id, 0)),
            freed: if primary(m) is Some {
                m.freed.push(h)
            } else {
                m.freed
            },
            ..m
        },
        None => m,
    }
}

/// The card after its oldest event was read.
pub open spec fn event_taken(m: DrmModel) -> DrmModel {
    DrmModel {
        events: m.events.drop_first(),
        readable: m.events.len() > 1 && m.readable,
        ..m
    }
}

/// The driver registered last is the primary one, but for the plain framebuffer driver, which is primary
/// only where there is no other.
pub proof fn law_primary_driver(m: DrmModel, d: DriverInfo)
    ensures
        !d.simplefb ==> primary(with_driver(m, d)) == Some(d),
        d.simplefb && m.drivers.len() == 0 ==> primary(with_driver(m, d)) == Some(d),
        d.simplefb && m.drivers.len() > 0 ==> primary(with_driver(m, d)) == Some(m.drivers[0]),
        with_driver(m, d).drivers.len() == m.drivers.len() + 1,
{
}

/// Software drives the display where there is one and no driver scans out by itself: one driver that
/// does is enough to end that.
pub proof fn law_software_scanout(m: DrmModel, d: DriverInfo)
    ensures
        software_kms(with_driver(m, d)) <==> software_kms(m) && !d.hardware_kms,
        m.drivers.len() == 0 ==> (software_kms(m) <==> m.display is Some),
{
    let n = with_driver(m, d);
    if software_kms(n) {
        assert forall|i: int| 0 <= i < m.drivers.len() implies !(#[trigger] m.drivers[i]).hardware_kms by {
            if d.simplefb {
                assert(n.drivers[i] == m.drivers[i]);
            } else {
                assert(n.drivers[i + 1] == m.drivers[i]);
            }
        }
        if d.simplefb {
            assert(n.drivers[m.drivers.len() as int] == d);
        } else {
            assert(n.drivers[0] == d);
        }
    }
}

/// A buffer is handed out where it has a size and memory, fewer than 64 are live, and the primary driver,
/// where there is one, takes it; it gets the next number and the process as its owner.
pub proof fn law_allocation(m: DrmModel, size: usize, backing: Option<u64>, accepted: bool, pid: u64)
    ensures
        allocated(m, size, backing, accepted, pid).0 is Some <==> size > 0 && m.handles.len() < 64
            && backing is Some && (m.drivers.len() == 0 || accepted),
        allocated(m, size, backing, accepted, pid).0 matches Some(h) ==> {
            let n = allocated(m, size, backing, accepted, pid).1;
            &&& h.id == m.next_handle_id && h.size == size && h.phys_addr == backing->0
            &&& n.handles == m.handles.push(GemEntry { handle: h, owner: pid })
            &&& m.next_handle_id < u32::MAX ==> n.next_handle_id == m.next_handle_id + 1
            &&& n.framebuffers == m.framebuffers && n.blobs == m.blobs && n.events == m.events
        },
        allocated(m, size, backing, accepted, pid).0 is None ==> allocated(
            m,
            size,
            backing,
            accepted,
            pid,
        ).1.handles == m.handles,
{
}

proof fn lemma_handle_pos(hs: Seq<GemEntry>, id: u32, from: int, k: int)
    requires
        0 <= from <= hs.len(),
        0 <= k < hs.len(),
    ensures
        from <= handle_pos(hs, id, from) <= hs.len(),
        from <= k && hs[k].handle.id == id ==> handle_pos(hs, id, from) <= k,
        handle_pos(hs, id, from) < hs.len() ==> hs[handle_pos(hs, id, from)].handle.id == id,
    decreases hs.len() - from,
{
    if from < hs.len() && hs[from].handle.id != id {
        lemma_handle_pos(hs, id, from + 1, k);
    }
}

/// A buffer is found by its number, and only by that.
pub proof fn law_buffer_by_number(hs: Seq<GemEntry>, id: u32, k: int)
    requires
        0 <= k < hs.len(),
    ensures
        hs[k].handle.id == id ==> handle_of(hs, id) is Some,
        handle_of(hs, id) matches Some(h) ==> h.id == id,
        hs[k].handle.id == id && (forall|j: int| 0 <= j < k ==> (#[trigger] hs[j]).handle.id != id)
            ==> handle_of(hs, id) == Some(hs[k].handle),
{
    lemma_handle_pos(hs, id, 0, k);
    if handle_pos(hs, id, 0) < hs.len() {
        lemma_handle_pos(hs, id, 0, handle_pos(hs, id, 0));
    }
}

proof fn lemma_fb_pos(fbs: Seq<DrmFramebuffer>, id: u32, from: int, k: int)
    requires
        0 <= from <= fbs.len(),
        0 <= k < fbs.len(),
    ensures
        from <= fb_pos(fbs, id, from) <= fbs.len(),
        from <= k && fbs[k].id == id ==> fb_pos(fbs, id, from) <= k,
        fb_pos(fbs, id, from) < fbs.len() ==> fbs[fb_pos(fbs, id, from)].id == id,
    decreases fbs.len() - from,
{
    if from < fbs.len() && fbs[from].id != id {
        lemma_fb_pos(fbs, id, from + 1, k);
    }
}

/// A framebuffer is found by its number, and only by that.
pub proof fn law_framebuffer_by_number(fbs: Seq<DrmFramebuffer>, id: u32, k: int)
    requires
        0 <= k < fbs.len(),
    ensures
        fbs[k].id == id ==> fb_of(fbs, id) is Some,
        fb_of(fbs, id) matches Some(f) ==> f.id == id,
        fbs[k].id == id && (forall|j: int| 0 <= j < k ==> (#[trigger] fbs[j]).id != id) ==> fb_of(fbs, id)
            == Some(fbs[k]),
{
    lemma_fb_pos(fbs, id, 0, k);
    if fb_pos(fbs, id, 0) < fbs.len() {
        lemma_fb_pos(fbs, id, 0, fb_pos(fbs, id, 0));
    }
}

/// A framebuffer is made on a buffer that is there and large enough for its rows, of which there must be
/// some; the driver's own is kept with it only where a driver scans out.
pub proof fn law_framebuffer_fits(
    m: DrmModel,
    handle_id: u32,
    width: u32,
    height: u32,
    pitch: u32,
    driver_fb: Option<u32>,
)
    ensures
        new_fb(m, handle_id, width, height, pitch, driver_fb) is Some <==> (handle_of(
            m.handles,
            handle_id,
        ) matches Some(h) && 0 < pitch * height <= h.size),
        new_fb(m, handle_id, width, height, pitch, driver_fb) matches Some(f) ==> {
            &&& f.id == m.next_fb_id && f.gem_handle_id == handle_id
            &&& f.width == width && f.height == height && f.pitch == pitch
            &&& f.phys_addr == handle_of(m.handles, handle_id)->0.phys_addr
            &&& f.size == pitch * height
            &&& f.driver_fb_id == (if m.drivers.len() > 0 && !software_kms(m) {
                driver_fb
            } else {
                None
            })
        },
{
}

/// Removing a framebuffer takes it off the display and leaves the others; removing one that is not there
/// leaves all.
pub proof fn law_framebuffer_removed(m: DrmModel, fb_id: u32, k: int)
    requires
        0 <= k < m.framebuffers.len(),
        forall|i: int, j: int|
            0 <= i < j < m.framebuffers.len() ==> (#[trigger] m.framebuffers[i]).id != (
            #[trigger] m.framebuffers[j]).id,
    ensures
        m.framebuffers[k].id != fb_id ==> fb_removed(m, fb_id).framebuffers.contains(m.framebuffers[k]),
        m.framebuffers[k].id == fb_id ==> !fb_removed(m, fb_id).framebuffers.contains(m.framebuffers[k])
            && fb_removed(m, fb_id).framebuffers.len() + 1 == m.framebuffers.len(),
        fb_removed(m, fb_id).crtc_fb == (if m.crtc_fb == fb_id {
            0
        } else {
            m.crtc_fb
        }),
        fb_removed(m, fb_id).handles == m.handles,
{
    let p = fb_pos(m.framebuffers, fb_id, 0);
    lemma_fb_pos(m.framebuffers, fb_id, 0, k);
    let after = fb_removed(m, fb_id).framebuffers;
    if p < m.framebuffers.len() {
        if k < p {
            assert(after[k] == m.framebuffers[k]);
        } else if k > p {
            assert(after[k - 1] == m.framebuffers[k]);
        }
        if m.framebuffers[k].id == fb_id {
            assert forall|i: int| 0 <= i < after.len() implies after[i] != m.framebuffers[k] by {
                if i < p {
                    assert(after[i] == m.framebuffers[i]);
                } else {
                    assert(after[i] == m.framebuffers[i + 1]);
                }
            }
        }
    }
}

/// Closing a buffer takes it off the list, leaves the others, and leaves a driver to be told of exactly
/// that buffer.
pub proof fn law_buffer_closed(m: DrmModel, handle_id: u32, k: int)
    requires
        0 <= k < m.handles.len(),
        forall|i: int, j: int|
            0 <= i < j < m.handles.len() ==> (#[trigger] m.handles[i]).handle.id != (
            #[trigger] m.handles[j]).handle.id,
    ensures
        m.handles[k].handle.id != handle_id ==> handle_closed(m, handle_id).handles.contains(m.handles[k]),
        m.handles[k].handle.id == handle_id ==> {
            let n = handle_closed(m, handle_id);
            &&& !n.handles.contains(m.handles[k])
            &&& n.handles.len() + 1 == m.handles.len()
            &&& m.drivers.len() > 0 ==> n.freed == m.freed.push(m.handles[k].handle)
            &&& m.drivers.len() == 0 ==> n.freed == m.freed
        },
        handle_closed(m, handle_id).framebuffers == m.framebuffers,
{
    let p = handle_pos(m.handles, handle_id, 0);
    lemma_handle_pos(m.handles, handle_id, 0, k);
    let after = handle_closed(m, handle_id).handles;
    if p < m.handles.len() {
        if k < p {
            assert(after[k] == m.handles[k]);
        } else if k > p {
            assert(after[k - 1] == m.handles[k]);
        }
        if m.handles[k].handle.id == handle_id {
            assert(p == k);
            assert forall|i: int| 0 <= i < after.len() implies after[i] != m.handles[k] by {
                if i < p {
                    assert(after[i] == m.handles[i]);
                } else {
                    assert(after[i] == m.handles[i + 1]);
                }
            }
        }
    }
}

/// A buffer that is not there cannot be closed.
pub proof fn law_close_needs_buffer(m: DrmModel, handle_id: u32)
    requires
        handle_of(m.handles, handle_id) is None,
    ensures
        handle_closed(m, handle_id) == m,
{
}

/// Events are read in the order in which they came; readers are told that events wait as long as some
/// do.
pub proof fn law_events_read_in_order(m: DrmModel, e: DrmEvent)
    requires
        m.events.len() > 0,
    ensures
        event_taken(m).events.len() + 1 == m.events.len(),
        seq![m.events[0]] + event_taken(m).events == m.events,
        event_taken(DrmModel { events: m.events.push(e), readable: true, ..m }).events
            == event_taken(m).events.push(e),
        event_taken(DrmModel { events: m.events.push(e), readable: true, ..m }).readable,
        m.events.len() == 1 ==> !event_taken(m).readable,
{
    assert(seq![m.events[0]] + event_taken(m).events =~= m.events);
    assert(m.events.push(e).drop_first() =~= m.events.drop_first().push(e));
}

/// An event is stored with its time and its count at the places after its user's word.
pub proof fn law_event_time_layout(e: DrmEvent)
    ensures
        crate::bytes::u32_at(event_bytes(e), 16) == e.tv_sec,
        crate::bytes::u32_at(event_bytes(e), 20) == e.tv_usec,
        crate::bytes::u32_at(event_bytes(e), 24) == e.sequence,
{
    crate::bytes::law_le32_roundtrip(e.tv_sec);
    crate::bytes::law_le32_roundtrip(e.tv_usec);
    crate::bytes::law_le32_roundtrip(e.sequence);
    let b = event_bytes(e);
    let sec = crate::bytes::le32(e.tv_sec);
    let usec = crate::bytes::le32(e.tv_usec);
    let count = crate::bytes::le32(e.sequence);
    assert(b[16] == sec[0] && b[17] == sec[1] && b[18] == sec[2] && b[19] == sec[3]);
    assert(b[20] == usec[0] && b[21] == usec[1] && b[22] == usec[2] && b[23] == usec[3]);
    assert(b[24] == count[0] && b[25] == count[1] && b[26] == count[2] && b[27] == count[3]);
}

/// The time of an event is the moment in seconds and microseconds.
pub proof fn law_event_times(now_ns: u64)
    requires
        now_ns < 0x1_0000_0000 * 1_000_000_000,
    ensures
        event_time(now_ns).1 < 1_000_000,
        event_time(now_ns).0 * 1_000_000_000 + event_time(now_ns).1 * 1000 <= now_ns,
        now_ns < event_time(now_ns).0 * 1_000_000_000 + event_time(now_ns).1 * 1000 + 1000,
{
}

/// Vertical blanks are counted at sixty a second.
pub proof fn law_sixty_a_second(now_ns: u64)
    requires
        now_ns * 60 < 0x1_0000_0000 * 1_000_000_000,
    ensures
        vblank_seq_at(now_ns) * 1_000_000_000 <= now_ns * 60 < (vblank_seq_at(now_ns) + 1) * 1_000_000_000,
{
}

/// The next vertical blank is one period after the last, or one period from now where that is past.
pub proof fn law_next_blank(m: DrmModel, now_ns: u64)
    requires
        m.next_vblank + 16_666_667 <= u64::MAX,
        now_ns + 16_666_667 <= u64::MAX,
    ensures
        m.next_vblank + 16_666_667 > now_ns ==> vblank_deadline(m, now_ns) == m.next_vblank + 16_666_667,
        m.next_vblank + 16_666_667 <= now_ns ==> vblank_deadline(m, now_ns) == now_ns + 16_666_667,
{
}

/// One timer serves all: a job that comes while it runs takes the place of the one that waits, and
/// changes no deadline.
pub proof fn law_timer_shared(m: DrmModel, a: PendingDrmTimer, b: PendingDrmTimer, t0: u64, t1: u64)
    ensures
        armed(armed(m, a, t0), b, t1).pending == Some(b),
        armed(armed(m, a, t0), b, t1).next_vblank == armed(m, a, t0).next_vblank,
        !m.timer_armed ==> armed(m, a, t0).next_vblank == vblank_deadline(m, t0),
        armed(m, a, t0).timer_armed,
        armed(m, a, t0).events == m.events,
{
}

/// When the timer fires, the job that waits makes one event, of its kind and with its word, and the
/// timer is free again; without a job nothing happens.
pub proof fn law_blank_delivered(m: DrmModel, seq: u32, signal: u64, t0: u64, t1: u64)
    ensures
        ({
            let after = delivered(armed(m, PendingDrmTimer::Vblank { seq, signal }, t0), t1);
            &&& after.events.len() == m.events.len() + 1
            &&& after.events.drop_last() == m.events
            &&& after.events.last().ev_type == 1
            &&& after.events.last().user_data == signal
            &&& after.events.last().sequence == seq
            &&& after.events.last().crtc_id == 1
            &&& after.readable && !after.timer_armed && after.pending is None
            &&& after.flip_seq == m.flip_seq
        }),
        m.pending is None ==> delivered(m, t1).events == m.events && delivered(m, t1).readable
            == m.readable,
        flip_event(m, seq, signal, t1).ev_type == 2 && flip_event(m, seq, signal, t1).sequence == m.flip_seq,
        flip_event(m, seq, signal, t1).crtc_id == seq && flip_event(m, seq, signal, t1).user_data == signal,
{
    let after = delivered(armed(m, PendingDrmTimer::Vblank { seq, signal }, t0), t1);
    assert(after.events.drop_last() =~= m.events);
}

proof fn lemma_blob_pos(bs: Seq<BlobModel>, id: u32, from: int, k: int)
    requires
        0 <= from <= bs.len(),
        0 <= k < bs.len(),
    ensures
        from <= blob_pos(bs, id, from) <= bs.len(),
        from <= k && bs[k].id == id ==> blob_pos(bs, id, from) <= k,
        blob_pos(bs, id, from) < bs.len() ==> bs[blob_pos(bs, id, from)].id == id,
    decreases bs.len() - from,
{
    if from < bs.len() && bs[from].id != id {
        lemma_blob_pos(bs, id, from + 1, k);
    }
}

/// A blob that is made is found with its data under the next number, and those before it are as they
/// were.
pub proof fn law_blob_made(m: DrmModel, data: Seq<u8>, user_created: bool, k: int)
    requires
        0 <= k < m.blobs.len(),
        forall|j: int| 0 <= j < m.blobs.len() ==> (#[trigger] m.blobs[j]).id != m.next_blob_id,
    ensures
        blob_of(blob_created(m, data, user_created).blobs, m.next_blob_id) == Some(data),
        blob_created(m, data, user_created).blobs.drop_last() == m.blobs,
        blob_created(m, data, user_created).blobs.last().user_created == user_created,
        m.next_blob_id < u32::MAX ==> blob_created(m, data, user_created).next_blob_id == m.next_blob_id
            + 1,
{
    let n = blob_created(m, data, user_created).blobs;
    assert(n.drop_last() =~= m.blobs);
    let last = m.blobs.len() as int;
    lemma_blob_pos(n, m.next_blob_id, 0, last);
    let p = blob_pos(n, m.next_blob_id, 0);
    if p < last {
        assert(n[p] == m.blobs[p]);
    }
}

/// Only a blob that a user made can be destroyed, and destroying one leaves the others.
pub proof fn law_blob_destroyed(m: DrmModel, id: u32, k: int)
    requires
        0 <= k < m.blobs.len(),
        forall|i: int, j: int|
            0 <= i < j < m.blobs.len() ==> (#[trigger] m.blobs[i]).id != (#[trigger] m.blobs[j]).id,
    ensures
        m.blobs[k].id != id || !m.blobs[k].user_created ==> blob_destroyed(m, id).blobs.contains(
            m.blobs[k],
        ),
        m.blobs[k].id == id && m.blobs[k].user_created ==> !blob_destroyed(m, id).blobs.contains(
            m.blobs[k],
        ),
{
    let p = blob_pos(m.blobs, id, 0);
    lemma_blob_pos(m.blobs, id, 0, k);
    let after = blob_destroyed(m, id).blobs;
    if p < m.blobs.len() && m.blobs[p].user_created {
        if k < p {
            assert(after[k] == m.blobs[k]);
        } else if k > p {
            assert(after[k - 1] == m.blobs[k]);
        }
        if m.blobs[k].id == id {
            assert forall|i: int| 0 <= i < after.len() implies after[i] != m.blobs[k] by {
                if i < p {
                    assert(after[i] == m.blobs[i]);
                } else {
                    assert(after[i] == m.blobs[i + 1]);
                }
            }
        }
    } else {
        assert(after[k] == m.blobs[k]);
    }
}

/// Of the buffers of a process that ends, each is freed, in order, and the driver is told of all where
/// there is one.
pub proof fn law_released_in_order(hs: Seq<GemEntry>, e: GemEntry, pid: u64)
    ensures
        e.owner == pid ==> owned_by(hs.push(e), pid) == owned_by(hs, pid).push(e.handle) && not_owned_by(
            hs.push(e),
            pid,
        ) == not_owned_by(hs, pid),
        e.owner != pid ==> owned_by(hs.push(e), pid) == owned_by(hs, pid) && not_owned_by(hs.push(e), pid)
            == not_owned_by(hs, pid).push(e),
{
    assert(hs.push(e).drop_last() =~= hs);
}

/// The end of a process tells a driver of what is freed, and touches neither blobs nor events; the end
/// of the kernel's own work frees nothing.
pub proof fn law_release_told(m: DrmModel, pid: u64)
    ensures
        pid == 0 ==> released(m, pid) == m,
        pid != 0 && m.drivers.len() > 0 ==> released(m, pid).freed == m.freed + owned_by(m.handles, pid),
        m.drivers.len() == 0 ==> released(m, pid).freed == m.freed,
        released(m, pid).blobs == m.blobs && released(m, pid).events == m.events && released(
            m,
            pid,
        ).next_handle_id == m.next_handle_id,
{
    if owned_by(m.handles, pid).len() == 0 {
        assert(m.freed + owned_by(m.handles, pid) =~= m.freed);
    }
}

/// A number is set aside for every buffer that is not empty while fewer than sixty-four are alive.
/// Two numbers set aside one behind the other differ, and a refusal changes nothing.
pub proof fn law_number_set_aside(m: DrmModel, size: usize, next_size: usize)
    ensures
        reserved(m, size).0 is Some <==> size > 0 && m.handles.len() < 64,
        reserved(m, size).0 is None ==> reserved(m, size).1 == m,
        reserved(m, size).0 matches Some(id) ==> {
            &&& id == m.next_handle_id
            &&& reserved(m, size).1.handles == m.handles
            &&& reserved(m, size).1.framebuffers == m.framebuffers
            &&& id < u32::MAX ==> reserved(m, size).1.next_handle_id == id + 1
        },
        reserved(m, size).0 is Some && next_size > 0 ==> reserved(
            reserved(m, size).1,
            next_size,
        ).0 is Some && reserved(reserved(m, size).1, next_size).0 != reserved(m, size).0,
{
}

} // verus!
