//! Atomic commits on the synthetic pipeline: one CRTC, one connector, one plane, one mode.
use vstd::prelude::*;
use crate::bytes::get_u16;
use crate::drm::{
    atomic_snapshot, copy_bytes, display_mode, find_blob, get_fb, schedule_flip_event, set_crtc_fb,
    AtomicKmsState, BlobModel, DrmBlob, DrmModel, DrmState, PendingDrmTimer, SYNTH_CRTC_ID,
};
use crate::drm_kms::{present_now, Present};

verus! {

/// Property updates of one atomic request. `None`: the property is not in the request and keeps
/// its value.
#[derive(Clone, Copy, PartialEq, Eq, Structural, Debug)]
pub struct AtomicUpdate {
    /// `Some(0)` disables the plane.
    pub plane_fb_id: Option<u32>,
    /// `Some(0)` detaches the plane.
    pub plane_crtc_id: Option<u32>,
    pub crtc_x: Option<i32>,
    pub crtc_y: Option<i32>,
    pub crtc_w: Option<u32>,
    pub crtc_h: Option<u32>,
    /// Source rectangle, 16.16 fixed point.
    pub src_x: Option<u32>,
    pub src_y: Option<u32>,
    pub src_w: Option<u32>,
    pub src_h: Option<u32>,
    pub active: Option<bool>,
    /// `Some(0)` clears the mode.
    pub mode_blob: Option<u32>,
    /// `Some(0)` detaches the connector.
    pub connector_crtc_id: Option<u32>,
}

/// A request without updates.
pub open spec fn no_update() -> AtomicUpdate {
    AtomicUpdate {
        plane_fb_id: None,
        plane_crtc_id: None,
        crtc_x: None,
        crtc_y: None,
        crtc_w: None,
        crtc_h: None,
        src_x: None,
        src_y: None,
        src_w: None,
        src_h: None,
        active: None,
        mode_blob: None,
        connector_crtc_id: None,
    }
}

impl Default for AtomicUpdate {
    fn default() -> (u: Self)
        ensures
            u == no_update(),
    {
        AtomicUpdate {
            plane_fb_id: None,
            plane_crtc_id: None,
            crtc_x: None,
            crtc_y: None,
            crtc_w: None,
            crtc_h: None,
            src_x: None,
            src_y: None,
            src_w: None,
            src_h: None,
            active: None,
            mode_blob: None,
            connector_crtc_id: None,
        }
    }
}

/// Why an atomic request was refused.
#[derive(Clone, Copy, PartialEq, Eq, Structural, Debug)]
pub enum AtomicError {
    /// A malformed value, a source rectangle outside its framebuffer, or a mode change that was
    /// not allowed.
    Invalid,
    /// A framebuffer, blob or CRTC that does not exist.
    NotFound,
    /// There is no display, or the frame could not be shown.
    Device,
}

/// A request may name the synthetic CRTC or none.
pub open spec fn crtc_known(r: Option<u32>) -> bool {
    r matches Some(id) ==> id == 0 || id == SYNTH_CRTC_ID
}

/// What is wrong with the request's mode, if anything: the blob must exist, be one mode
/// description, and describe the display's only mode.
pub open spec fn mode_fault(m: DrmModel, mode_blob: Option<u32>) -> Option<AtomicError> {
    match mode_blob {
        None => None,
        Some(id) => if id == 0 {
            None
        } else {
            match crate::drm::blob_of(m.blobs, id) {
                None => Some(AtomicError::NotFound),
                Some(d) => if d.len() != 68 {
                    Some(AtomicError::Invalid)
                } else {
                    match m.display {
                        None => Some(AtomicError::Device),
                        Some(disp) => if crate::bytes::u16_at(d, 4) == disp.width
                            && crate::bytes::u16_at(d, 14) == disp.height {
                            None
                        } else {
                            Some(AtomicError::Invalid)
                        },
                    }
                },
            }
        },
    }
}

/// Whether the request changes between "a mode is set" and "no mode is set", or switches the
/// CRTC on or off.
pub open spec fn needs_modeset(m: DrmModel, u: AtomicUpdate) -> bool {
    ||| (u.mode_blob matches Some(id) && ((id != 0) != (m.atomic.mode_blob_id != 0)))
    ||| (u.active matches Some(a) && a != m.atomic.active)
}

/// Whether a mode is set once the request is applied.
pub open spec fn ends_with_mode(m: DrmModel, u: AtomicUpdate) -> bool {
    match u.mode_blob {
        Some(id) => id != 0,
        None => m.atomic.mode_blob_id != 0,
    }
}

/// The updated value, or the one in force.
pub open spec fn or_current(v: Option<u32>, cur: u32) -> u32 {
    match v {
        Some(x) => x,
        None => cur,
    }
}

/// What is wrong with the request's plane, if anything: its framebuffer must exist, be attached,
/// and contain the source rectangle.
pub open spec fn plane_fault(m: DrmModel, u: AtomicUpdate) -> Option<AtomicError> {
    match u.plane_fb_id {
        None => None,
        Some(fb_id) => if fb_id == 0 {
            None
        } else {
            match crate::drm::fb_of(m.framebuffers, fb_id) {
                None => Some(AtomicError::NotFound),
                Some(fb) => {
                    let c = m.atomic;
                    let end_x = or_current(u.src_x, c.src_x) / 65536 + or_current(u.src_w, c.src_w)
                        / 65536;
                    let end_y = or_current(u.src_y, c.src_y) / 65536 + or_current(u.src_h, c.src_h)
                        / 65536;
                    if u.plane_crtc_id == Some(0u32) || end_x > fb.width || end_y > fb.height {
                        Some(AtomicError::Invalid)
                    } else {
                        None
                    }
                },
            }
        },
    }
}

/// Why a request is refused before anything is touched, if it is.
pub open spec fn check_fault(m: DrmModel, u: AtomicUpdate, allow_modeset: bool) -> Option<
    AtomicError,
> {
    if !crtc_known(u.plane_crtc_id) || !crtc_known(u.connector_crtc_id) {
        Some(AtomicError::NotFound)
    } else if mode_fault(m, u.mode_blob) is Some {
        mode_fault(m, u.mode_blob)
    } else if needs_modeset(m, u) && !allow_modeset {
        Some(AtomicError::Invalid)
    } else if u.active == Some(true) && !ends_with_mode(m, u) {
        Some(AtomicError::Invalid)
    } else {
        plane_fault(m, u)
    }
}

fn unknown_crtc(r: Option<u32>) -> (b: bool)
    ensures
        b == !crtc_known(r),
{
    match r {
        Some(id) => id != 0 && id != SYNTH_CRTC_ID,
        None => false,
    }
}

fn check_mode(st: &DrmState, mode_blob: Option<u32>) -> (r: Option<AtomicError>)
    ensures
        r == mode_fault(st@, mode_blob),
{
    let id: u32 = match mode_blob {
        None => {
            return None;
        },
        Some(id) => id,
    };
    if id == 0 {
        return None;
    }
    let p: usize = match find_blob(&st.blobs, id) {
        None => {
            return Some(AtomicError::NotFound);
        },
        Some(p) => p,
    };
    let data = &st.blobs[p].data;
    assert(crate::drm::blob_of(st@.blobs, id) == Some(data@));
    if data.len() != 68 {
        return Some(AtomicError::Invalid);
    }
    let hdisplay: u16 = get_u16(data.as_slice(), 4);
    let vdisplay: u16 = get_u16(data.as_slice(), 14);
    match display_mode(st) {
        None => Some(AtomicError::Device),
        Some((w, h, _)) => {
            if hdisplay as u32 != w || vdisplay as u32 != h {
                Some(AtomicError::Invalid)
            } else {
                None
            }
        },
    }
}

fn value_or(v: Option<u32>, cur: u32) -> (x: u32)
    ensures
        x == or_current(v, cur),
{
    match v {
        Some(x) => x,
        None => cur,
    }
}

fn check_plane(st: &DrmState, u: &AtomicUpdate) -> (r: Option<AtomicError>)
    ensures
        r == plane_fault(st@, *u),
{
    let fb_id: u32 = match u.plane_fb_id {
        None => {
            return None;
        },
        Some(id) => id,
    };
    if fb_id == 0 {
        return None;
    }
    let fb = match get_fb(st, fb_id) {
        None => {
            return Some(AtomicError::NotFound);
        },
        Some(fb) => fb,
    };
    match u.plane_crtc_id {
        Some(id) => {
            if id == 0 {
                return Some(AtomicError::Invalid);
            }
        },
        None => {},
    }
    let (cur, _) = atomic_snapshot(st);
    let end_x: u32 = value_or(u.src_x, cur.src_x) / 65536 + value_or(u.src_w, cur.src_w) / 65536;
    let end_y: u32 = value_or(u.src_y, cur.src_y) / 65536 + value_or(u.src_h, cur.src_h) / 65536;
    if end_x > fb.width || end_y > fb.height {
        Some(AtomicError::Invalid)
    } else {
        None
    }
}

/// Validates a request against the state without touching it.
pub fn atomic_check(st: &DrmState, u: &AtomicUpdate, allow_modeset: bool) -> (r: Option<AtomicError>)
    ensures
        r == check_fault(st@, *u, allow_modeset),
{
    let (cur, _) = atomic_snapshot(st);
    if unknown_crtc(u.plane_crtc_id) || unknown_crtc(u.connector_crtc_id) {
        return Some(AtomicError::NotFound);
    }
    match check_mode(st, u.mode_blob) {
        Some(e) => {
            return Some(e);
        },
        None => {},
    }
    let mode_change = match u.mode_blob {
        Some(id) => (id != 0) != (cur.mode_blob_id != 0),
        None => false,
    };
    let active_change = match u.active {
        Some(a) => a != cur.active,
        None => false,
    };
    if (mode_change || active_change) && !allow_modeset {
        return Some(AtomicError::Invalid);
    }
    let with_mode = match u.mode_blob {
        Some(id) => id != 0,
        None => cur.mode_blob_id != 0,
    };
    let turns_on = match u.active {
        Some(a) => a,
        None => false,
    };
    if turns_on && !with_mode {
        return Some(AtomicError::Invalid);
    }
    check_plane(st, u)
}

/// The state with the request's mode in force: its description is copied into the kernel's own
/// blob, which is made where there is none.
pub open spec fn with_mode(m: DrmModel, mode_blob: Option<u32>) -> DrmModel {
    match mode_blob {
        None => m,
        Some(id) => if id == 0 {
            DrmModel { atomic: AtomicKmsState { mode_blob_id: 0, ..m.atomic }, ..m }
        } else {
            match crate::drm::blob_of(m.blobs, id) {
                None => m,
                Some(data) => {
                    let p = crate::drm::blob_pos(m.blobs, m.atomic.mode_blob_id, 0);
                    if p < m.blobs.len() {
                        DrmModel {
                            blobs: m.blobs.update(p, BlobModel { data, ..m.blobs[p] }),
                            ..m
                        }
                    } else {
                        DrmModel {
                            blobs: m.blobs.push(
                                BlobModel { id: m.next_blob_id, user_created: false, data },
                            ),
                            next_blob_id: crate::drm::next_u32(m.next_blob_id),
                            atomic: AtomicKmsState { mode_blob_id: m.next_blob_id, ..m.atomic },
                            ..m
                        }
                    }
                },
            }
        },
    }
}

/// The pipeline's properties with a request's updates.
pub open spec fn with_props(a: AtomicKmsState, u: AtomicUpdate) -> AtomicKmsState {
    AtomicKmsState {
        active: match u.active {
            Some(v) => v,
            None => a.active,
        },
        mode_blob_id: a.mode_blob_id,
        crtc_x: match u.crtc_x {
            Some(v) => v,
            None => a.crtc_x,
        },
        crtc_y: match u.crtc_y {
            Some(v) => v,
            None => a.crtc_y,
        },
        crtc_w: or_current(u.crtc_w, a.crtc_w),
        crtc_h: or_current(u.crtc_h, a.crtc_h),
        src_x: or_current(u.src_x, a.src_x),
        src_y: or_current(u.src_y, a.src_y),
        src_w: or_current(u.src_w, a.src_w),
        src_h: or_current(u.src_h, a.src_h),
    }
}

/// The state with a request's properties in force, before its frame is shown.
pub open spec fn applied(m: DrmModel, u: AtomicUpdate) -> DrmModel {
    let w = with_mode(m, u.mode_blob);
    DrmModel { atomic: with_props(w.atomic, u), ..w }
}

fn apply_mode(st: &mut DrmState, mode_blob: Option<u32>)
    ensures
        final(st)@ == with_mode(old(st)@, mode_blob),
{
    let id: u32 = match mode_blob {
        None => {
            return ;
        },
        Some(id) => id,
    };
    if id == 0 {
        st.atomic.mode_blob_id = 0;
        return ;
    }
    let p: usize = match find_blob(&st.blobs, id) {
        None => {
            return ;
        },
        Some(p) => p,
    };
    let data = copy_bytes(&st.blobs[p].data);
    let cur_id: u32 = st.atomic.mode_blob_id;
    match find_blob(&st.blobs, cur_id) {
        Some(q) => {
            let b = DrmBlob {
                id: st.blobs[q].id,
                user_created: st.blobs[q].user_created,
                data,
            };
            st.blobs[q] = b;
            assert(st@.blobs =~= with_mode(old(st)@, mode_blob).blobs);
        },
        None => {
            let fresh: u32 = st.next_blob_id;
            st.next_blob_id = st.next_blob_id.wrapping_add(1);
            st.blobs.push(DrmBlob { id: fresh, user_created: false, data });
            st.atomic.mode_blob_id = fresh;
            assert(st@.blobs =~= with_mode(old(st)@, mode_blob).blobs);
        },
    }
}

fn apply_props(a: &AtomicKmsState, u: &AtomicUpdate) -> (r: AtomicKmsState)
    ensures
        r == with_props(*a, *u),
{
    AtomicKmsState {
        active: match u.active {
            Some(v) => v,
            None => a.active,
        },
        mode_blob_id: a.mode_blob_id,
        crtc_x: match u.crtc_x {
            Some(v) => v,
            None => a.crtc_x,
        },
        crtc_y: match u.crtc_y {
            Some(v) => v,
            None => a.crtc_y,
        },
        crtc_w: value_or(u.crtc_w, a.crtc_w),
        crtc_h: value_or(u.crtc_h, a.crtc_h),
        src_x: value_or(u.src_x, a.src_x),
        src_y: value_or(u.src_y, a.src_y),
        src_w: value_or(u.src_w, a.src_w),
        src_h: value_or(u.src_h, a.src_h),
    }
}

/// What a successful commit asks for.
#[derive(Clone, Copy, PartialEq, Eq, Debug)]
pub struct Committed {
    /// The frame to show, where the request carries one.
    pub present: Option<Present>,
    /// When a timer has to fire, where one has to be set.
    pub timer: Option<u64>,
}

/// The frame that a request shows.
pub open spec fn frame_of(u: AtomicUpdate) -> Option<u32> {
    match u.plane_fb_id {
        Some(id) => if id == 0 {
            None
        } else {
            Some(id)
        },
        None => None,
    }
}

/// The state after the request's properties were applied and its frame was shown (or the plane
/// was switched off).
pub open spec fn shown(m: DrmModel, u: AtomicUpdate, active_vt: usize, hw_flip: bool) -> DrmModel {
    let a = applied(m, u);
    match frame_of(u) {
        Some(id) => crate::drm_kms::presented(a, active_vt, id, None, hw_flip),
        None => if u.plane_fb_id == Some(0u32) {
            DrmModel { crtc_fb: 0, ..a }
        } else {
            a
        },
    }
}

/// Whether the request's frame, if it has one, can be shown.
pub open spec fn frame_shows(m: DrmModel, u: AtomicUpdate, active_vt: usize, hw_flip: bool) -> bool {
    frame_of(u) matches Some(id) ==> crate::drm_kms::present_of(
        applied(m, u),
        active_vt,
        id,
        None,
        hw_flip,
    ).flipped
}

/// Validates a request and, unless `test_only`, applies it: the properties, the frame, and one
/// completion event where `want_event`. `hw_flip` is the driver's answer where it is asked to
/// flip.
pub fn atomic_commit(
    st: &mut DrmState,
    active_vt: usize,
    u: &AtomicUpdate,
    test_only: bool,
    allow_modeset: bool,
    want_event: bool,
    user_data: u64,
    hw_flip: bool,
    now_ns: u64,
) -> (r: Result<Committed, AtomicError>)
    ensures
        ({
            let m = old(st)@;
            match check_fault(m, *u, allow_modeset) {
                Some(e) => r == Err::<Committed, AtomicError>(e) && final(st)@ == m,
                None => if test_only {
                    r == Ok::<Committed, AtomicError>(Committed { present: None, timer: None })
                        && final(st)@ == m
                } else {
                    let after = shown(m, *u, active_vt, hw_flip);
                    if !frame_shows(m, *u, active_vt, hw_flip) {
                        r == Err::<Committed, AtomicError>(AtomicError::Device) && final(st)@ == after
                    } else {
                        &&& r is Ok
                        &&& r->Ok_0.present == match frame_of(*u) {
                            Some(id) => Some(
                                crate::drm_kms::present_of(
                                    applied(m, *u),
                                    active_vt,
                                    id,
                                    None,
                                    hw_flip,
                                ),
                            ),
                            None => None,
                        }
                        &&& r->Ok_0.timer == if want_event && !after.timer_armed {
                            Some(crate::drm::vblank_deadline(after, now_ns))
                        } else {
                            None
                        }
                        &&& final(st)@ == if want_event {
                            crate::drm::armed(
                                after,
                                PendingDrmTimer::Flip { crtc_id: SYNTH_CRTC_ID, user_data },
                                now_ns,
                            )
                        } else {
                            after
                        }
                    }
                },
            }
        }),
        crate::drm_ids::well_named(old(st)@) && old(st)@.next_blob_id < u32::MAX
            ==> crate::drm_ids::well_named(final(st)@),
{
    proof {
        if crate::drm_ids::well_named(st@) && st@.next_blob_id < u32::MAX {
            crate::drm_ids::lemma_commit_keeps_names(st@, *u);
            if let Some(id) = frame_of(*u) {
                crate::drm_ids::lemma_presented_keeps_names(
                    applied(st@, *u),
                    active_vt,
                    id,
                    None,
                    hw_flip,
                );
            }
        }
    }
    match atomic_check(st, u, allow_modeset) {
        Some(e) => {
            return Err(e);
        },
        None => {},
    }
    if test_only {
        return Ok(Committed { present: None, timer: None });
    }
    apply_mode(st, u.mode_blob);
    st.atomic = apply_props(&st.atomic, u);
    assert(st@ =~= applied(old(st)@, *u));
    let mut present: Option<Present> = None;
    match u.plane_fb_id {
        Some(id) => {
            if id == 0 {
                set_crtc_fb(st, SYNTH_CRTC_ID, 0);
            } else {
                let p = present_now(st, active_vt, id, SYNTH_CRTC_ID, hw_flip);
                if !p.flipped {
                    return Err(AtomicError::Device);
                }
                present = Some(p);
            }
        },
        None => {},
    }
    let mut timer: Option<u64> = None;
    if want_event {
        timer = schedule_flip_event(st, SYNTH_CRTC_ID, user_data, now_ns);
    }
    Ok(Committed { present, timer })
}

/// A request without updates is never refused and changes nothing.
pub proof fn law_empty_request_passes(m: DrmModel, allow_modeset: bool)
    ensures
        check_fault(m, no_update(), allow_modeset) is None,
        applied(m, no_update()) == m,
{
}

/// After a commit every property that the request names holds the value that the request gave it,
/// switched on or off alike, and every one that it does not name holds its old value. Showing the
/// frame and arming the completion event change none of them.
pub proof fn law_commit_holds_request(
    m: DrmModel,
    u: AtomicUpdate,
    active_vt: usize,
    hw_flip: bool,
    job: PendingDrmTimer,
    now_ns: u64,
)
    ensures
        ({
            let a = shown(m, u, active_vt, hw_flip).atomic;
            &&& crate::drm::armed(shown(m, u, active_vt, hw_flip), job, now_ns).atomic == a
            &&& u.active matches Some(v) ==> a.active == v
            &&& u.crtc_x matches Some(v) ==> a.crtc_x == v
            &&& u.crtc_y matches Some(v) ==> a.crtc_y == v
            &&& u.crtc_w matches Some(v) ==> a.crtc_w == v
            &&& u.crtc_h matches Some(v) ==> a.crtc_h == v
            &&& u.src_x matches Some(v) ==> a.src_x == v
            &&& u.src_y matches Some(v) ==> a.src_y == v
            &&& u.src_w matches Some(v) ==> a.src_w == v
            &&& u.src_h matches Some(v) ==> a.src_h == v
            &&& u.active is None ==> a.active == m.atomic.active
            &&& u.crtc_x is None ==> a.crtc_x == m.atomic.crtc_x
            &&& u.crtc_y is None ==> a.crtc_y == m.atomic.crtc_y
            &&& u.crtc_w is None ==> a.crtc_w == m.atomic.crtc_w
            &&& u.crtc_h is None ==> a.crtc_h == m.atomic.crtc_h
            &&& u.src_x is None ==> a.src_x == m.atomic.src_x
            &&& u.src_y is None ==> a.src_y == m.atomic.src_y
            &&& u.src_w is None ==> a.src_w == m.atomic.src_w
            &&& u.src_h is None ==> a.src_h == m.atomic.src_h
            &&& u.mode_blob is None ==> a.mode_blob_id == m.atomic.mode_blob_id
            &&& u.mode_blob == Some(0u32) ==> a.mode_blob_id == 0
        }),
{
}

/// What a commit does not touch: buffers, framebuffers, drivers, display and cursor image stay, and
/// without a frame in the request the screen shows what it showed; `Some(0)` blanks it.
pub proof fn law_commit_leaves_the_rest(
    m: DrmModel,
    u: AtomicUpdate,
    active_vt: usize,
    hw_flip: bool,
)
    ensures
        ({
            let after = shown(m, u, active_vt, hw_flip);
            &&& after.handles == m.handles
            &&& after.framebuffers == m.framebuffers
            &&& after.drivers == m.drivers
            &&& after.display == m.display
            &&& after.events == m.events
            &&& after.cursor.bitmap == m.cursor.bitmap
            &&& u.plane_fb_id is None ==> after.crtc_fb == m.crtc_fb && after.graphics_vt
                == m.graphics_vt
            &&& u.plane_fb_id == Some(0u32) ==> after.crtc_fb == 0
            &&& u.mode_blob is None ==> after.blobs == m.blobs
        }),
{
}

/// A request passes exactly where it names no other CRTC than the one there is, its mode exists and
/// describes the display, a change of mode or of being switched on is allowed, the CRTC is switched on
/// only with a mode, and the frame exists, is attached and holds the source rectangle.
pub proof fn law_check_exact(m: DrmModel, u: AtomicUpdate, allow_modeset: bool)
    ensures
        check_fault(m, u, allow_modeset) is None <==> {
            &&& u.plane_crtc_id matches Some(c) ==> c == 0 || c == 1
            &&& u.connector_crtc_id matches Some(c) ==> c == 0 || c == 1
            &&& u.mode_blob matches Some(b) ==> b != 0 ==> {
                &&& crate::drm::blob_of(m.blobs, b) matches Some(d) && d.len() == 68
                    && m.display is Some && d[4] + 256 * d[5] == m.display->0.width && d[14] + 256
                    * d[15] == m.display->0.height
            }
            &&& !allow_modeset ==> {
                &&& u.active matches Some(v) ==> v == m.atomic.active
                &&& u.mode_blob matches Some(b) ==> (b == 0 <==> m.atomic.mode_blob_id == 0)
            }
            &&& u.active == Some(true) ==> match u.mode_blob {
                Some(b) => b != 0,
                None => m.atomic.mode_blob_id != 0,
            }
            &&& u.plane_fb_id matches Some(f) ==> f != 0 ==> {
                &&& u.plane_crtc_id != Some(0u32)
                &&& crate::drm::fb_of(m.framebuffers, f) matches Some(fb) && {
                    let x = if u.src_x is Some { u.src_x->0 } else { m.atomic.src_x };
                    let y = if u.src_y is Some { u.src_y->0 } else { m.atomic.src_y };
                    let w = if u.src_w is Some { u.src_w->0 } else { m.atomic.src_w };
                    let h = if u.src_h is Some { u.src_h->0 } else { m.atomic.src_h };
                    x / 65536 + w / 65536 <= fb.width && y / 65536 + h / 65536 <= fb.height
                }
            }
        },
{
}

/// What is missing is told from what is malformed: an object that does not exist is not found.
pub proof fn law_missing_is_not_found(m: DrmModel, u: AtomicUpdate, allow_modeset: bool)
    ensures
        u.plane_crtc_id matches Some(c) && c > 1 ==> check_fault(m, u, allow_modeset) == Some(
            AtomicError::NotFound,
        ),
        u.connector_crtc_id matches Some(c) && c > 1 ==> check_fault(m, u, allow_modeset) == Some(
            AtomicError::NotFound,
        ),
        check_fault(m, u, allow_modeset) == Some(AtomicError::NotFound) ==> {
            ||| u.plane_crtc_id matches Some(c) && c > 1
            ||| u.connector_crtc_id matches Some(c) && c > 1
            ||| u.mode_blob matches Some(b) && crate::drm::blob_of(m.blobs, b) is None
            ||| u.plane_fb_id matches Some(f) && crate::drm::fb_of(m.framebuffers, f) is None
        },
        check_fault(m, u, allow_modeset) == Some(AtomicError::Device) ==> m.display is None,
{
}

} // verus!
