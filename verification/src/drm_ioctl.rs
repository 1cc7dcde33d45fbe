//! The card's control entry: one request in, one answer and the actions it asks for out.
use vstd::prelude::*;
use vstd::string::*;
use crate::drm::{
    atomic_client, create_blob, create_fb, destroy_blob, display_mode, gem_close, get_blob, get_fb,
    get_primary_driver, rmfb, schedule_vblank_event, software_kms_active, vblank_seq_now, BlobDestroy,
    DrmFramebuffer, DrmModel, DrmState, SYNTH_CRTC_ID, SYNTH_ENCODER_ID,
};
use crate::drm_atomic::{atomic_commit, AtomicError, AtomicUpdate, Committed};
use crate::drm_kms::{
    move_cursor, page_flip, present_now, repaint_for_cursor, set_cursor_bo, Present, Repaint,
};
use crate::drm_props::{
    atomic_stage, connector_props, crtc_props, make_modeinfo, plane_props, prop_spec, PropSpec,
    EDID_BLOB_BASE,
};
use crate::drm_scheme::{
    copies, create_dumb, dirty_fb, drop_master, get_cap, map_dumb, set_client_cap,
    set_version, unique, version, ClipRect, DumbReply, TextOut, VersionQuery, VersionReply,
};
use crate::drm_topology::{
    get_caps, get_connector, get_connector_edid, get_crtc, get_plane, get_planes, get_resources,
    mm_guess, DriverAnswers,
};
use crate::error::FsError;
use crate::snd::fill_cstr;

verus! {

/// What surrounds a request: the terminal in front, the time, the caller, and what memory and
/// drivers answer where the request needs them.
pub struct DrmContext {
    pub active_vt: usize,
    pub now_ns: u64,
    pub pid: u64,
    /// Whether the driver speaks the nouveau interface.
    pub nouveau: bool,
    /// Whether the driver flipped, where it was asked to.
    pub hw_flip: bool,
    /// Backing memory of a new buffer, and whether the driver accepts it.
    pub backing: Option<u64>,
    pub accepted: bool,
    /// The driver's own framebuffer for a new framebuffer.
    pub driver_fb: Option<u32>,
    /// Whether the driver closed a buffer of its own.
    pub driver_closed: bool,
    pub answers: DriverAnswers,
}

/// The arrays that a resource query can take.
#[derive(Clone, Copy, PartialEq, Eq, Structural, Debug)]
pub struct ResourceQuery {
    pub fb_ptr: u64,
    pub crtc_ptr: u64,
    pub connector_ptr: u64,
    pub encoder_ptr: u64,
    pub count_fbs: u32,
    pub count_crtcs: u32,
    pub count_connectors: u32,
    pub count_encoders: u32,
}

/// The answer to a resource query. Each list is copied out only where its flag is set.
pub struct ResourceReply {
    pub fbs: Vec<u32>,
    pub crtcs: Vec<u32>,
    pub connectors: Vec<u32>,
    pub copy_fbs: bool,
    pub copy_crtcs: bool,
    pub copy_connectors: bool,
    /// Whether the encoder's id is copied out.
    pub copy_encoder: bool,
    pub count_encoders: u32,
    /// Largest frame, where it is known.
    pub max_size: Option<(u32, u32)>,
}

/// Whether a reply lists what the card exposes.
#[verifier::opaque]
pub open spec fn resources_listed(
    m: DrmModel,
    d: DriverAnswers,
    q: ResourceQuery,
    r: ResourceReply,
) -> bool {
    let hw = crate::drm_topology::any_hardware(d.resources@);
    &&& r.fbs@ == crate::drm_topology::fb_ids(m.framebuffers)
    &&& r.crtcs@ == if crate::drm::software_kms(m) {
        seq![SYNTH_CRTC_ID]
    } else {
        crate::drm_topology::all_crtcs(d.resources@, hw)
    }
    &&& r.connectors@ == if crate::drm::software_kms(m) {
        seq![crate::drm::SYNTH_CONNECTOR_ID]
    } else {
        crate::drm_topology::all_connectors(d.resources@, hw)
    }
    &&& r.copy_fbs == crate::drm_scheme::copied(q.fb_ptr, q.count_fbs, r.fbs@.len() as int)
    &&& r.copy_crtcs == crate::drm_scheme::copied(q.crtc_ptr, q.count_crtcs, r.crtcs@.len() as int)
    &&& r.copy_connectors == crate::drm_scheme::copied(
        q.connector_ptr,
        q.count_connectors,
        r.connectors@.len() as int,
    )
    &&& r.count_encoders == if r.connectors@.len() > 0 { 1u32 } else { 0u32 }
    &&& r.copy_encoder == (r.connectors@.len() > 0 && crate::drm_scheme::copied(
        q.encoder_ptr,
        q.count_encoders,
        1,
    ))
    &&& r.max_size == match crate::drm_topology::caps_of(m, d) {
        Some(c) => Some((c.max_width, c.max_height)),
        None => None,
    }
}

/// Lists what the card exposes. The encoder goes with the connectors.
pub fn resources(st: &DrmState, q: &ResourceQuery, d: &DriverAnswers) -> (r: ResourceReply)
    ensures
        resources_listed(st@, *d, *q, r),
{
    reveal(resources_listed);
    let (fbs, crtcs, connectors) = get_resources(st, d);
    let copy_fbs = copies(q.fb_ptr, q.count_fbs, fbs.len());
    let copy_crtcs = copies(q.crtc_ptr, q.count_crtcs, crtcs.len());
    let copy_connectors = copies(q.connector_ptr, q.count_connectors, connectors.len());
    let have = connectors.len() > 0;
    let copy_encoder = have && copies(q.encoder_ptr, q.count_encoders, 1);
    let max_size = match get_caps(st, d) {
        Some(c) => Some((c.max_width, c.max_height)),
        None => None,
    };
    ResourceReply {
        fbs,
        crtcs,
        connectors,
        copy_fbs,
        copy_crtcs,
        copy_connectors,
        copy_encoder,
        count_encoders: if have { 1 } else { 0 },
        max_size,
    }
}

/// A size in millimetres is believed between 1 cm and 2 m.
pub open spec fn plausible_mm(w: int, h: int) -> bool {
    10 <= w <= 2000 && 10 <= h <= 2000
}

/// The image size that a monitor description gives: of its preferred timing where that is
/// plausible, else the coarse one in centimetres.
pub open spec fn edid_size(e: Seq<u8>) -> Option<(u32, u32)> {
    let w = e[66] + e[68] / 16 * 256;
    let h = e[67] + e[68] % 16 * 256;
    if (e[54] != 0 || e[55] != 0) && plausible_mm(w, h) {
        Some((w as u32, h as u32))
    } else if e[21] > 0 && e[22] > 0 {
        Some(((e[21] * 10) as u32, (e[22] * 10) as u32))
    } else {
        None
    }
}

/// The image size in a monitor description.
pub fn edid_mm(e: &[u8; 128]) -> (r: Option<(u32, u32)>)
    ensures
        r == edid_size(e@),
{
    if e[54] != 0 || e[55] != 0 {
        let w: u32 = e[66] as u32 + (e[68] / 16) as u32 * 256;
        let h: u32 = e[67] as u32 + (e[68] % 16) as u32 * 256;
        if w >= 10 && w <= 2000 && h >= 10 && h <= 2000 {
            return Some((w, h));
        }
    }
    if e[21] > 0 && e[22] > 0 {
        Some((e[21] as u32 * 10, e[22] as u32 * 10))
    } else {
        None
    }
}

/// The arrays that a connector query can take.
#[derive(Clone, Copy, PartialEq, Eq, Structural, Debug)]
pub struct ConnectorQuery {
    pub connector_id: u32,
    pub encoders_ptr: u64,
    pub count_encoders: u32,
    pub modes_ptr: u64,
    pub count_modes: u32,
    pub props_ptr: u64,
    pub prop_values_ptr: u64,
    pub count_props: u32,
}

/// The answer to a connector query.
pub struct ConnectorReply {
    /// 1: connected, 2: not.
    pub connection: u32,
    pub mm_width: u32,
    pub mm_height: u32,
    pub connector_type: u32,
    pub connector_type_id: u32,
    pub encoder_id: u32,
    pub subpixel: u32,
    pub count_encoders: u32,
    /// Whether the encoder's id is copied out.
    pub copy_encoder: bool,
    pub count_modes: u32,
    /// The mode to copy out.
    pub mode: Option<Vec<u8>>,
    pub props: Vec<(u32, u64)>,
    pub copy_props: bool,
}

/// The size that is guessed for a connector that reports none.
pub open spec fn fallback_mm(m: DrmModel, d: DriverAnswers, id: u32) -> (u32, u32) {
    let described = match crate::drm_topology::edid_of(d, id) {
        Some(e) => edid_size(e@),
        None => None,
    };
    match described {
        Some(s) => s,
        None => match m.display {
            Some(disp) => (
                crate::drm_topology::mm_at_96dpi(disp.width),
                crate::drm_topology::mm_at_96dpi(disp.height),
            ),
            None => (1, 1),
        },
    }
}

/// Whether a reply describes a connector.
#[verifier::opaque]
pub open spec fn connector_described(
    m: DrmModel,
    d: DriverAnswers,
    q: ConnectorQuery,
    r: ConnectorReply,
) -> bool {
    let c = crate::drm_topology::connector_of(m, d, q.connector_id)->Some_0;
    let mm = fallback_mm(m, d, q.connector_id);
    &&& r.connection == if c.connected { 1u32 } else { 2u32 }
    &&& r.mm_width == if c.mm_width > 0 { c.mm_width } else { mm.0 }
    &&& r.mm_height == if c.mm_height > 0 { c.mm_height } else { mm.1 }
    &&& r.connector_type == c.connector_type
    &&& r.connector_type_id == 1
    &&& r.encoder_id == SYNTH_ENCODER_ID
    &&& r.subpixel == 0
    &&& r.count_encoders == 1
    &&& r.copy_encoder == crate::drm_scheme::copied(q.encoders_ptr, q.count_encoders, 1)
    &&& r.count_modes == if m.display is Some { 1u32 } else { 0u32 }
    &&& match m.display {
        Some(disp) => if crate::drm_scheme::copied(q.modes_ptr, q.count_modes, 1) {
            r.mode matches Some(v) && v@ == crate::drm_props::modeinfo(disp.width, disp.height)
        } else {
            r.mode is None
        },
        None => r.mode is None,
    }
    &&& r.props@ == crate::drm_props::connector_prop_list(m, d, q.connector_id)
    &&& r.copy_props == (q.props_ptr != 0 && crate::drm_scheme::copied(
        q.prop_values_ptr,
        q.count_props,
        r.props@.len() as int,
    ))
}

/// Describes a connector.
pub fn connector(st: &DrmState, q: &ConnectorQuery, d: &DriverAnswers) -> (r: Result<
    ConnectorReply,
    FsError,
>)
    ensures
        match crate::drm_topology::connector_of(st@, *d, q.connector_id) {
            None => r == Err::<ConnectorReply, FsError>(FsError::InvalidParam),
            Some(c) => r matches Ok(reply) && connector_described(st@, *d, *q, reply),
        },
{
    reveal(connector_described);
    let c = match get_connector(st, d, q.connector_id) {
        None => {
            return Err(FsError::InvalidParam);
        },
        Some(c) => c,
    };
    let described = match get_connector_edid(d, q.connector_id) {
        Some(e) => edid_mm(&e),
        None => None,
    };
    let (guess_w, guess_h) = match described {
        Some(s) => s,
        None => match display_mode(st) {
            Some((w, h, _)) => (mm_guess(w), mm_guess(h)),
            None => (1, 1),
        },
    };
    let mut count_modes: u32 = 0;
    let mut mode: Option<Vec<u8>> = None;
    match display_mode(st) {
        Some((w, h, _)) => {
            count_modes = 1;
            if copies(q.modes_ptr, q.count_modes, 1) {
                mode = Some(make_modeinfo(w, h));
            }
        },
        None => {},
    }
    let props = connector_props(st, d, q.connector_id);
    let copy_props = q.props_ptr != 0 && copies(q.prop_values_ptr, q.count_props, props.len());
    Ok(
        ConnectorReply {
            connection: if c.connected { 1 } else { 2 },
            mm_width: if c.mm_width > 0 { c.mm_width } else { guess_w },
            mm_height: if c.mm_height > 0 { c.mm_height } else { guess_h },
            connector_type: c.connector_type,
            connector_type_id: 1,
            encoder_id: SYNTH_ENCODER_ID,
            subpixel: 0,
            count_encoders: 1,
            copy_encoder: copies(q.encoders_ptr, q.count_encoders, 1),
            count_modes,
            mode,
            props,
            copy_props,
        },
    )
}

/// The encoder: virtual, able to drive the first CRTC.
#[derive(Clone, Copy, PartialEq, Eq, Structural, Debug)]
pub struct EncoderReply {
    pub encoder_id: u32,
    pub encoder_type: u32,
    pub crtc_id: u32,
    pub possible_crtcs: u32,
    pub possible_clones: u32,
}

pub fn encoder(st: &DrmState) -> (r: EncoderReply)
    ensures
        r == (EncoderReply {
            encoder_id: SYNTH_ENCODER_ID,
            encoder_type: 6,
            crtc_id: if crate::drm::software_kms(st@) { SYNTH_CRTC_ID } else { 0 },
            possible_crtcs: 1,
            possible_clones: 0,
        }),
{
    EncoderReply {
        encoder_id: SYNTH_ENCODER_ID,
        encoder_type: 6,
        crtc_id: if software_kms_active(st) { SYNTH_CRTC_ID } else { 0 },
        possible_crtcs: 1,
        possible_clones: 0,
    }
}

/// The answer to a CRTC query; the mode is there, and valid, where a display is.
pub struct CrtcReply {
    pub fb_id: u32,
    pub x: u32,
    pub y: u32,
    pub gamma_size: u32,
    pub mode_valid: u32,
    pub mode: Option<Vec<u8>>,
}

/// The mode of a display.
pub open spec fn mode_of(m: DrmModel) -> Option<Seq<u8>> {
    match m.display {
        Some(d) => Some(crate::drm_props::modeinfo(d.width, d.height)),
        None => None,
    }
}

/// Whether a reply describes a CRTC.
#[verifier::opaque]
pub open spec fn crtc_described(m: DrmModel, c: crate::drm_topology::DrmCrtc, r: CrtcReply) -> bool {
    &&& r.fb_id == c.fb_id
    &&& r.x == c.x
    &&& r.y == c.y
    &&& r.gamma_size == 0
    &&& match mode_of(m) {
        Some(bytes) => r.mode_valid == 1 && (r.mode matches Some(v) && v@ == bytes),
        None => r.mode_valid == 0 && r.mode is None,
    }
}

/// Describes a CRTC.
pub fn crtc(st: &DrmState, id: u32, d: &DriverAnswers) -> (r: Result<CrtcReply, FsError>)
    ensures
        match crate::drm_topology::crtc_of(st@, *d, id) {
            None => r == Err::<CrtcReply, FsError>(FsError::InvalidParam),
            Some(c) => r matches Ok(reply) && crtc_described(st@, c, reply),
        },
{
    reveal(crtc_described);
    match get_crtc(st, d, id) {
        None => Err(FsError::InvalidParam),
        Some(c) => {
            let mode = match display_mode(st) {
                Some((w, h, _)) => Some(make_modeinfo(w, h)),
                None => None,
            };
            let mode_valid: u32 = if mode.is_some() { 1 } else { 0 };
            Ok(CrtcReply { fb_id: c.fb_id, x: c.x, y: c.y, gamma_size: 0, mode_valid, mode })
        },
    }
}

/// Pixel formats that the scan-out takes.
pub const FORMAT_XRGB8888: u32 = 0x3432_5258;

pub const FORMAT_ARGB8888: u32 = 0x3432_5241;

/// The answer to a framebuffer query: what either form of the query reports.
#[derive(Clone, Copy, PartialEq, Eq, Structural, Debug)]
pub struct FbReply {
    pub width: u32,
    pub height: u32,
    pub pitch: u32,
    pub bpp: u32,
    pub depth: u32,
    pub pixel_format: u32,
    /// The buffer behind the framebuffer.
    pub handle: u32,
}

/// A framebuffer as it is reported: 32 bits per pixel, 24 of them colour.
pub open spec fn fb_reply(fb: DrmFramebuffer) -> FbReply {
    FbReply {
        width: fb.width,
        height: fb.height,
        pitch: fb.pitch,
        bpp: 32,
        depth: 24,
        pixel_format: FORMAT_XRGB8888,
        handle: fb.gem_handle_id,
    }
}

/// The answer to a plane query.
#[derive(Clone, Copy, PartialEq, Eq, Structural, Debug)]
pub struct PlaneReply {
    pub crtc_id: u32,
    pub fb_id: u32,
    pub possible_crtcs: u32,
    pub count_formats: u32,
    /// Whether the two formats are copied out.
    pub copy_formats: bool,
}

/// Describes a plane.
pub fn plane(st: &DrmState, id: u32, formats_ptr: u64, room: u32, d: &DriverAnswers) -> (r: Result<
    PlaneReply,
    FsError,
>)
    ensures
        r == match crate::drm_topology::plane_of(st@, *d, id) {
            None => Err(FsError::InvalidParam),
            Some(p) => Ok::<PlaneReply, FsError>(
                PlaneReply {
                    crtc_id: p.crtc_id,
                    fb_id: p.fb_id,
                    possible_crtcs: p.possible_crtcs,
                    count_formats: 2,
                    copy_formats: crate::drm_scheme::copied(formats_ptr, room, 2),
                },
            ),
        },
{
    match get_plane(st, d, id) {
        None => Err(FsError::InvalidParam),
        Some(p) => Ok(
            PlaneReply {
                crtc_id: p.crtc_id,
                fb_id: p.fb_id,
                possible_crtcs: p.possible_crtcs,
                count_formats: 2,
                copy_formats: copies(formats_ptr, room, 2),
            },
        ),
    }
}

/// The properties of an object: of the plane, CRTC or connector that has the id; none otherwise.
pub open spec fn object_prop_list(m: DrmModel, d: DriverAnswers, id: u32) -> Seq<(u32, u64)> {
    match crate::drm_topology::plane_of(m, d, id) {
        Some(p) => crate::drm_props::plane_prop_list(m, p),
        None => if crate::drm_topology::crtc_of(m, d, id) is Some {
            crate::drm_props::crtc_prop_list(m)
        } else if crate::drm_topology::connector_of(m, d, id) is Some {
            crate::drm_props::connector_prop_list(m, d, id)
        } else {
            Seq::empty()
        },
    }
}

/// A property list and whether it is copied out.
pub struct PropsReply {
    pub props: Vec<(u32, u64)>,
    pub copy: bool,
}

/// Lists the properties of an object.
pub fn object_properties(
    st: &DrmState,
    id: u32,
    props_ptr: u64,
    values_ptr: u64,
    room: u32,
    d: &DriverAnswers,
) -> (r: PropsReply)
    ensures
        r.props@ == object_prop_list(st@, *d, id),
        r.copy == (r.props@.len() > 0 && props_ptr != 0 && crate::drm_scheme::copied(
            values_ptr,
            room,
            r.props@.len() as int,
        )),
{
    let props: Vec<(u32, u64)> = match get_plane(st, d, id) {
        Some(p) => plane_props(st, &p),
        None => {
            if get_crtc(st, d, id).is_some() {
                crtc_props(st)
            } else if get_connector(st, d, id).is_some() {
                connector_props(st, d, id)
            } else {
                Vec::new()
            }
        },
    };
    let copy = props.len() > 0 && props_ptr != 0 && copies(values_ptr, room, props.len());
    PropsReply { props, copy }
}

/// The answer to a property query.
pub struct PropertyReply {
    pub spec_: PropSpec,
    /// The name, in a field of 32 bytes.
    pub name: Vec<u8>,
    /// The names of the enumerators, in fields of 32 bytes.
    pub enum_names: Vec<Vec<u8>>,
    pub copy_enums: bool,
    pub copy_values: bool,
}

/// A name in a field of 32 bytes: cut so that at least one zero follows.
pub open spec fn name_field(name: &str) -> Seq<u8> {
    crate::snd::cstr(name.spec_bytes(), 32)
}

/// Whether a reply describes a property.
#[verifier::opaque]
pub open spec fn property_described(
    row: crate::drm_props::PropRow,
    r: PropertyReply,
    values_ptr: u64,
    count_values: u32,
    enums_ptr: u64,
    count_enums: u32,
) -> bool {
    &&& r.spec_@ == row
    &&& r.name@ == name_field(r.spec_.name)
    &&& r.enum_names@.len() == row.enums.len()
    &&& forall|k: int|
        0 <= k < r.enum_names@.len() ==> (#[trigger] r.enum_names@[k])@ == name_field(
            r.spec_.enums@[k].1,
        )
    &&& r.copy_enums == (row.enums.len() > 0 && crate::drm_scheme::copied(
        enums_ptr,
        count_enums,
        row.enums.len() as int,
    ))
    &&& r.copy_values == (row.values.len() > 0 && crate::drm_scheme::copied(
        values_ptr,
        count_values,
        row.values.len() as int,
    ))
}

/// Describes a property.
pub fn property(
    prop_id: u32,
    values_ptr: u64,
    count_values: u32,
    enums_ptr: u64,
    count_enums: u32,
) -> (r: Result<PropertyReply, FsError>)
    ensures
        match crate::drm_props::prop_row(prop_id) {
            None => r == Err::<PropertyReply, FsError>(FsError::EntryNotFound),
            Some(row) => r matches Ok(reply) && property_described(
                row,
                reply,
                values_ptr,
                count_values,
                enums_ptr,
                count_enums,
            ),
        },
{
    reveal(property_described);
    match prop_spec(prop_id) {
        None => Err(FsError::EntryNotFound),
        Some(p) => {
            let copy_enums = p.enums.len() > 0 && copies(enums_ptr, count_enums, p.enums.len());
            let copy_values = p.values.len() > 0 && copies(values_ptr, count_values, p.values.len());
            let name = fill_cstr(p.name.as_bytes(), 32);
            let mut enum_names: Vec<Vec<u8>> = Vec::new();
            for k in 0..p.enums.len()
                invariant
                    enum_names@.len() == k,
                    forall|j: int|
                        0 <= j < k ==> (#[trigger] enum_names@[j])@ == name_field(p.enums@[j].1),
            {
                let (_, text) = p.enums[k];
                enum_names.push(fill_cstr(text.as_bytes(), 32));
            }
            Ok(PropertyReply { spec_: p, name, enum_names, copy_enums, copy_values })
        },
    }
}

/// A blob's contents and whether they are copied out.
pub struct BlobReply {
    pub data: Vec<u8>,
    pub copy: bool,
}

/// The contents of the blob with an id: a property blob, or the monitor description of the
/// connector that the id names.
pub open spec fn blob_contents(m: DrmModel, d: DriverAnswers, id: u32) -> Option<Seq<u8>> {
    match crate::drm::blob_of(m.blobs, id) {
        Some(data) => Some(data),
        None => if id < EDID_BLOB_BASE {
            None
        } else {
            match crate::drm_topology::edid_of(d, (id - EDID_BLOB_BASE) as u32) {
                Some(e) => Some(e@),
                None => None,
            }
        },
    }
}

/// Reads a blob.
pub fn property_blob(st: &DrmState, id: u32, ptr: u64, room: u32, d: &DriverAnswers) -> (r: Result<
    BlobReply,
    FsError,
>)
    ensures
        match blob_contents(st@, *d, id) {
            None => r == Err::<BlobReply, FsError>(FsError::InvalidParam),
            Some(data) => r matches Ok(reply) && reply.data@ == data && reply.copy
                == crate::drm_scheme::copied(ptr, room, data.len() as int),
        },
{
    match get_blob(st, id) {
        Some(data) => {
            let copy = copies(ptr, room, data.len());
            return Ok(BlobReply { data, copy });
        },
        None => {},
    }
    if id < EDID_BLOB_BASE {
        return Err(FsError::InvalidParam);
    }
    match get_connector_edid(d, id - EDID_BLOB_BASE) {
        None => Err(FsError::InvalidParam),
        Some(e) => {
            let mut data: Vec<u8> = Vec::new();
            let mut i: usize = 0;
            while i < 128
                invariant
                    i <= 128,
                    data@ == e@.subrange(0, i as int),
                decreases 128 - i,
            {
                data.push(e[i]);
                i = i + 1;
                assert(data@ =~= e@.subrange(0, i as int));
            }
            assert(e@.subrange(0, i as int) =~= e@);
            let copy = copies(ptr, room, 128);
            Ok(BlobReply { data, copy })
        },
    }
}

/// Stores a blob that user space made: at most 64 KiB, never empty.
pub fn create_property_blob(st: &mut DrmState, ptr: u64, length: u32, data: Vec<u8>) -> (r: Result<
    u32,
    FsError,
>)
    ensures
        if ptr == 0 || length == 0 || length > 65536 {
            r == Err::<u32, FsError>(FsError::InvalidParam) && final(st)@ == old(st)@
        } else {
            r == Ok::<u32, FsError>(old(st)@.next_blob_id) && final(st)@ == (DrmModel {
                next_blob_id: crate::drm::next_u32(old(st)@.next_blob_id),
                blobs: old(st)@.blobs.push(
                    crate::drm::BlobModel {
                        id: old(st)@.next_blob_id,
                        user_created: true,
                        data: data@,
                    },
                ),
                ..old(st)@
            })
        },
{
    if ptr == 0 || length == 0 || length > 65536 {
        return Err(FsError::InvalidParam);
    }
    Ok(create_blob(st, data, true))
}

/// The error of a blob that was not destroyed.
pub open spec fn destroy_result(r: BlobDestroy) -> Result<(), FsError> {
    match r {
        BlobDestroy::Destroyed => Ok(()),
        BlobDestroy::NotFound => Err(FsError::EntryNotFound),
        BlobDestroy::KernelOwned => Err(FsError::NoPermission),
    }
}

/// What destroying a blob comes to.
pub open spec fn destroy_outcome(m: DrmModel, id: u32) -> BlobDestroy {
    let p = crate::drm::blob_pos(m.blobs, id, 0);
    if p >= m.blobs.len() {
        BlobDestroy::NotFound
    } else if !m.blobs[p].user_created {
        BlobDestroy::KernelOwned
    } else {
        BlobDestroy::Destroyed
    }
}

/// Destroys a blob.
pub fn destroy_property_blob(st: &mut DrmState, id: u32) -> (r: Result<(), FsError>)
    ensures
        r == destroy_result(destroy_outcome(old(st)@, id)),
        final(st)@ == if r is Ok {
            DrmModel {
                blobs: old(st)@.blobs.remove(crate::drm::blob_pos(old(st)@.blobs, id, 0)),
                ..old(st)@
            }
        } else {
            old(st)@
        },
{
    match destroy_blob(st, id) {
        BlobDestroy::Destroyed => Ok(()),
        BlobDestroy::NotFound => Err(FsError::EntryNotFound),
        BlobDestroy::KernelOwned => Err(FsError::NoPermission),
    }
}

/// The answer to a vertical-blank wait.
#[derive(Clone, Copy, PartialEq, Eq, Structural, Debug)]
pub enum VblankReply {
    /// The event comes later; a timer has to be set for the time, where one is given.
    Event(Option<u64>),
    /// Sequence number, seconds and microseconds.
    Now(u32, u64, u64),
}

/// Flag of a wait that asks for an event.
pub const VBLANK_EVENT: u32 = 0x0400_0000;

/// Answers a vertical-blank wait without blocking: with an event at the next vertical blank where
/// it asks for one, else with the current time.
pub fn wait_vblank(st: &mut DrmState, typ: u32, signal: u64, now_ns: u64) -> (r: VblankReply)
    ensures
        if typ & VBLANK_EVENT != 0 {
            &&& r == VblankReply::Event(
                if old(st)@.timer_armed {
                    None
                } else {
                    Some(crate::drm::vblank_deadline(old(st)@, now_ns))
                },
            )
            &&& final(st)@ == crate::drm::armed(
                old(st)@,
                crate::drm::PendingDrmTimer::Vblank {
                    seq: crate::drm::next_u32(crate::drm::vblank_seq_at(now_ns)),
                    signal,
                },
                now_ns,
            )
        } else {
            &&& r == VblankReply::Now(
                crate::drm::next_u32(crate::drm::vblank_seq_at(now_ns)),
                now_ns / 1_000_000_000,
                now_ns % 1_000_000_000 / 1000,
            )
            &&& final(st)@ == old(st)@
        },
{
    if typ & VBLANK_EVENT != 0 {
        VblankReply::Event(schedule_vblank_event(st, signal, now_ns))
    } else {
        let seq: u32 = vblank_seq_now(now_ns).wrapping_add(1);
        VblankReply::Now(seq, now_ns / 1_000_000_000, now_ns % 1_000_000_000 / 1000)
    }
}

/// Flags that an atomic request may carry.
pub const DRM_MODE_ATOMIC_FLAGS: u32 = 0x703;

pub const DRM_MODE_PAGE_FLIP_EVENT: u32 = 0x1;

pub const DRM_MODE_PAGE_FLIP_ASYNC: u32 = 0x2;

pub const DRM_MODE_ATOMIC_TEST_ONLY: u32 = 0x100;

pub const DRM_MODE_ATOMIC_ALLOW_MODESET: u32 = 0x400;

/// An atomic request with the arrays it points to: the objects with their numbers of properties,
/// all properties in one list, and the drivers' answers for each object.
pub struct AtomicRequest {
    pub flags: u32,
    pub reserved: u64,
    pub user_data: u64,
    pub count_objs: u32,
    pub objs_ptr: u64,
    pub count_props_ptr: u64,
    pub props_ptr: u64,
    pub values_ptr: u64,
    pub objs: Vec<(u32, u32)>,
    pub props: Vec<(u32, u64)>,
    pub answers: Vec<DriverAnswers>,
}

/// The number of properties of the first `i` objects.
pub open spec fn props_before(objs: Seq<(u32, u32)>, i: int) -> int
    decreases i,
{
    if i <= 0 {
        0
    } else {
        props_before(objs, i - 1) + objs[i - 1].1
    }
}

impl AtomicRequest {
    /// The lists hold what the request points to, as far as it is looked at.
    pub open spec fn complete(&self) -> bool {
        self.count_objs <= 64 && self.objs_ptr != 0 && self.count_props_ptr != 0 ==> {
            &&& self.objs@.len() == self.count_objs
            &&& self.answers@.len() == self.count_objs
            &&& self.props_ptr != 0 && self.values_ptr != 0 ==> forall|i: int|
                0 < i <= self.objs@.len() && (forall|j: int|
                    0 <= j < i ==> (#[trigger] self.objs@[j]).1 <= 64) ==> #[trigger] props_before(
                    self.objs@,
                    i,
                ) <= self.props@.len()
        }
    }
}

/// The update with a list of properties of one object added.
pub open spec fn staged_props(
    m: DrmModel,
    d: DriverAnswers,
    u: AtomicUpdate,
    obj_id: u32,
    props: Seq<(u32, u64)>,
) -> Result<AtomicUpdate, FsError>
    decreases props.len(),
{
    if props.len() == 0 {
        Ok(u)
    } else {
        match staged_props(m, d, u, obj_id, props.drop_last()) {
            Err(e) => Err(e),
            Ok(v) => crate::drm_props::staged(m, d, v, obj_id, props.last().0, props.last().1),
        }
    }
}

/// The update with the properties of the first `i` objects.
pub open spec fn staged_objs(m: DrmModel, q: AtomicRequest, i: int) -> Result<AtomicUpdate, FsError>
    decreases i,
{
    if i <= 0 {
        Ok(crate::drm_atomic::no_update())
    } else {
        match staged_objs(m, q, i - 1) {
            Err(e) => Err(e),
            Ok(u) => {
                let (id, count) = q.objs@[i - 1];
                let from = props_before(q.objs@, i - 1);
                if count > 64 || (count > 0 && (q.props_ptr == 0 || q.values_ptr == 0)) {
                    Err(FsError::InvalidParam)
                } else {
                    staged_props(
                        m,
                        q.answers@[i - 1],
                        u,
                        id,
                        q.props@.subrange(from, from + count),
                    )
                }
            },
        }
    }
}

/// Why a request is refused before its properties are looked at, if it is: the client must be an
/// atomic one, the flags must be known, nothing reserved may be set, flips may not be
/// asynchronous, and a test cannot ask for an event.
pub open spec fn atomic_malformed(m: DrmModel, q: AtomicRequest) -> bool {
    ||| !m.client_atomic
    ||| q.flags & !DRM_MODE_ATOMIC_FLAGS != 0
    ||| q.reserved != 0
    ||| q.flags & DRM_MODE_PAGE_FLIP_ASYNC != 0
    ||| (q.flags & DRM_MODE_ATOMIC_TEST_ONLY != 0 && q.flags & DRM_MODE_PAGE_FLIP_EVENT != 0)
}

/// Whether the object list cannot be walked.
pub open spec fn atomic_unwalkable(q: AtomicRequest) -> bool {
    q.count_objs > 64 || q.objs_ptr == 0 || q.count_props_ptr == 0
}

/// Collects the update that a request describes.
fn stage_request(st: &DrmState, q: &AtomicRequest) -> (r: Result<AtomicUpdate, FsError>)
    requires
        q.complete(),
        !atomic_unwalkable(*q),
    ensures
        r == staged_objs(st@, *q, q.count_objs as int),
{
    let mut u = AtomicUpdate::default();
    let mut idx: usize = 0;
    let mut i: usize = 0;
    let n: usize = q.objs.len();
    while i < n
        invariant
            q.complete(),
            !atomic_unwalkable(*q),
            n == q.objs@.len(),
            n == q.count_objs,
            i <= n,
            idx == props_before(q.objs@, i as int),
            forall|j: int| 0 <= j < i ==> (#[trigger] q.objs@[j]).1 <= 64,
            q.props_ptr != 0 && q.values_ptr != 0 ==> idx <= q.props@.len(),
            q.props_ptr == 0 || q.values_ptr == 0 ==> idx == 0,
            staged_objs(st@, *q, i as int) == Ok::<AtomicUpdate, FsError>(u),
        decreases n - i,
    {
        let (id, count) = q.objs[i];
        if count > 64 || (count > 0 && (q.props_ptr == 0 || q.values_ptr == 0)) {
            proof {
                assert(staged_objs(st@, *q, i + 1) == Err::<AtomicUpdate, FsError>(
                    FsError::InvalidParam,
                ));
                lemma_staged_err(st@, *q, i + 1, n as int);
            }
            return Err(FsError::InvalidParam);
        }
        let ghost from = idx as int;
        let ghost u0 = u;
        proof {
            if count > 0 {
                assert(props_before(q.objs@, i + 1) <= q.props@.len());
            }
        }
        let mut k: u32 = 0;
        assert(q.props@.subrange(from, from + 0) =~= Seq::empty());
        while k < count
            invariant
                k <= count <= 64,
                i < n,
                n == q.objs@.len(),
                n == q.count_objs,
                q.answers@.len() == n,
                q.objs@[i as int] == (id, count),
                from == props_before(q.objs@, i as int),
                idx == from + k,
                0 <= from,
                count > 0 ==> from + count <= q.props@.len(),
                staged_objs(st@, *q, i as int) == Ok::<AtomicUpdate, FsError>(u0),
                !(count > 0 && (q.props_ptr == 0 || q.values_ptr == 0)),
                staged_props(
                    st@,
                    q.answers@[i as int],
                    u0,
                    id,
                    q.props@.subrange(from, from + k),
                ) == Ok::<AtomicUpdate, FsError>(u),
            decreases count - k,
        {
            let (prop_id, value) = q.props[idx];
            let ghost part = q.props@.subrange(from, from + k + 1);
            assert(part.drop_last() =~= q.props@.subrange(from, from + k));
            match atomic_stage(st, &q.answers[i], &mut u, id, prop_id, value) {
                Err(e) => {
                    proof {
                        lemma_props_err(
                            st@,
                            q.answers@[i as int],
                            u0,
                            id,
                            q.props@.subrange(from, from + count),
                            k + 1,
                        );
                        assert(q.props@.subrange(from, from + count).subrange(0, k + 1) =~= part);
                        assert(staged_objs(st@, *q, i + 1) == Err::<AtomicUpdate, FsError>(e));
                        lemma_staged_err(st@, *q, i + 1, n as int);
                    }
                    return Err(e);
                },
                Ok(_) => {},
            }
            assert(idx < q.props.len());
            idx = idx + 1;
            k = k + 1;
        }
        i = i + 1;
    }
    Ok(u)
}

proof fn lemma_props_err(
    m: DrmModel,
    d: DriverAnswers,
    u: AtomicUpdate,
    obj_id: u32,
    props: Seq<(u32, u64)>,
    k: int,
)
    requires
        0 <= k <= props.len(),
        staged_props(m, d, u, obj_id, props.subrange(0, k)) is Err,
    ensures
        staged_props(m, d, u, obj_id, props) == staged_props(m, d, u, obj_id, props.subrange(0, k)),
    decreases props.len() - k,
{
    if k == props.len() {
        assert(props.subrange(0, k) =~= props);
    } else {
        assert(props.subrange(0, k + 1).drop_last() =~= props.subrange(0, k));
        lemma_props_err(m, d, u, obj_id, props, k + 1);
    }
}

proof fn lemma_staged_err(m: DrmModel, q: AtomicRequest, i: int, n: int)
    requires
        0 < i <= n,
        staged_objs(m, q, i) is Err,
    ensures
        staged_objs(m, q, n) == staged_objs(m, q, i),
    decreases n - i,
{
    if i < n {
        assert(staged_objs(m, q, i + 1) == staged_objs(m, q, i));
        lemma_staged_err(m, q, i + 1, n);
    }
}

/// The error of a refused atomic commit.
pub open spec fn atomic_fs_error(e: AtomicError) -> FsError {
    match e {
        AtomicError::Invalid => FsError::InvalidParam,
        AtomicError::NotFound => FsError::EntryNotFound,
        AtomicError::Device => FsError::DeviceError,
    }
}

/// Nothing to show and no timer to set.
pub open spec fn nothing_committed() -> Committed {
    Committed { present: None, timer: None }
}

/// What an atomic request does: `m2` and `r` are the state and the answer after it.
pub open spec fn atomic_answered(
    m: DrmModel,
    q: AtomicRequest,
    active_vt: usize,
    hw_flip: bool,
    now_ns: u64,
    r: Result<Committed, FsError>,
    m2: DrmModel,
) -> bool {
    let test_only = q.flags & DRM_MODE_ATOMIC_TEST_ONLY != 0;
    let want_event = q.flags & DRM_MODE_PAGE_FLIP_EVENT != 0;
    let allow = q.flags & DRM_MODE_ATOMIC_ALLOW_MODESET != 0;
    if atomic_malformed(m, q) {
        r == Err::<Committed, FsError>(FsError::InvalidParam) && m2 == m
    } else if q.count_objs == 0 {
        r == Ok::<Committed, FsError>(nothing_committed()) && m2 == m
    } else if atomic_unwalkable(q) {
        r == Err::<Committed, FsError>(FsError::InvalidParam) && m2 == m
    } else {
        match staged_objs(m, q, q.count_objs as int) {
            Err(e) => r == Err::<Committed, FsError>(e) && m2 == m,
            Ok(u) => match crate::drm_atomic::check_fault(m, u, allow) {
                Some(e) => r == Err::<Committed, FsError>(atomic_fs_error(e)) && m2 == m,
                None => if test_only {
                    r == Ok::<Committed, FsError>(nothing_committed()) && m2 == m
                } else {
                    let after = crate::drm_atomic::shown(m, u, active_vt, hw_flip);
                    if !crate::drm_atomic::frame_shows(m, u, active_vt, hw_flip) {
                        r == Err::<Committed, FsError>(FsError::DeviceError) && m2 == after
                    } else {
                        &&& r is Ok
                        &&& r->Ok_0.present == match crate::drm_atomic::frame_of(u) {
                            Some(id) => Some(
                                crate::drm_kms::present_of(
                                    crate::drm_atomic::applied(m, u),
                                    active_vt,
                                    id,
                                    None,
                                    hw_flip,
                                ),
                            ),
                            None => None,
                        }
                        &&& r->Ok_0.timer == if want_event && !after.timer_armed {
                            Some(crate::drm::vblank_deadline(after, now_ns))
                        } else {
                            None
                        }
                        &&& m2 == if want_event {
                            crate::drm::armed(
                                after,
                                crate::drm::PendingDrmTimer::Flip {
                                    crtc_id: SYNTH_CRTC_ID,
                                    user_data: q.user_data,
                                },
                                now_ns,
                            )
                        } else {
                            after
                        }
                    }
                },
            },
        }
    }
}

/// Answers an atomic request.
pub fn atomic(
    st: &mut DrmState,
    q: &AtomicRequest,
    active_vt: usize,
    hw_flip: bool,
    now_ns: u64,
) -> (r: Result<Committed, FsError>)
    requires
        q.complete(),
    ensures
        atomic_answered(old(st)@, *q, active_vt, hw_flip, now_ns, r, final(st)@),
{
    if !atomic_client(st) {
        return Err(FsError::InvalidParam);
    }
    if q.flags & !DRM_MODE_ATOMIC_FLAGS != 0 || q.reserved != 0 {
        return Err(FsError::InvalidParam);
    }
    if q.flags & DRM_MODE_PAGE_FLIP_ASYNC != 0 {
        return Err(FsError::InvalidParam);
    }
    let test_only = q.flags & DRM_MODE_ATOMIC_TEST_ONLY != 0;
    let want_event = q.flags & DRM_MODE_PAGE_FLIP_EVENT != 0;
    let allow_modeset = q.flags & DRM_MODE_ATOMIC_ALLOW_MODESET != 0;
    if test_only && want_event {
        return Err(FsError::InvalidParam);
    }
    if q.count_objs == 0 {
        return Ok(Committed { present: None, timer: None });
    }
    if q.count_objs > 64 || q.objs_ptr == 0 || q.count_props_ptr == 0 {
        return Err(FsError::InvalidParam);
    }
    let u = match stage_request(st, q) {
        Err(e) => {
            return Err(e);
        },
        Ok(u) => u,
    };
    match atomic_commit(
        st,
        active_vt,
        &u,
        test_only,
        allow_modeset,
        want_event,
        q.user_data,
        hw_flip,
        now_ns,
    ) {
        Ok(c) => Ok(c),
        Err(AtomicError::Invalid) => Err(FsError::InvalidParam),
        Err(AtomicError::NotFound) => Err(FsError::EntryNotFound),
        Err(AtomicError::Device) => Err(FsError::DeviceError),
    }
}

/// Most synchronisation objects one request may name.
pub const MAX_SYNC_HANDLES: u32 = 64;

/// Whether a request on synchronisation objects is looked at: only with the nouveau interface, and
/// only with a list of 1 to 64 handles (and a list of points, where the command has one).
pub open spec fn sync_verdict(
    nouveau: bool,
    count: u32,
    handles_ptr: u64,
    needs_points: bool,
    points_ptr: u64,
) -> Result<(), FsError> {
    if !nouveau {
        Err(FsError::OpNotSupported)
    } else if count == 0 || count > MAX_SYNC_HANDLES || handles_ptr == 0 || (needs_points
        && points_ptr == 0) {
        Err(FsError::InvalidParam)
    } else {
        Ok(())
    }
}

/// Decides whether a request on synchronisation objects is looked at.
pub fn check_sync(
    nouveau: bool,
    count: u32,
    handles_ptr: u64,
    needs_points: bool,
    points_ptr: u64,
) -> (r: Result<(), FsError>)
    ensures
        r == sync_verdict(nouveau, count, handles_ptr, needs_points, points_ptr),
{
    if !nouveau {
        return Err(FsError::OpNotSupported);
    }
    if count == 0 || count > MAX_SYNC_HANDLES || handles_ptr == 0 || (needs_points && points_ptr == 0) {
        return Err(FsError::InvalidParam);
    }
    Ok(())
}

/// The microsecond at which a wait ends; a negative deadline is already over.
pub fn sync_deadline_us(timeout_nsec: i64) -> (us: u64)
    ensures
        us == if timeout_nsec >= 0 { timeout_nsec / 1000 } else { 0 },
{
    if timeout_nsec >= 0 {
        timeout_nsec as u64 / 1000
    } else {
        0
    }
}

/// How waiting for synchronisation objects ended.
#[derive(Clone, Copy, PartialEq, Eq, Structural, Debug)]
pub enum SyncWait {
    Signaled(u32),
    Timeout,
    Invalid,
}

/// Answers a wait by how it ended.
pub fn sync_wait_result(w: SyncWait) -> (r: Result<u32, FsError>)
    ensures
        r == match w {
            SyncWait::Signaled(i) => Ok::<u32, FsError>(i),
            SyncWait::Timeout => Err(FsError::Again),
            SyncWait::Invalid => Err(FsError::EntryNotFound),
        },
{
    match w {
        SyncWait::Signaled(i) => Ok(i),
        SyncWait::Timeout => Err(FsError::Again),
        SyncWait::Invalid => Err(FsError::EntryNotFound),
    }
}

/// A command on synchronisation objects.
#[derive(Clone, Copy, PartialEq, Eq, Structural, Debug)]
pub enum SyncCommand {
    Create { flags: u32 },
    Destroy(u32),
    Reset,
    Signal,
    TimelineSignal,
    Query,
    Wait { timeline: bool, timeout_nsec: i64, flags: u32 },
}

/// A command with the lists that it points to.
#[derive(Clone, Copy, PartialEq, Eq, Structural, Debug)]
pub struct SyncRequest {
    pub command: SyncCommand,
    pub count: u32,
    pub handles_ptr: u64,
    pub points_ptr: u64,
}

/// What is to be done on synchronisation objects. Commands on a list go through it as a `SyncWalk`
/// says.
#[derive(Clone, Copy, PartialEq, Eq, Structural, Debug)]
pub enum SyncJob {
    Create { signaled: bool },
    Destroy(u32),
    Reset,
    Signal,
    TimelineSignal,
    Query,
    Wait { with_points: bool, all: bool, deadline_us: u64 },
}

pub const SYNC_CREATE_SIGNALED: u32 = 0x1;

pub const SYNC_WAIT_ALL: u32 = 0x1;

/// What a command comes to.
#[verifier::opaque]
pub open spec fn sync_job(nouveau: bool, q: SyncRequest) -> Result<SyncJob, FsError> {
    let on_list = sync_verdict(nouveau, q.count, q.handles_ptr, false, 0);
    let on_points = sync_verdict(nouveau, q.count, q.handles_ptr, true, q.points_ptr);
    match q.command {
        SyncCommand::Create { flags } => if nouveau {
            Ok(SyncJob::Create { signaled: flags & SYNC_CREATE_SIGNALED != 0 })
        } else {
            Err(FsError::OpNotSupported)
        },
        SyncCommand::Destroy(handle) => if nouveau {
            Ok(SyncJob::Destroy(handle))
        } else {
            Err(FsError::OpNotSupported)
        },
        SyncCommand::Reset => match on_list {
            Ok(_) => Ok(SyncJob::Reset),
            Err(e) => Err(e),
        },
        SyncCommand::Signal => match on_list {
            Ok(_) => Ok(SyncJob::Signal),
            Err(e) => Err(e),
        },
        SyncCommand::TimelineSignal => match on_points {
            Ok(_) => Ok(SyncJob::TimelineSignal),
            Err(e) => Err(e),
        },
        SyncCommand::Query => match on_points {
            Ok(_) => Ok(SyncJob::Query),
            Err(e) => Err(e),
        },
        SyncCommand::Wait { timeline, timeout_nsec, flags } => match on_list {
            Ok(_) => Ok(
                SyncJob::Wait {
                    with_points: timeline && q.points_ptr != 0,
                    all: flags & SYNC_WAIT_ALL != 0,
                    deadline_us: if timeout_nsec >= 0 {
                        (timeout_nsec as int / 1000) as u64
                    } else {
                        0
                    },
                },
            ),
            Err(e) => Err(e),
        },
    }
}

/// Decides what a command on synchronisation objects comes to.
pub fn sync(nouveau: bool, q: &SyncRequest) -> (r: Result<SyncJob, FsError>)
    ensures
        r == sync_job(nouveau, *q),
{
    reveal(sync_job);
    match q.command {
        SyncCommand::Create { flags } => {
            if !nouveau {
                return Err(FsError::OpNotSupported);
            }
            Ok(SyncJob::Create { signaled: flags & SYNC_CREATE_SIGNALED != 0 })
        },
        SyncCommand::Destroy(handle) => {
            if !nouveau {
                return Err(FsError::OpNotSupported);
            }
            Ok(SyncJob::Destroy(handle))
        },
        SyncCommand::Reset => match check_sync(nouveau, q.count, q.handles_ptr, false, 0) {
            Ok(_) => Ok(SyncJob::Reset),
            Err(e) => Err(e),
        },
        SyncCommand::Signal => match check_sync(nouveau, q.count, q.handles_ptr, false, 0) {
            Ok(_) => Ok(SyncJob::Signal),
            Err(e) => Err(e),
        },
        SyncCommand::TimelineSignal => match check_sync(
            nouveau,
            q.count,
            q.handles_ptr,
            true,
            q.points_ptr,
        ) {
            Ok(_) => Ok(SyncJob::TimelineSignal),
            Err(e) => Err(e),
        },
        SyncCommand::Query => match check_sync(
            nouveau,
            q.count,
            q.handles_ptr,
            true,
            q.points_ptr,
        ) {
            Ok(_) => Ok(SyncJob::Query),
            Err(e) => Err(e),
        },
        SyncCommand::Wait { timeline, timeout_nsec, flags } => match check_sync(
            nouveau,
            q.count,
            q.handles_ptr,
            false,
            0,
        ) {
            Ok(_) => Ok(
                SyncJob::Wait {
                    with_points: timeline && q.points_ptr != 0,
                    all: flags & SYNC_WAIT_ALL != 0,
                    deadline_us: sync_deadline_us(timeout_nsec),
                },
            ),
            Err(e) => Err(e),
        },
    }
}

/// How far a command on a list of synchronisation objects has come.
pub struct SyncWalk {
    pub job: SyncJob,
    pub handles: Vec<u32>,
    /// One for each object, where the command has points; a query leaves its answers here.
    pub points: Vec<u64>,
    /// How many objects the command was applied to.
    pub done: usize,
    /// The object at hand does not exist.
    pub missing: bool,
}

/// What a walk asks for next.
#[derive(Clone, Copy, PartialEq, Eq, Debug)]
pub enum SyncStep {
    /// The command is to be applied to this object, with this point where it has points.
    Apply(u32, Option<u64>),
    Finished(Result<(), FsError>),
}

/// A walk, mathematically.
#[verifier::ext_equal]
pub struct SyncWalkModel {
    pub job: SyncJob,
    pub handles: Seq<u32>,
    pub points: Seq<u64>,
    pub done: int,
    pub missing: bool,
}

impl View for SyncWalk {
    type V = SyncWalkModel;

    open spec fn view(&self) -> SyncWalkModel {
        SyncWalkModel {
            job: self.job,
            handles: self.handles@,
            points: self.points@,
            done: self.done as int,
            missing: self.missing,
        }
    }
}

/// Whether a command goes through a list one object at a time.
pub open spec fn walks(job: SyncJob) -> bool {
    job is Reset || job is Signal || job is TimelineSignal || job is Query
}

/// Whether a walk is on its list, with a point for each object where the command has points.
pub open spec fn walk_ok(w: SyncWalkModel) -> bool {
    &&& walks(w.job)
    &&& 0 <= w.done <= w.handles.len()
    &&& w.missing ==> w.done < w.handles.len()
    &&& w.job is TimelineSignal || w.job is Query ==> w.points.len() == w.handles.len()
}

/// What a walk asks for next: the objects in the order of the list, until one does not exist.
pub open spec fn walk_step(w: SyncWalkModel) -> SyncStep {
    if w.missing {
        SyncStep::Finished(Err(FsError::EntryNotFound))
    } else if w.done == w.handles.len() {
        SyncStep::Finished(Ok(()))
    } else {
        SyncStep::Apply(
            w.handles[w.done],
            if w.job is TimelineSignal {
                Some(w.points[w.done])
            } else {
                None
            },
        )
    }
}

/// The walk once the object at hand gave `found`: its point, or that it does not exist.
pub open spec fn walk_after(w: SyncWalkModel, found: Option<u64>) -> SyncWalkModel {
    match found {
        None => SyncWalkModel { missing: true, ..w },
        Some(point) => SyncWalkModel {
            points: if w.job is Query {
                w.points.update(w.done, point)
            } else {
                w.points
            },
            done: w.done + 1,
            ..w
        },
    }
}

/// The walk once as many objects as there are answers gave them, one after the other.
pub open spec fn walk_through(w: SyncWalkModel, found: Seq<Option<u64>>) -> SyncWalkModel
    decreases found.len(),
{
    if found.len() == 0 {
        w
    } else {
        walk_after(walk_through(w, found.drop_last()), found.last())
    }
}

impl SyncWalk {
    pub fn new(job: SyncJob, handles: Vec<u32>, points: Vec<u64>) -> (w: SyncWalk)
        requires
            walks(job),
            job is TimelineSignal || job is Query ==> points@.len() == handles@.len(),
        ensures
            w@ == (SyncWalkModel {
                job,
                handles: handles@,
                points: points@,
                done: 0,
                missing: false,
            }),
            walk_ok(w@),
    {
        SyncWalk { job, handles, points, done: 0, missing: false }
    }

    /// The object that is next, or how the command ended.
    pub fn next(&self) -> (s: SyncStep)
        requires
            walk_ok(self@),
        ensures
            s == walk_step(self@),
    {
        if self.missing {
            SyncStep::Finished(Err(FsError::EntryNotFound))
        } else if self.done == self.handles.len() {
            SyncStep::Finished(Ok(()))
        } else {
            let point: Option<u64> = match self.job {
                SyncJob::TimelineSignal => Some(self.points[self.done]),
                _ => None,
            };
            SyncStep::Apply(self.handles[self.done], point)
        }
    }

    /// Takes the answer of the object that was next: its point, or that it does not exist.
    pub fn answer(&mut self, found: Option<u64>)
        requires
            walk_ok(old(self)@),
            walk_step(old(self)@) is Apply,
        ensures
            final(self)@ == walk_after(old(self)@, found),
            walk_ok(final(self)@),
    {
        match found {
            None => {
                self.missing = true;
            },
            Some(point) => {
                match self.job {
                    SyncJob::Query => {
                        self.points[self.done] = point;
                    },
                    _ => {},
                }
                assert(self.done < self.handles.len());
                self.done = self.done + 1;
            },
        }
    }
}

/// A command on a list is applied to its objects in order, up to the first that does not exist,
/// which it is not applied to and which is its error; a query answers with the points of those before
/// it. Where all of them exist it is applied to all and succeeds. `found` are the answers so far.
pub proof fn law_list_in_order(w: SyncWalkModel, found: Seq<Option<u64>>)
    requires
        walk_ok(w),
        w.done == 0,
        !w.missing,
        found.len() <= w.handles.len(),
        forall|i: int| 0 <= i < found.len() - 1 ==> #[trigger] found[i] is Some,
    ensures
        ({
            let after = walk_through(w, found);
            let gone = found.len() > 0 && found.last() is None;
            &&& walk_ok(after)
            &&& after.job == w.job && after.handles == w.handles
            &&& after.missing == gone
            &&& after.done == if gone {
                found.len() - 1
            } else {
                found.len() as int
            }
            &&& gone ==> walk_step(after) == SyncStep::Finished(Err(FsError::EntryNotFound))
            &&& !gone && found.len() == w.handles.len() ==> walk_step(after)
                == SyncStep::Finished(Ok(()))
            &&& !gone && found.len() < w.handles.len() ==> walk_step(after) is Apply && walk_step(
                after,
            )->Apply_0 == w.handles[found.len() as int]
            &&& w.job !is Query ==> after.points == w.points
            &&& w.job is Query ==> after.points.len() == w.points.len() && forall|i: int|
                0 <= i < w.points.len() ==> #[trigger] after.points[i] == if i < after.done {
                    found[i]->0
                } else {
                    w.points[i]
                }
        }),
    decreases found.len(),
{
    if found.len() > 0 {
        let front = found.drop_last();
        assert forall|i: int| 0 <= i < front.len() - 1 implies #[trigger] front[i] is Some by {
            assert(front[i] == found[i]);
        }
        law_list_in_order(w, front);
        if front.len() > 0 {
            assert(front.last() == found[front.len() - 1]);
        }
    }
}

/// Answers a command on one synchronisation object by whether it exists.
pub fn sync_found(found: bool) -> (r: Result<(), FsError>)
    ensures
        r == if found {
            Ok::<(), FsError>(())
        } else {
            Err(FsError::EntryNotFound)
        },
{
    if found {
        Ok(())
    } else {
        Err(FsError::EntryNotFound)
    }
}

/// Whether a wait for the vertical blank asks the driver first: only where it scans out itself.
pub fn waits_for_hardware(st: &DrmState) -> (b: bool)
    ensures
        b == (!crate::drm::software_kms(st@) && (crate::drm::primary(st@) matches Some(d)
            && d.hardware_kms)),
{
    if software_kms_active(st) {
        return false;
    }
    match get_primary_driver(st) {
        Some(d) => d.hardware_kms,
        None => false,
    }
}

/// The error of a command that the driver refused.
pub fn driver_error(errno: i32) -> (e: FsError)
    ensures
        e == if errno == 38 { FsError::NotSupported } else { FsError::DeviceError },
{
    if errno == 38 {
        FsError::NotSupported
    } else {
        FsError::DeviceError
    }
}

/// A request to the card.
pub enum DrmRequest {
    Version(VersionQuery),
    GetUnique { len: usize, ptr: u64 },
    GetMagic,
    AuthMagic,
    GetCap(u64),
    SetClientCap { capability: u64, value: u64 },
    GemClose(u32),
    SetMaster,
    DropMaster,
    SetVersion { di_major: i32, di_minor: i32, dd_major: i32 },
    GetResources(ResourceQuery),
    GetCrtc(u32),
    SetCrtc { fb_id: u32, crtc_id: u32 },
    GetEncoder,
    GetConnector(ConnectorQuery),
    CreateDumb { width: u32, height: u32, bpp: u32 },
    MapDumb(u32),
    DestroyDumb(u32),
    /// Both commands that make a framebuffer.
    AddFb { handle: u32, width: u32, height: u32, pitch: u32 },
    RmFb(u32),
    CloseFb(u32),
    PageFlip { fb_id: u32, crtc_id: u32, user_data: u64 },
    GetPlaneResources { ptr: u64, room: u32 },
    GetPlane { plane_id: u32, formats_ptr: u64, room: u32 },
    SetPlane { fb_id: u32, crtc_id: u32 },
    ObjGetProperties { obj_id: u32, props_ptr: u64, values_ptr: u64, room: u32 },
    /// Legacy property writes, both commands.
    SetProperty,
    GetProperty {
        prop_id: u32,
        values_ptr: u64,
        count_values: u32,
        enums_ptr: u64,
        count_enums: u32,
    },
    GetPropBlob { blob_id: u32, ptr: u64, room: u32 },
    /// Both cursor commands; `pixels` are those of the buffer.
    Cursor { flags: u32, x: i32, y: i32, width: u32, height: u32, handle: u32, pixels: Vec<u32> },
    WaitVblank { typ: u32, signal: u64 },
    /// Both commands that describe a framebuffer.
    GetFb(u32),
    DirtyFb { fb_id: u32, num_clips: u32, clips_ptr: u64, clips: Vec<ClipRect> },
    Gamma,
    ListLessees,
    Atomic(AtomicRequest),
    CreatePropBlob { ptr: u64, length: u32, data: Vec<u8> },
    DestroyPropBlob(u32),
    Sync(SyncRequest),
    /// A command that is none of the others.
    Driver,
}

/// The answer to a request, with the actions it asks for.
pub enum DrmReply {
    /// Nothing to report.
    Done,
    Version(VersionReply),
    Text(TextOut),
    /// A single number: a magic, a capability, an offset, an id or a count.
    Value(u64),
    /// The versions in force, and whether those that were asked for will do.
    Versions((i32, i32, i32, i32), Result<(), FsError>),
    /// The text console takes the display back.
    TextConsole,
    Resources(ResourceReply),
    Crtc(CrtcReply),
    Encoder(EncoderReply),
    Connector(ConnectorReply),
    Dumb(DumbReply),
    /// A frame to show.
    Show(Present),
    /// A frame to show, and the time for which a timer has to be set.
    Flip(Present, Option<u64>),
    Planes { ids: Vec<u32>, copy: bool },
    Plane(PlaneReply),
    Props(PropsReply),
    Property(PropertyReply),
    Blob(BlobReply),
    Cursor(Option<Repaint>),
    Vblank(VblankReply),
    Fb(FbReply),
    /// Work on synchronisation objects is to be done.
    Sync(SyncJob),
    /// The command is to be offered to the driver.
    AskDriver,
    Committed(Committed),
}

pub const CURSOR_BO: u32 = 0x1;

pub const CURSOR_MOVE: u32 = 0x2;

/// The cursor after its image was set, where the request carries one.
pub open spec fn cursor_set(m: DrmModel, flags: u32, handle: u32, w: u32, h: u32, px: Seq<u32>) -> (
    DrmModel,
    bool,
) {
    let hidden = DrmModel {
        cursor: crate::drm::CursorModel { visible: false, ..m.cursor },
        ..m
    };
    if flags & CURSOR_BO == 0 {
        (m, false)
    } else if handle == 0 || w == 0 || h == 0 {
        (hidden, m.cursor.visible)
    } else if crate::drm_kms::cursor_pixels(m, handle, w, h) is None {
        (hidden, true)
    } else {
        (
            DrmModel {
                cursor: crate::drm::CursorModel {
                    visible: true,
                    w,
                    h,
                    bitmap: Some(px),
                    ..m.cursor
                },
                ..m
            },
            true,
        )
    }
}

/// The cursor after it was moved, where the request says so.
pub open spec fn cursor_moved(m: DrmModel, flags: u32, x: i32, y: i32) -> DrmModel {
    if flags & CURSOR_MOVE != 0 {
        DrmModel { cursor: crate::drm::CursorModel { x, y, ..m.cursor }, ..m }
    } else {
        m
    }
}

/// Whether what a request points to was read in full: the lists of an atomic request, and the pixels
/// of a cursor image.
pub open spec fn filled_in(m: DrmModel, q: DrmRequest) -> bool {
    match q {
        DrmRequest::Atomic(aq) => aq.complete(),
        DrmRequest::Cursor { flags, width, height, handle, pixels, .. } => flags & CURSOR_BO != 0
            ==> crate::drm_kms::image_given(m, handle, width, height, pixels@.len() as int),
        _ => true,
    }
}

/// Sets and moves the cursor, and says what to repaint where something changed.
pub fn cursor(
    st: &mut DrmState,
    active_vt: usize,
    flags: u32,
    x: i32,
    y: i32,
    width: u32,
    height: u32,
    handle: u32,
    pixels: Vec<u32>,
) -> (r: Option<Repaint>)
    requires
        flags & CURSOR_BO != 0 ==> crate::drm_kms::image_given(
            old(st)@,
            handle,
            width,
            height,
            pixels@.len() as int,
        ),
    ensures
        ({
            let (set, changed) = cursor_set(old(st)@, flags, handle, width, height, pixels@);
            let m = cursor_moved(set, flags, x, y);
            if changed || flags & CURSOR_MOVE != 0 {
                &&& r == crate::drm_kms::repaint_of(m, active_vt)
                &&& final(st)@ == if crate::drm::software_kms(m) && crate::drm_kms::owns_screen(
                    m,
                    active_vt,
                ) {
                    DrmModel {
                        cursor: crate::drm::CursorModel {
                            drawn: crate::drm_kms::cursor_place(m.cursor),
                            ..m.cursor
                        },
                        ..m
                    }
                } else {
                    m
                }
            } else {
                r is None && final(st)@ == m
            }
        }),
{
    let mut changed = false;
    if flags & CURSOR_BO != 0 {
        changed = set_cursor_bo(st, handle, width, height, pixels);
    }
    if flags & CURSOR_MOVE != 0 {
        move_cursor(st, x, y);
        changed = true;
    }
    if changed {
        repaint_for_cursor(st, active_vt)
    } else {
        None
    }
}

/// Whether `r` and `m2` are the answer to a request and the state after it.
pub open spec fn answered(
    m: DrmModel,
    c: DrmContext,
    q: DrmRequest,
    r: Result<DrmReply, FsError>,
    m2: DrmModel,
) -> bool {
    match q {
        DrmRequest::Version(v) => m2 == m && (r matches Ok(DrmReply::Version(t))
            && crate::drm_scheme::version_reported(v, c.nouveau, t)),
        DrmRequest::GetUnique { len, ptr } => m2 == m && (r matches Ok(DrmReply::Text(t))
            && t.bytes@ == crate::drm_scheme::text_for("zcore-gpu", len, ptr) && t.len
            == crate::drm_scheme::terminated("zcore-gpu").len()),
        DrmRequest::GetMagic => m2 == m && (r matches Ok(DrmReply::Value(v)) && v == 1),
        DrmRequest::AuthMagic => m2 == m && (r matches Ok(DrmReply::Done)),
        DrmRequest::GetCap(cap) => m2 == m && (r matches Ok(DrmReply::Value(v)) && v
            == crate::drm_scheme::cap_value(cap, c.nouveau)),
        DrmRequest::SetClientCap { capability, value } => if capability == 3 {
            if !m.atomic_uapi || !crate::drm::software_kms(m) {
                m2 == m && (r matches Err(e) && e == FsError::OpNotSupported)
            } else if value > 2 {
                m2 == m && (r matches Err(e) && e == FsError::InvalidParam)
            } else {
                m2 == (DrmModel { client_atomic: value != 0, ..m }) && (r matches Ok(DrmReply::Done))
            }
        } else if capability == 5 && (!m.client_atomic || value > 1) {
            m2 == m && (r matches Err(e) && e == FsError::InvalidParam)
        } else {
            m2 == m && (r matches Ok(DrmReply::Done))
        },
        DrmRequest::GemClose(id) => if crate::drm::handle_of(m.handles, id) is Some {
            m2 == closed(m, id) && (r matches Ok(DrmReply::Done))
        } else if crate::drm::primary(m) is Some && c.driver_closed {
            m2 == m && (r matches Ok(DrmReply::Done))
        } else {
            m2 == m && (r matches Err(e) && e == FsError::InvalidParam)
        },
        DrmRequest::SetMaster => m2 == m && (r matches Ok(DrmReply::Done)),
        DrmRequest::DropMaster => m2 == (DrmModel {
            graphics_vt: None,
            client_atomic: false,
            ..m
        }) && (r matches Ok(DrmReply::TextConsole)),
        DrmRequest::SetVersion { di_major, di_minor, dd_major } => m2 == m && (r matches Ok(
            DrmReply::Versions(v, verdict),
        ) && v == crate::drm_scheme::set_version_reply() && verdict == if (di_major != -1 && (di_major
            != 1 || di_minor < 0 || di_minor > 4)) || (dd_major != -1 && dd_major != 1) {
            Err(FsError::InvalidParam)
        } else {
            Ok::<(), FsError>(())
        }),
        DrmRequest::GetResources(rq) => m2 == m && (r matches Ok(DrmReply::Resources(t))
            && resources_listed(m, c.answers, rq, t)),
        DrmRequest::GetCrtc(id) => m2 == m && match crate::drm_topology::crtc_of(m, c.answers, id) {
            None => r matches Err(e) && e == FsError::InvalidParam,
            Some(k) => r matches Ok(DrmReply::Crtc(t)) && crtc_described(m, k, t),
        },
        DrmRequest::SetCrtc { fb_id, crtc_id } => shown_or_failed(m, c, fb_id, r, m2),
        DrmRequest::SetPlane { fb_id, crtc_id } => shown_or_failed(m, c, fb_id, r, m2),
        DrmRequest::GetEncoder => m2 == m && (r matches Ok(DrmReply::Encoder(t)) && t == (EncoderReply {
            encoder_id: SYNTH_ENCODER_ID,
            encoder_type: 6,
            crtc_id: if crate::drm::software_kms(m) { SYNTH_CRTC_ID } else { 0 },
            possible_crtcs: 1,
            possible_clones: 0,
        })),
        DrmRequest::GetConnector(cq) => m2 == m && match crate::drm_topology::connector_of(
            m,
            c.answers,
            cq.connector_id,
        ) {
            None => r matches Err(e) && e == FsError::InvalidParam,
            Some(k) => r matches Ok(DrmReply::Connector(t)) && connector_described(
                m,
                c.answers,
                cq,
                t,
            ),
        },
        DrmRequest::CreateDumb { width, height, bpp } => {
            let made = crate::drm_scheme::dumb_made(
                m,
                width,
                height,
                bpp,
                c.backing,
                c.accepted,
                c.pid,
            );
            m2 == made.0 && match made.1 {
                Ok(d) => r matches Ok(DrmReply::Dumb(t)) && t == d,
                Err(e) => r matches Err(f) && f == e,
            }
        },
        DrmRequest::MapDumb(handle) => m2 == m && (r matches Ok(DrmReply::Value(v)) && v == handle
            * 4096),
        DrmRequest::DestroyDumb(handle) => m2 == closed(m, handle) && (r matches Ok(DrmReply::Done)),
        DrmRequest::AddFb { handle, width, height, pitch } => match crate::drm::new_fb(
            m,
            handle,
            width,
            height,
            pitch,
            c.driver_fb,
        ) {
            None => m2 == m && (r matches Err(e) && e == FsError::DeviceError),
            Some(fb) => r matches Ok(DrmReply::Value(v)) && v == fb.id && m2 == (DrmModel {
                framebuffers: m.framebuffers.push(fb),
                next_fb_id: crate::drm::next_u32(fb.id),
                ..m
            }),
        },
        DrmRequest::RmFb(id) => m2 == fb_removed(m, id) && (r matches Ok(DrmReply::Done)),
        DrmRequest::CloseFb(id) => m2 == fb_removed(m, id) && if crate::drm::fb_of(
            m.framebuffers,
            id,
        ) is Some {
            r matches Ok(DrmReply::Done)
        } else {
            r matches Err(e) && e == FsError::InvalidParam
        },
        DrmRequest::PageFlip { fb_id, crtc_id, user_data } => {
            let p = crate::drm_kms::present_of(m, c.active_vt, fb_id, None, c.hw_flip);
            let s = crate::drm_kms::presented(m, c.active_vt, fb_id, None, c.hw_flip);
            if p.flipped {
                &&& m2 == crate::drm::armed(
                    s,
                    crate::drm::PendingDrmTimer::Flip { crtc_id, user_data },
                    c.now_ns,
                )
                &&& r matches Ok(DrmReply::Flip(t, at)) && t == p && at == if s.timer_armed {
                    None
                } else {
                    Some(crate::drm::vblank_deadline(s, c.now_ns))
                }
            } else {
                m2 == s && (r matches Err(e) && e == FsError::DeviceError)
            }
        },
        DrmRequest::GetPlaneResources { ptr, room } => m2 == m && (r matches Ok(
            DrmReply::Planes { ids, copy },
        ) && ids@ == (if crate::drm::software_kms(m) {
            seq![crate::drm::SYNTH_PLANE_ID]
        } else {
            crate::drm_topology::all_planes(
                c.answers.resources@,
                crate::drm_topology::any_hardware(c.answers.resources@),
            )
        }) && copy == crate::drm_scheme::copied(ptr, room, ids@.len() as int)),
        DrmRequest::GetPlane { plane_id, formats_ptr, room } => m2 == m
            && match crate::drm_topology::plane_of(m, c.answers, plane_id) {
            None => r matches Err(e) && e == FsError::InvalidParam,
            Some(p) => r matches Ok(DrmReply::Plane(t)) && t == (PlaneReply {
                crtc_id: p.crtc_id,
                fb_id: p.fb_id,
                possible_crtcs: p.possible_crtcs,
                count_formats: 2,
                copy_formats: crate::drm_scheme::copied(formats_ptr, room, 2),
            }),
        },
        DrmRequest::ObjGetProperties { obj_id, props_ptr, values_ptr, room } => m2 == m
            && (r matches Ok(DrmReply::Props(t)) && t.props@ == object_prop_list(
            m,
            c.answers,
            obj_id,
        ) && t.copy == (t.props@.len() > 0 && props_ptr != 0 && crate::drm_scheme::copied(
            values_ptr,
            room,
            t.props@.len() as int,
        ))),
        DrmRequest::SetProperty => m2 == m && (r matches Ok(DrmReply::Done)),
        DrmRequest::GetProperty { prop_id, values_ptr, count_values, enums_ptr, count_enums } => m2
            == m && match crate::drm_props::prop_row(prop_id) {
            None => r matches Err(e) && e == FsError::EntryNotFound,
            Some(row) => r matches Ok(DrmReply::Property(t)) && property_described(
                row,
                t,
                values_ptr,
                count_values,
                enums_ptr,
                count_enums,
            ),
        },
        DrmRequest::GetPropBlob { blob_id, ptr, room } => m2 == m && match blob_contents(
            m,
            c.answers,
            blob_id,
        ) {
            None => r matches Err(e) && e == FsError::InvalidParam,
            Some(data) => r matches Ok(DrmReply::Blob(t)) && t.data@ == data && t.copy
                == crate::drm_scheme::copied(ptr, room, data.len() as int),
        },
        DrmRequest::Cursor { flags, x, y, width, height, handle, pixels } => {
            let (set, changed) = cursor_set(m, flags, handle, width, height, pixels@);
            let k = cursor_moved(set, flags, x, y);
            if changed || flags & CURSOR_MOVE != 0 {
                &&& r matches Ok(DrmReply::Cursor(t)) && t == crate::drm_kms::repaint_of(
                    k,
                    c.active_vt,
                )
                &&& m2 == if crate::drm::software_kms(k) && crate::drm_kms::owns_screen(
                    k,
                    c.active_vt,
                ) {
                    DrmModel {
                        cursor: crate::drm::CursorModel {
                            drawn: crate::drm_kms::cursor_place(k.cursor),
                            ..k.cursor
                        },
                        ..k
                    }
                } else {
                    k
                }
            } else {
                m2 == k && (r matches Ok(DrmReply::Cursor(t)) && t is None)
            }
        },
        DrmRequest::WaitVblank { typ, signal } => if typ & VBLANK_EVENT != 0 {
            &&& r matches Ok(DrmReply::Vblank(t)) && t == VblankReply::Event(
                if m.timer_armed {
                    None
                } else {
                    Some(crate::drm::vblank_deadline(m, c.now_ns))
                },
            )
            &&& m2 == crate::drm::armed(
                m,
                crate::drm::PendingDrmTimer::Vblank {
                    seq: crate::drm::next_u32(crate::drm::vblank_seq_at(c.now_ns)),
                    signal,
                },
                c.now_ns,
            )
        } else {
            m2 == m && (r matches Ok(DrmReply::Vblank(t)) && t == VblankReply::Now(
                crate::drm::next_u32(crate::drm::vblank_seq_at(c.now_ns)),
                c.now_ns / 1_000_000_000,
                c.now_ns % 1_000_000_000 / 1000,
            ))
        },
        DrmRequest::GetFb(id) => m2 == m && match crate::drm::fb_of(m.framebuffers, id) {
            None => r matches Err(e) && e == FsError::InvalidParam,
            Some(fb) => r matches Ok(DrmReply::Fb(t)) && t == fb_reply(fb),
        },
        DrmRequest::DirtyFb { fb_id, num_clips, clips_ptr, clips } => {
            let a = crate::drm_scheme::dirty_area(num_clips, clips_ptr, clips@);
            &&& m2 == crate::drm_kms::presented(m, c.active_vt, fb_id, a, c.hw_flip)
            &&& r matches Ok(DrmReply::Show(t)) && t == crate::drm_kms::present_of(
                m,
                c.active_vt,
                fb_id,
                a,
                c.hw_flip,
            )
        },
        DrmRequest::Gamma => m2 == m && (r matches Ok(DrmReply::Done)),
        DrmRequest::ListLessees => m2 == m && (r matches Ok(DrmReply::Value(v)) && v == 0),
        DrmRequest::Atomic(aq) => exists|x: Result<Committed, FsError>| #[trigger]
            atomic_answered(m, aq, c.active_vt, c.hw_flip, c.now_ns, x, m2) && match x {
                Ok(k) => r matches Ok(DrmReply::Committed(t)) && t == k,
                Err(e) => r matches Err(f) && f == e,
            },
        DrmRequest::CreatePropBlob { ptr, length, data } => if ptr == 0 || length == 0 || length
            > 65536 {
            m2 == m && (r matches Err(e) && e == FsError::InvalidParam)
        } else {
            r matches Ok(DrmReply::Value(v)) && v == m.next_blob_id && m2 == (DrmModel {
                next_blob_id: crate::drm::next_u32(m.next_blob_id),
                blobs: m.blobs.push(
                    crate::drm::BlobModel {
                        id: m.next_blob_id,
                        user_created: true,
                        data: data@,
                    },
                ),
                ..m
            })
        },
        DrmRequest::DestroyPropBlob(id) => match destroy_result(destroy_outcome(m, id)) {
            Ok(_) => r matches Ok(DrmReply::Done) && m2 == (DrmModel {
                blobs: m.blobs.remove(crate::drm::blob_pos(m.blobs, id, 0)),
                ..m
            }),
            Err(e) => r matches Err(f) && f == e && m2 == m,
        },
        DrmRequest::Sync(sq) => m2 == m && match sync_job(c.nouveau, sq) {
            Ok(job) => r matches Ok(DrmReply::Sync(t)) && t == job,
            Err(e) => r matches Err(f) && f == e,
        },
        DrmRequest::Driver => m2 == m && if crate::drm::primary(m) is Some {
            r matches Ok(DrmReply::AskDriver)
        } else {
            r matches Err(e) && e == FsError::NotSupported
        },
    }
}

/// The state without a buffer.
pub open spec fn closed(m: DrmModel, id: u32) -> DrmModel {
    match crate::drm::handle_of(m.handles, id) {
        None => m,
        Some(h) => DrmModel {
            handles: m.handles.remove(crate::drm::handle_pos(m.handles, id, 0)),
            freed: if crate::drm::primary(m) is Some { m.freed.push(h) } else { m.freed },
            ..m
        },
    }
}

/// The state without a framebuffer.
pub open spec fn fb_removed(m: DrmModel, id: u32) -> DrmModel {
    DrmModel {
        crtc_fb: if m.crtc_fb == id { 0 } else { m.crtc_fb },
        framebuffers: if crate::drm::fb_of(m.framebuffers, id) is Some {
            m.framebuffers.remove(crate::drm::fb_pos(m.framebuffers, id, 0))
        } else {
            m.framebuffers
        },
        ..m
    }
}

/// Setting a CRTC or a plane: framebuffer 0 does nothing, any other is shown or the request fails.
pub open spec fn shown_or_failed(
    m: DrmModel,
    c: DrmContext,
    fb_id: u32,
    r: Result<DrmReply, FsError>,
    m2: DrmModel,
) -> bool {
    let p = crate::drm_kms::present_of(m, c.active_vt, fb_id, None, c.hw_flip);
    if fb_id == 0 {
        m2 == m && r matches Ok(DrmReply::Done)
    } else {
        &&& m2 == crate::drm_kms::presented(m, c.active_vt, fb_id, None, c.hw_flip)
        &&& if p.flipped {
            r matches Ok(DrmReply::Show(t)) && t == p
        } else {
            r matches Err(e) && e == FsError::DeviceError
        }
    }
}

fn show(st: &mut DrmState, c: &DrmContext, fb_id: u32, crtc_id: u32) -> (r: Result<DrmReply, FsError>)
    ensures
        shown_or_failed(old(st)@, *c, fb_id, r, final(st)@),
{
    if fb_id == 0 {
        return Ok(DrmReply::Done);
    }
    let p = present_now(st, c.active_vt, fb_id, crtc_id, c.hw_flip);
    if p.flipped {
        Ok(DrmReply::Show(p))
    } else {
        Err(FsError::DeviceError)
    }
}

fn done(r: Result<(), FsError>) -> (t: Result<DrmReply, FsError>)
    ensures
        match r {
            Ok(_) => t matches Ok(DrmReply::Done),
            Err(e) => t matches Err(f) && f == e,
        },
{
    match r {
        Ok(_) => Ok(DrmReply::Done),
        Err(e) => Err(e),
    }
}

/// Whether a request only asks: it leaves the card as it is.
pub open spec fn asks(q: DrmRequest) -> bool {
    match q {
        DrmRequest::Version(_)
        | DrmRequest::GetUnique { .. }
        | DrmRequest::GetMagic
        | DrmRequest::AuthMagic
        | DrmRequest::GetCap(_)
        | DrmRequest::SetMaster
        | DrmRequest::SetVersion { .. }
        | DrmRequest::GetResources(_)
        | DrmRequest::GetCrtc(_)
        | DrmRequest::GetEncoder
        | DrmRequest::GetConnector(_)
        | DrmRequest::MapDumb(_)
        | DrmRequest::GetPlaneResources { .. }
        | DrmRequest::GetPlane { .. }
        | DrmRequest::ObjGetProperties { .. }
        | DrmRequest::SetProperty
        | DrmRequest::GetProperty { .. }
        | DrmRequest::GetPropBlob { .. }
        | DrmRequest::GetFb(_)
        | DrmRequest::Gamma
        | DrmRequest::ListLessees
        | DrmRequest::Sync(_)
        | DrmRequest::Driver => true,
        _ => false,
    }
}

fn only_asks(q: &DrmRequest) -> (b: bool)
    ensures
        b == asks(*q),
{
    match q {
        DrmRequest::Version(_)
        | DrmRequest::GetUnique { .. }
        | DrmRequest::GetMagic
        | DrmRequest::AuthMagic
        | DrmRequest::GetCap(_)
        | DrmRequest::SetMaster
        | DrmRequest::SetVersion { .. }
        | DrmRequest::GetResources(_)
        | DrmRequest::GetCrtc(_)
        | DrmRequest::GetEncoder
        | DrmRequest::GetConnector(_)
        | DrmRequest::MapDumb(_)
        | DrmRequest::GetPlaneResources { .. }
        | DrmRequest::GetPlane { .. }
        | DrmRequest::ObjGetProperties { .. }
        | DrmRequest::SetProperty
        | DrmRequest::GetProperty { .. }
        | DrmRequest::GetPropBlob { .. }
        | DrmRequest::GetFb(_)
        | DrmRequest::Gamma
        | DrmRequest::ListLessees
        | DrmRequest::Sync(_)
        | DrmRequest::Driver => true,
        _ => false,
    }
}

/// Answers a request that only asks.
#[verifier::rlimit(100)]
#[verifier::spinoff_prover]
fn tell(st: &DrmState, c: &DrmContext, q: DrmRequest) -> (r: Result<DrmReply, FsError>)
    requires
        asks(q),
    ensures
        answered(st@, *c, q, r, st@),
{
    match q {
        DrmRequest::Version(v) => Ok(DrmReply::Version(version(&v, c.nouveau))),
        DrmRequest::GetUnique { len, ptr } => Ok(DrmReply::Text(unique(len, ptr))),
        DrmRequest::GetMagic => Ok(DrmReply::Value(1)),
        DrmRequest::AuthMagic => Ok(DrmReply::Done),
        DrmRequest::GetCap(cap) => Ok(DrmReply::Value(get_cap(cap, c.nouveau))),
        DrmRequest::SetMaster => Ok(DrmReply::Done),
        DrmRequest::SetVersion { di_major, di_minor, dd_major } => {
            let (reply, verdict) = set_version(di_major, di_minor, dd_major);
            Ok(DrmReply::Versions(reply, verdict))
        },
        DrmRequest::GetResources(rq) => Ok(DrmReply::Resources(resources(st, &rq, &c.answers))),
        DrmRequest::GetCrtc(id) => match crtc(st, id, &c.answers) {
            Ok(t) => Ok(DrmReply::Crtc(t)),
            Err(e) => Err(e),
        },
        DrmRequest::GetEncoder => Ok(DrmReply::Encoder(encoder(st))),
        DrmRequest::GetConnector(cq) => match connector(st, &cq, &c.answers) {
            Ok(t) => Ok(DrmReply::Connector(t)),
            Err(e) => Err(e),
        },
        DrmRequest::MapDumb(handle) => Ok(DrmReply::Value(map_dumb(handle))),
        DrmRequest::GetPlaneResources { ptr, room } => {
            let ids = get_planes(st, &c.answers);
            let copy = copies(ptr, room, ids.len());
            Ok(DrmReply::Planes { ids, copy })
        },
        DrmRequest::GetPlane { plane_id, formats_ptr, room } => match plane(
            st,
            plane_id,
            formats_ptr,
            room,
            &c.answers,
        ) {
            Ok(t) => Ok(DrmReply::Plane(t)),
            Err(e) => Err(e),
        },
        DrmRequest::ObjGetProperties { obj_id, props_ptr, values_ptr, room } => Ok(
            DrmReply::Props(object_properties(st, obj_id, props_ptr, values_ptr, room, &c.answers)),
        ),
        DrmRequest::SetProperty => Ok(DrmReply::Done),
        DrmRequest::GetProperty { prop_id, values_ptr, count_values, enums_ptr, count_enums } => match property(
            prop_id,
            values_ptr,
            count_values,
            enums_ptr,
            count_enums,
        ) {
            Ok(t) => Ok(DrmReply::Property(t)),
            Err(e) => Err(e),
        },
        DrmRequest::GetPropBlob { blob_id, ptr, room } => match property_blob(
            st,
            blob_id,
            ptr,
            room,
            &c.answers,
        ) {
            Ok(t) => Ok(DrmReply::Blob(t)),
            Err(e) => Err(e),
        },
        DrmRequest::GetFb(id) => match get_fb(st, id) {
            Some(fb) => Ok(
                DrmReply::Fb(
                    FbReply {
                        width: fb.width,
                        height: fb.height,
                        pitch: fb.pitch,
                        bpp: 32,
                        depth: 24,
                        pixel_format: FORMAT_XRGB8888,
                        handle: fb.gem_handle_id,
                    },
                ),
            ),
            None => Err(FsError::InvalidParam),
        },
        DrmRequest::Gamma => Ok(DrmReply::Done),
        DrmRequest::ListLessees => Ok(DrmReply::Value(0)),
        DrmRequest::Sync(sq) => match sync(c.nouveau, &sq) {
            Ok(job) => Ok(DrmReply::Sync(job)),
            Err(e) => Err(e),
        },
        DrmRequest::Driver => {
            if get_primary_driver(st).is_some() {
                Ok(DrmReply::AskDriver)
            } else {
                Err(FsError::NotSupported)
            }
        },
        _ => Err(FsError::NotSupported),
    }
}

/// Answers a request that may change something.
#[verifier::rlimit(100)]
#[verifier::spinoff_prover]
fn act(st: &mut DrmState, c: &DrmContext, q: DrmRequest) -> (r: Result<DrmReply, FsError>)
    requires
        !asks(q),
        filled_in(old(st)@, q),
    ensures
        answered(old(st)@, *c, q, r, final(st)@),
{
    match q {
        DrmRequest::SetClientCap { capability, value } => done(
            set_client_cap(st, capability, value),
        ),
        DrmRequest::GemClose(id) => {
            if gem_close(st, id) {
                Ok(DrmReply::Done)
            } else if st.drivers.len() > 0 && c.driver_closed {
                Ok(DrmReply::Done)
            } else {
                Err(FsError::InvalidParam)
            }
        },
        DrmRequest::DropMaster => {
            drop_master(st);
            Ok(DrmReply::TextConsole)
        },
        DrmRequest::SetCrtc { fb_id, crtc_id } => show(st, c, fb_id, crtc_id),
        DrmRequest::SetPlane { fb_id, crtc_id } => show(st, c, fb_id, crtc_id),
        DrmRequest::CreateDumb { width, height, bpp } => match create_dumb(
            st,
            width,
            height,
            bpp,
            c.backing,
            c.accepted,
            c.pid,
        ) {
            Ok(t) => Ok(DrmReply::Dumb(t)),
            Err(e) => Err(e),
        },
        DrmRequest::DestroyDumb(handle) => {
            let _ = gem_close(st, handle);
            Ok(DrmReply::Done)
        },
        DrmRequest::AddFb { handle, width, height, pitch } => match create_fb(
            st,
            handle,
            width,
            height,
            pitch,
            c.driver_fb,
        ) {
            Some(id) => Ok(DrmReply::Value(id as u64)),
            None => Err(FsError::DeviceError),
        },
        DrmRequest::RmFb(id) => {
            let _ = rmfb(st, id);
            Ok(DrmReply::Done)
        },
        DrmRequest::CloseFb(id) => {
            if rmfb(st, id) {
                Ok(DrmReply::Done)
            } else {
                Err(FsError::InvalidParam)
            }
        },
        DrmRequest::PageFlip { fb_id, crtc_id, user_data } => {
            let (p, at) = page_flip(
                st,
                c.active_vt,
                fb_id,
                crtc_id,
                user_data,
                c.hw_flip,
                c.now_ns,
            );
            if p.flipped {
                Ok(DrmReply::Flip(p, at))
            } else {
                Err(FsError::DeviceError)
            }
        },
        DrmRequest::Cursor { flags, x, y, width, height, handle, pixels } => Ok(
            DrmReply::Cursor(cursor(st, c.active_vt, flags, x, y, width, height, handle, pixels)),
        ),
        DrmRequest::WaitVblank { typ, signal } => Ok(
            DrmReply::Vblank(wait_vblank(st, typ, signal, c.now_ns)),
        ),
        DrmRequest::DirtyFb { fb_id, num_clips, clips_ptr, clips } => Ok(
            DrmReply::Show(
                dirty_fb(st, c.active_vt, fb_id, num_clips, clips_ptr, &clips, c.hw_flip),
            ),
        ),
        DrmRequest::Atomic(aq) => {
            let x = atomic(st, &aq, c.active_vt, c.hw_flip, c.now_ns);
            assert(atomic_answered(old(st)@, aq, c.active_vt, c.hw_flip, c.now_ns, x, st@));
            match x {
                Ok(t) => Ok(DrmReply::Committed(t)),
                Err(e) => Err(e),
            }
        },
        DrmRequest::CreatePropBlob { ptr, length, data } => match create_property_blob(
            st,
            ptr,
            length,
            data,
        ) {
            Ok(id) => Ok(DrmReply::Value(id as u64)),
            Err(e) => Err(e),
        },
        DrmRequest::DestroyPropBlob(id) => done(destroy_property_blob(st, id)),
        _ => Err(FsError::NotSupported),
    }
}

/// Answers a request to the card.
pub fn io_control(st: &mut DrmState, c: &DrmContext, q: DrmRequest) -> (r: Result<DrmReply, FsError>)
    requires
        filled_in(old(st)@, q),
    ensures
        answered(old(st)@, *c, q, r, final(st)@),
        crate::drm_ids::well_named(old(st)@) && crate::drm_ids::ids_left(old(st)@)
            ==> crate::drm_ids::well_named(final(st)@),
{
    let ghost asked = q;
    let r = if only_asks(&q) {
        tell(st, c, q)
    } else {
        act(st, c, q)
    };
    proof {
        if crate::drm_ids::well_named(old(st)@) && crate::drm_ids::ids_left(old(st)@) {
            crate::drm_ids::law_requests_keep_names(old(st)@, *c, asked, r, st@);
        }
    }
    r
}

/// A request that only asks leaves the card as it is.
pub proof fn law_asking_changes_nothing(
    m: DrmModel,
    c: DrmContext,
    q: DrmRequest,
    r: Result<DrmReply, FsError>,
    m2: DrmModel,
)
    requires
        asks(q),
        answered(m, c, q, r, m2),
    ensures
        m2 == m,
{
}

/// How large a monitor is: what its first detailed timing says, in millimeters, where it has one and
/// that is believable, else what it says in centimeters, where it says both.
pub proof fn law_monitor_size(e: Seq<u8>)
    requires
        e.len() == 128,
    ensures
        ({
            let w = e[66] + 256 * (e[68] / 16);
            let h = e[67] + 256 * (e[68] % 16);
            let detailed = (e[54] != 0 || e[55] != 0) && 10 <= w <= 2000 && 10 <= h <= 2000;
            &&& detailed ==> (edid_size(e) matches Some(s) && s.0 == w && s.1 == h)
            &&& !detailed && e[21] > 0 && e[22] > 0 ==> (edid_size(e) matches Some(s) && s.0 == 10 * e[21]
                && s.1 == 10 * e[22])
            &&& !detailed && (e[21] == 0 || e[22] == 0) ==> edid_size(e) is None
        }),
{
}

/// A size that a connector does not tell is that of its monitor, then a guess by the display's pixels.
pub proof fn law_size_filled_in(m: DrmModel, d: DriverAnswers, id: u32)
    ensures
        crate::drm_topology::edid_of(d, id) matches Some(e) ==> (edid_size(e@) matches Some(s)
            ==> fallback_mm(m, d, id) == s),
        (crate::drm_topology::edid_of(d, id) is None || edid_size(crate::drm_topology::edid_of(d, id)->0@)
            is None) ==> fallback_mm(m, d, id) == (match m.display {
            Some(disp) => (
                crate::drm_topology::mm_at_96dpi(disp.width),
                crate::drm_topology::mm_at_96dpi(disp.height),
            ),
            None => (1u32, 1u32),
        }),
{
}

/// What is told of a connector: 1 for connected and 2 for not, a size that it has or that was found for
/// it, one encoder, and one mode where there is a display, which is the display's.
pub proof fn law_connector_reply(m: DrmModel, d: DriverAnswers, q: ConnectorQuery, r: ConnectorReply)
    requires
        connector_described(m, d, q, r),
        crate::drm_topology::connector_of(m, d, q.connector_id) is Some,
    ensures
        ({
            let c = crate::drm_topology::connector_of(m, d, q.connector_id)->0;
            &&& c.connected ==> r.connection == 1
            &&& !c.connected ==> r.connection == 2
            &&& c.mm_width > 0 ==> r.mm_width == c.mm_width
            &&& c.mm_height > 0 ==> r.mm_height == c.mm_height
            &&& c.mm_width == 0 ==> r.mm_width == fallback_mm(m, d, q.connector_id).0
            &&& c.mm_height == 0 ==> r.mm_height == fallback_mm(m, d, q.connector_id).1
            &&& r.encoder_id == 3 && r.count_encoders == 1
            &&& r.copy_encoder <==> q.encoders_ptr != 0 && q.count_encoders >= 1
            &&& r.count_modes == 1 <==> m.display is Some
            &&& r.mode is Some <==> m.display is Some && q.modes_ptr != 0 && q.count_modes >= 1
            &&& r.copy_props <==> q.props_ptr != 0 && q.prop_values_ptr != 0 && q.count_props
                >= r.props@.len()
        }),
{
    reveal(connector_described);
}

/// What is listed: every framebuffer, and of the rest what software or the drivers have; an encoder
/// where there is a connector, and each list is copied out whole or not at all.
pub proof fn law_resource_reply(m: DrmModel, d: DriverAnswers, q: ResourceQuery, r: ResourceReply, k: int)
    requires
        resources_listed(m, d, q, r),
        0 <= k < m.framebuffers.len(),
    ensures
        r.fbs@.len() == m.framebuffers.len(),
        r.fbs@[k] == m.framebuffers[k].id,
        crate::drm::software_kms(m) ==> r.crtcs@ == seq![1u32] && r.connectors@ == seq![2u32],
        r.copy_fbs <==> q.fb_ptr != 0 && q.count_fbs >= r.fbs@.len(),
        r.copy_crtcs <==> q.crtc_ptr != 0 && q.count_crtcs >= r.crtcs@.len(),
        r.copy_connectors <==> q.connector_ptr != 0 && q.count_connectors >= r.connectors@.len(),
        r.count_encoders == 1 <==> r.connectors@.len() > 0,
        r.copy_encoder <==> r.connectors@.len() > 0 && q.encoder_ptr != 0 && q.count_encoders >= 1,
{
    reveal(resources_listed);
    assert(r.fbs@ == crate::drm_topology::fb_ids(m.framebuffers));
}

/// A blob is read by its number; one that was not made is the description of a monitor, under the number
/// of its connector and 20000.
pub proof fn law_blob_read(m: DrmModel, d: DriverAnswers, id: u32, connector: u32)
    ensures
        crate::drm::blob_of(m.blobs, id) matches Some(data) ==> blob_contents(m, d, id) == Some(data),
        crate::drm::blob_of(m.blobs, id) is None && id < 20000 ==> blob_contents(m, d, id) is None,
        crate::drm::blob_of(m.blobs, id) is None && id == connector + 20000 ==> (
        crate::drm_topology::edid_of(d, connector) matches Some(e) ==> blob_contents(m, d, id) == Some(
            e@,
        )),
        crate::drm::blob_of(m.blobs, id) is None && id == connector + 20000 && crate::drm_topology::edid_of(
            d,
            connector,
        ) is None ==> blob_contents(m, d, id) is None,
{
}

/// Destroying a blob fails where there is none, and where the kernel made it.
pub proof fn law_destroy_outcomes(m: DrmModel, id: u32, k: int)
    requires
        0 <= k < m.blobs.len(),
        m.blobs[k].id == id,
        forall|j: int| 0 <= j < k ==> (#[trigger] m.blobs[j]).id != id,
    ensures
        m.blobs[k].user_created ==> destroy_result(destroy_outcome(m, id)) is Ok,
        !m.blobs[k].user_created ==> destroy_result(destroy_outcome(m, id)) == Err::<(), FsError>(
            FsError::NoPermission,
        ),
{
    lemma_first_blob(m.blobs, id, 0, k);
}

proof fn lemma_first_blob(bs: Seq<crate::drm::BlobModel>, id: u32, from: int, k: int)
    requires
        0 <= from <= k < bs.len(),
        bs[k].id == id,
        forall|j: int| 0 <= j < k ==> (#[trigger] bs[j]).id != id,
    ensures
        crate::drm::blob_pos(bs, id, from) == k,
    decreases k - from,
{
    if from < k {
        lemma_first_blob(bs, id, from + 1, k);
    }
}

/// A property set twice in one request has its last value, and the first that fails fails the rest.
pub proof fn law_staged_in_order(
    m: DrmModel,
    d: DriverAnswers,
    u: AtomicUpdate,
    obj_id: u32,
    props: Seq<(u32, u64)>,
    p: (u32, u64),
)
    ensures
        staged_props(m, d, u, obj_id, Seq::empty()) == Ok::<AtomicUpdate, FsError>(u),
        staged_props(m, d, u, obj_id, props) matches Err(e) ==> staged_props(m, d, u, obj_id, props.push(p))
            == Err::<AtomicUpdate, FsError>(e),
        staged_props(m, d, u, obj_id, props) matches Ok(v) ==> staged_props(m, d, u, obj_id, props.push(p))
            == crate::drm_props::staged(m, d, v, obj_id, p.0, p.1),
{
    assert(props.push(p).drop_last() =~= props);
}

/// An atomic request is all or nothing: one that is malformed, refused or only to be tried changes
/// nothing, and asks for nothing to be shown.
pub proof fn law_refused_changes_nothing(
    m: DrmModel,
    q: AtomicRequest,
    active_vt: usize,
    hw_flip: bool,
    now_ns: u64,
    r: Result<Committed, FsError>,
    m2: DrmModel,
)
    requires
        atomic_answered(m, q, active_vt, hw_flip, now_ns, r, m2),
    ensures
        q.flags & 0x100 != 0 ==> m2 == m,
        q.flags & 0x100 != 0 ==> (r matches Ok(c) ==> c.present is None && c.timer is None),
        r matches Err(e) ==> m2 == m || e == FsError::DeviceError,
        !m.client_atomic || q.reserved != 0 || q.flags & 2 != 0 || q.flags & !0x703u32 != 0 || (q.flags
            & 0x100 != 0 && q.flags & 1 != 0) ==> r == Err::<Committed, FsError>(FsError::InvalidParam)
            && m2 == m,
        q.count_objs > 64 ==> r is Err && m2 == m,
        q.count_objs == 0 && r is Ok ==> m2 == m,
{
}

/// A request that is carried out and wants to be told arms the timer with its word; one that does not
/// want to be told starts none.
pub proof fn law_commit_told(
    m: DrmModel,
    q: AtomicRequest,
    active_vt: usize,
    hw_flip: bool,
    now_ns: u64,
    r: Result<Committed, FsError>,
    m2: DrmModel,
)
    requires
        atomic_answered(m, q, active_vt, hw_flip, now_ns, r, m2),
        r is Ok,
        q.count_objs > 0,
        q.flags & 0x100 == 0,
    ensures
        q.flags & 1 != 0 ==> m2.timer_armed && m2.pending == Some(
            crate::drm::PendingDrmTimer::Flip { crtc_id: 1, user_data: q.user_data },
        ),
        q.flags & 1 == 0 ==> r->Ok_0.timer is None,
        r->Ok_0.timer matches Some(t) ==> m2.next_vblank == t,
{
}

/// Fences are worked on under the driver that has them, for 1 to 64 of them that were given, with points
/// where the command needs points.
pub proof fn law_fence_requests(nouveau: bool, count: u32, handles: u64, needs: bool, points: u64)
    ensures
        !nouveau ==> sync_verdict(nouveau, count, handles, needs, points) == Err::<(), FsError>(
            FsError::OpNotSupported,
        ),
        nouveau ==> (sync_verdict(nouveau, count, handles, needs, points) is Ok <==> 1 <= count <= 64
            && handles != 0 && (!needs || points != 0)),
        nouveau ==> (sync_verdict(nouveau, count, handles, needs, points) matches Err(e) ==> e
            == FsError::InvalidParam),
{
}

/// What each fence command comes to.
pub proof fn law_fence_jobs(nouveau: bool, q: SyncRequest)
    ensures
        !nouveau ==> sync_job(nouveau, q) == Err::<SyncJob, FsError>(FsError::OpNotSupported),
        nouveau ==> match q.command {
            SyncCommand::Create { flags } => sync_job(nouveau, q) matches Ok(SyncJob::Create { signaled })
                && (signaled <==> flags & 1 != 0),
            SyncCommand::Destroy(h) => sync_job(nouveau, q) == Ok::<SyncJob, FsError>(SyncJob::Destroy(h)),
            SyncCommand::Reset => sync_job(nouveau, q) is Ok <==> 1 <= q.count <= 64 && q.handles_ptr != 0,
            SyncCommand::Signal => sync_job(nouveau, q) is Ok <==> 1 <= q.count <= 64 && q.handles_ptr != 0,
            SyncCommand::TimelineSignal => sync_job(nouveau, q) is Ok <==> 1 <= q.count <= 64
                && q.handles_ptr != 0 && q.points_ptr != 0,
            SyncCommand::Query => sync_job(nouveau, q) is Ok <==> 1 <= q.count <= 64 && q.handles_ptr != 0
                && q.points_ptr != 0,
            SyncCommand::Wait { .. } => sync_job(nouveau, q) is Ok <==> 1 <= q.count <= 64 && q.handles_ptr
                != 0,
        },
        sync_job(nouveau, q) matches Ok(j) ==> {
            &&& q.command is Reset <==> j is Reset
            &&& q.command is Signal <==> j is Signal
            &&& q.command is TimelineSignal <==> j is TimelineSignal
            &&& q.command is Query <==> j is Query
            &&& q.command is Wait <==> j is Wait
        },
{
    reveal(sync_job);
}

/// A wait for fences is for all or for any, with points where a timeline gives them, until its time in
/// microseconds; a time that is past is 0.
pub proof fn law_fence_wait(q: SyncRequest, timeline: bool, timeout_nsec: i64, flags: u32)
    requires
        q.command == (SyncCommand::Wait { timeline, timeout_nsec, flags }),
        1 <= q.count <= 64,
        q.handles_ptr != 0,
    ensures
        sync_job(true, q) matches Ok(SyncJob::Wait { with_points, all, deadline_us }) && {
            &&& with_points <==> timeline && q.points_ptr != 0
            &&& all <==> flags & 1 != 0
            &&& timeout_nsec < 0 ==> deadline_us == 0
            &&& timeout_nsec >= 0 ==> 1000 * deadline_us <= timeout_nsec < 1000 * deadline_us + 1000
        },
{
    reveal(sync_job);
}

/// The two cursor commands do what the card does: one bit sets the image, another the place.
pub proof fn law_cursor_commands(
    m: DrmModel,
    flags: u32,
    handle: u32,
    w: u32,
    h: u32,
    px: Seq<u32>,
    x: i32,
    y: i32,
)
    ensures
        flags & 1 == 0 ==> cursor_set(m, flags, handle, w, h, px) == (m, false),
        flags & 1 != 0 ==> cursor_set(m, flags, handle, w, h, px) == (
            crate::drm_kms::cursor_set(m, handle, w, h, px).1,
            crate::drm_kms::cursor_set(m, handle, w, h, px).0,
        ),
        flags & 2 == 0 ==> cursor_moved(m, flags, x, y) == m,
        flags & 2 != 0 ==> cursor_moved(m, flags, x, y).cursor.x == x && cursor_moved(
            m,
            flags,
            x,
            y,
        ).cursor.y == y && cursor_moved(m, flags, x, y).cursor.bitmap == m.cursor.bitmap && cursor_moved(
            m,
            flags,
            x,
            y,
        ).cursor.visible == m.cursor.visible,
{
}

/// Closing a buffer and removing a framebuffer by a request is what the card does of them.
pub proof fn law_requests_close(m: DrmModel, id: u32)
    ensures
        closed(m, id) == crate::drm::handle_closed(m, id),
        fb_removed(m, id) == crate::drm::fb_removed(m, id),
{
}

/// A frame that is set is shown, or the request fails; setting none does nothing.
pub proof fn law_frame_set(m: DrmModel, c: DrmContext, fb_id: u32, r: Result<DrmReply, FsError>, m2: DrmModel)
    requires
        shown_or_failed(m, c, fb_id, r, m2),
    ensures
        fb_id == 0 ==> m2 == m && r is Ok,
        fb_id != 0 ==> (r is Ok <==> crate::drm_kms::present_of(
            m,
            c.active_vt,
            fb_id,
            None,
            c.hw_flip,
        ).flipped),
        fb_id != 0 && r is Err ==> m2.crtc_fb == m.crtc_fb,
        fb_id != 0 ==> m2 == crate::drm_kms::presented(m, c.active_vt, fb_id, None, c.hw_flip),
{
}

/// A framebuffer is described as it was made: 32 bits for each pixel, 24 of them color.
pub proof fn law_framebuffer_described(fb: DrmFramebuffer)
    ensures
        fb_reply(fb).width == fb.width && fb_reply(fb).height == fb.height && fb_reply(fb).pitch == fb.pitch,
        fb_reply(fb).handle == fb.gem_handle_id,
        fb_reply(fb).bpp == 32 && fb_reply(fb).depth == 24,
{
}

/// What an object tells of itself is what a plane, a controller or a connector of its number tells, in
/// that order, and nothing where there is none.
pub proof fn law_object_told(m: DrmModel, d: DriverAnswers, id: u32)
    ensures
        crate::drm_topology::plane_of(m, d, id) matches Some(p) ==> object_prop_list(m, d, id)
            == crate::drm_props::plane_prop_list(m, p),
        crate::drm_topology::plane_of(m, d, id) is None && crate::drm_topology::crtc_of(m, d, id) is Some
            ==> object_prop_list(m, d, id) == crate::drm_props::crtc_prop_list(m),
        crate::drm_topology::plane_of(m, d, id) is None && crate::drm_topology::crtc_of(m, d, id) is None
            && crate::drm_topology::connector_of(m, d, id) is Some ==> object_prop_list(m, d, id)
            == crate::drm_props::connector_prop_list(m, d, id),
        crate::drm_topology::plane_of(m, d, id) is None && crate::drm_topology::crtc_of(m, d, id) is None
            && crate::drm_topology::connector_of(m, d, id) is None ==> object_prop_list(m, d, id).len()
            == 0,
{
}

/// A frame that is shown changes neither buffers, framebuffers nor blobs, and tells nobody by itself.
proof fn lemma_showing_keeps(m: DrmModel, active_vt: usize, fb_id: u32, a: Option<crate::drm_kms::Area>, hw_flip: bool)
    ensures
        ({
            let n = crate::drm_kms::presented(m, active_vt, fb_id, a, hw_flip);
            &&& n.handles == m.handles && n.framebuffers == m.framebuffers && n.blobs == m.blobs
            &&& n.events == m.events && n.pending == m.pending && n.timer_armed == m.timer_armed
            &&& n.client_atomic == m.client_atomic
        }),
{
}

/// Which requests change what: giving up the display ends atomic requests and the terminal's hold on it;
/// buffers, framebuffers and blobs are made and dropped only by the requests for that.
#[verifier::spinoff_prover]
#[verifier::rlimit(100)]
pub proof fn law_requests_kept_apart(
    m: DrmModel,
    c: DrmContext,
    q: DrmRequest,
    r: Result<DrmReply, FsError>,
    m2: DrmModel,
)
    requires
        answered(m, c, q, r, m2),
        !(q is Atomic),
    ensures
        !(q is GemClose || q is CreateDumb || q is DestroyDumb) ==> m2.handles == m.handles,
        !(q is AddFb || q is RmFb || q is CloseFb) ==> m2.framebuffers == m.framebuffers,
        !(q is CreatePropBlob || q is DestroyPropBlob) ==> m2.blobs == m.blobs,
        q is DropMaster ==> m2.graphics_vt is None && !m2.client_atomic,
        !(q is DropMaster || q is SetClientCap) ==> m2.client_atomic == m.client_atomic,
        m2.events == m.events,
        !(q is PageFlip || q is WaitVblank) ==> m2.pending == m.pending && m2.timer_armed
            == m.timer_armed,
{
    match q {
        DrmRequest::SetCrtc { fb_id, .. } => {
            lemma_showing_keeps(m, c.active_vt, fb_id, None, c.hw_flip);
        },
        DrmRequest::SetPlane { fb_id, .. } => {
            lemma_showing_keeps(m, c.active_vt, fb_id, None, c.hw_flip);
        },
        DrmRequest::PageFlip { fb_id, .. } => {
            lemma_showing_keeps(m, c.active_vt, fb_id, None, c.hw_flip);
        },
        DrmRequest::DirtyFb { fb_id, num_clips, clips_ptr, clips } => {
            lemma_showing_keeps(
                m,
                c.active_vt,
                fb_id,
                crate::drm_scheme::dirty_area(num_clips, clips_ptr, clips@),
                c.hw_flip,
            );
        },
        _ => {
            if asks(q) {
                law_asking_changes_nothing(m, c, q, r, m2);
            }
        },
    }
}

/// A blob that a user hands over has one to 65536 bytes; it is kept as the user's, with its bytes.
pub proof fn law_blob_handed_over(
    m: DrmModel,
    c: DrmContext,
    ptr: u64,
    length: u32,
    data: Vec<u8>,
    r: Result<DrmReply, FsError>,
    m2: DrmModel,
)
    requires
        answered(m, c, DrmRequest::CreatePropBlob { ptr, length, data }, r, m2),
    ensures
        r is Ok <==> ptr != 0 && 1 <= length <= 65536,
        r is Ok ==> m2 == crate::drm::blob_created(m, data@, true),
        r is Err ==> m2 == m,
{
}

/// Waiting for a vertical blank answers now, with the time and the next count, or by an event with that
/// count.
pub proof fn law_blank_answers(
    m: DrmModel,
    c: DrmContext,
    typ: u32,
    signal: u64,
    r: Result<DrmReply, FsError>,
    m2: DrmModel,
)
    requires
        answered(m, c, DrmRequest::WaitVblank { typ, signal }, r, m2),
        c.now_ns * 60 < 0xffff_ffff * 1_000_000_000,
    ensures
        typ & 0x400_0000 == 0 ==> m2 == m && (r matches Ok(DrmReply::Vblank(VblankReply::Now(n, s, us)))
            && n == crate::drm::vblank_seq_at(c.now_ns) + 1 && us < 1_000_000 && s * 1_000_000_000 + us
            * 1000 <= c.now_ns < s * 1_000_000_000 + us * 1000 + 1000),
        typ & 0x400_0000 != 0 ==> m2.timer_armed && (
        m2.pending matches Some(crate::drm::PendingDrmTimer::Vblank { seq, signal: word }) && word == signal
            && seq == crate::drm::vblank_seq_at(c.now_ns) + 1),
{
}

} // verus!
