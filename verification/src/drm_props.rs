//! The properties of the synthetic pipeline, the mode it offers, and how an atomic request names
//! both.
use vstd::prelude::*;
use crate::bytes::{push_u16, push_u32};
use crate::drm::{atomic_client, atomic_snapshot, DrmModel, DrmState, SYNTH_CRTC_ID};
use crate::drm_atomic::AtomicUpdate;
use crate::drm_topology::{
    get_connector, get_connector_edid, get_crtc, get_plane, DriverAnswers, DrmPlane,
};
use crate::error::FsError;

verus! {

pub const PROP_TYPE: u32 = 10;

pub const PROP_EDID: u32 = 11;

pub const PROP_DPMS: u32 = 12;

pub const PROP_LINK_STATUS: u32 = 13;

pub const PROP_NON_DESKTOP: u32 = 14;

pub const PROP_FB_ID: u32 = 15;

/// Attached to both the plane and the connector.
pub const PROP_CRTC_ID: u32 = 16;

pub const PROP_CRTC_X: u32 = 17;

pub const PROP_CRTC_Y: u32 = 18;

pub const PROP_CRTC_W: u32 = 19;

pub const PROP_CRTC_H: u32 = 20;

pub const PROP_SRC_X: u32 = 21;

pub const PROP_SRC_Y: u32 = 22;

pub const PROP_SRC_W: u32 = 23;

pub const PROP_SRC_H: u32 = 24;

pub const PROP_ACTIVE: u32 = 25;

pub const PROP_MODE_ID: u32 = 26;

pub const DRM_MODE_PROP_RANGE: u32 = 0x2;

pub const DRM_MODE_PROP_IMMUTABLE: u32 = 0x4;

pub const DRM_MODE_PROP_ENUM: u32 = 0x8;

pub const DRM_MODE_PROP_BLOB: u32 = 0x10;

pub const DRM_MODE_PROP_OBJECT: u32 = 0x40;

pub const DRM_MODE_PROP_SIGNED_RANGE: u32 = 0x80;

pub const DRM_MODE_PROP_ATOMIC: u32 = 0x8000_0000;

pub const DRM_MODE_OBJECT_CRTC: u64 = 0xcccc_cccc;

pub const DRM_MODE_OBJECT_FB: u64 = 0xfbfb_fbfb;

/// `i32::MIN`, sign-extended.
pub const I32_MIN_U64: u64 = 0xffff_ffff_8000_0000;

pub const I32_MAX_U64: u64 = 0x7fff_ffff;

pub const U32_MAX_U64: u64 = 0xffff_ffff;

/// Blob ids of monitor descriptions: this plus the connector's id.
pub const EDID_BLOB_BASE: u32 = 20000;

/// What is reported about a property: its name, its flags, its values (the limits of a range, the
/// object type of an object property) and the names of enumeration values.
pub struct PropSpec {
    pub name: &'static str,
    pub flags: u32,
    pub values: Vec<u64>,
    pub enums: Vec<(u64, &'static str)>,
}

/// A property, mathematically.
pub struct PropRow {
    pub name: Seq<char>,
    pub flags: u32,
    pub values: Seq<u64>,
    pub enums: Seq<(u64, Seq<char>)>,
}

impl View for PropSpec {
    type V = PropRow;

    open spec fn view(&self) -> PropRow {
        PropRow {
            name: self.name@,
            flags: self.flags,
            values: self.values@,
            enums: self.enums@.map_values(|e: (u64, &'static str)| (e.0, e.1@)),
        }
    }
}

/// A property with values and without names for them.
pub open spec fn plain_row(name: Seq<char>, flags: u32, values: Seq<u64>) -> PropRow {
    PropRow { name, flags, values, enums: Seq::empty() }
}

/// The property with an id.
pub open spec fn prop_row(prop_id: u32) -> Option<PropRow> {
    let atomic_range = DRM_MODE_PROP_RANGE | DRM_MODE_PROP_ATOMIC;
    let atomic_signed = DRM_MODE_PROP_SIGNED_RANGE | DRM_MODE_PROP_ATOMIC;
    let atomic_object = DRM_MODE_PROP_OBJECT | DRM_MODE_PROP_ATOMIC;
    if prop_id == PROP_TYPE {
        Some(
            PropRow {
                name: "type"@,
                flags: DRM_MODE_PROP_ENUM | DRM_MODE_PROP_IMMUTABLE,
                values: seq![0, 1, 2],
                enums: seq![(0, "Overlay"@), (1, "Primary"@), (2, "Cursor"@)],
            },
        )
    } else if prop_id == PROP_EDID {
        Some(plain_row("EDID"@, DRM_MODE_PROP_BLOB | DRM_MODE_PROP_IMMUTABLE, Seq::empty()))
    } else if prop_id == PROP_DPMS {
        Some(
            PropRow {
                name: "DPMS"@,
                flags: DRM_MODE_PROP_ENUM,
                values: seq![0, 1, 2, 3],
                enums: seq![(0, "On"@), (1, "Standby"@), (2, "Suspend"@), (3, "Off"@)],
            },
        )
    } else if prop_id == PROP_LINK_STATUS {
        Some(
            PropRow {
                name: "link-status"@,
                flags: DRM_MODE_PROP_ENUM,
                values: seq![0, 1],
                enums: seq![(0, "Good"@), (1, "Bad"@)],
            },
        )
    } else if prop_id == PROP_NON_DESKTOP {
        Some(
            plain_row(
                "non-desktop"@,
                DRM_MODE_PROP_RANGE | DRM_MODE_PROP_IMMUTABLE,
                seq![0, 1],
            ),
        )
    } else if prop_id == PROP_FB_ID {
        Some(plain_row("FB_ID"@, atomic_object, seq![DRM_MODE_OBJECT_FB]))
    } else if prop_id == PROP_CRTC_ID {
        Some(plain_row("CRTC_ID"@, atomic_object, seq![DRM_MODE_OBJECT_CRTC]))
    } else if prop_id == PROP_CRTC_X {
        Some(plain_row("CRTC_X"@, atomic_signed, seq![I32_MIN_U64, I32_MAX_U64]))
    } else if prop_id == PROP_CRTC_Y {
        Some(plain_row("CRTC_Y"@, atomic_signed, seq![I32_MIN_U64, I32_MAX_U64]))
    } else if prop_id == PROP_CRTC_W {
        Some(plain_row("CRTC_W"@, atomic_range, seq![0, I32_MAX_U64]))
    } else if prop_id == PROP_CRTC_H {
        Some(plain_row("CRTC_H"@, atomic_range, seq![0, I32_MAX_U64]))
    } else if prop_id == PROP_SRC_X {
        Some(plain_row("SRC_X"@, atomic_range, seq![0, U32_MAX_U64]))
    } else if prop_id == PROP_SRC_Y {
        Some(plain_row("SRC_Y"@, atomic_range, seq![0, U32_MAX_U64]))
    } else if prop_id == PROP_SRC_W {
        Some(plain_row("SRC_W"@, atomic_range, seq![0, U32_MAX_U64]))
    } else if prop_id == PROP_SRC_H {
        Some(plain_row("SRC_H"@, atomic_range, seq![0, U32_MAX_U64]))
    } else if prop_id == PROP_ACTIVE {
        Some(plain_row("ACTIVE"@, atomic_range, seq![0, 1]))
    } else if prop_id == PROP_MODE_ID {
        Some(plain_row("MODE_ID"@, DRM_MODE_PROP_BLOB | DRM_MODE_PROP_ATOMIC, Seq::empty()))
    } else {
        None
    }
}

fn plain_prop(name: &'static str, flags: u32, values: Vec<u64>) -> (p: PropSpec)
    ensures
        p@ == plain_row(name@, flags, values@),
{
    let p = PropSpec { name, flags, values, enums: Vec::new() };
    assert(p@.enums =~= Seq::empty());
    p
}

fn enum_prop(
    name: &'static str,
    flags: u32,
    values: Vec<u64>,
    enums: Vec<(u64, &'static str)>,
) -> (p: PropSpec)
    ensures
        p@.name == name@,
        p@.flags == flags,
        p@.values == values@,
        p@.enums.len() == enums@.len(),
        forall|k: int|
            0 <= k < enums@.len() ==> #[trigger] p@.enums[k] == (enums@[k].0, enums@[k].1@),
{
    PropSpec { name, flags, values, enums }
}

/// The property with an id.
pub fn prop_spec(prop_id: u32) -> (p: Option<PropSpec>)
    ensures
        match prop_row(prop_id) {
            None => p is None,
            Some(row) => p is Some && p->Some_0@ == row,
        },
{
    let atomic_range: u32 = DRM_MODE_PROP_RANGE | DRM_MODE_PROP_ATOMIC;
    let atomic_signed: u32 = DRM_MODE_PROP_SIGNED_RANGE | DRM_MODE_PROP_ATOMIC;
    let atomic_object: u32 = DRM_MODE_PROP_OBJECT | DRM_MODE_PROP_ATOMIC;
    let p = if prop_id == PROP_TYPE {
        enum_prop(
            "type",
            DRM_MODE_PROP_ENUM | DRM_MODE_PROP_IMMUTABLE,
            vec![0, 1, 2],
            vec![(0, "Overlay"), (1, "Primary"), (2, "Cursor")],
        )
    } else if prop_id == PROP_EDID {
        plain_prop("EDID", DRM_MODE_PROP_BLOB | DRM_MODE_PROP_IMMUTABLE, Vec::new())
    } else if prop_id == PROP_DPMS {
        enum_prop(
            "DPMS",
            DRM_MODE_PROP_ENUM,
            vec![0, 1, 2, 3],
            vec![(0, "On"), (1, "Standby"), (2, "Suspend"), (3, "Off")],
        )
    } else if prop_id == PROP_LINK_STATUS {
        enum_prop(
            "link-status",
            DRM_MODE_PROP_ENUM,
            vec![0, 1],
            vec![(0, "Good"), (1, "Bad")],
        )
    } else if prop_id == PROP_NON_DESKTOP {
        plain_prop("non-desktop", DRM_MODE_PROP_RANGE | DRM_MODE_PROP_IMMUTABLE, vec![0, 1])
    } else if prop_id == PROP_FB_ID {
        plain_prop("FB_ID", atomic_object, vec![DRM_MODE_OBJECT_FB])
    } else if prop_id == PROP_CRTC_ID {
        plain_prop("CRTC_ID", atomic_object, vec![DRM_MODE_OBJECT_CRTC])
    } else if prop_id == PROP_CRTC_X {
        plain_prop("CRTC_X", atomic_signed, vec![I32_MIN_U64, I32_MAX_U64])
    } else if prop_id == PROP_CRTC_Y {
        plain_prop("CRTC_Y", atomic_signed, vec![I32_MIN_U64, I32_MAX_U64])
    } else if prop_id == PROP_CRTC_W {
        plain_prop("CRTC_W", atomic_range, vec![0, I32_MAX_U64])
    } else if prop_id == PROP_CRTC_H {
        plain_prop("CRTC_H", atomic_range, vec![0, I32_MAX_U64])
    } else if prop_id == PROP_SRC_X {
        plain_prop("SRC_X", atomic_range, vec![0, U32_MAX_U64])
    } else if prop_id == PROP_SRC_Y {
        plain_prop("SRC_Y", atomic_range, vec![0, U32_MAX_U64])
    } else if prop_id == PROP_SRC_W {
        plain_prop("SRC_W", atomic_range, vec![0, U32_MAX_U64])
    } else if prop_id == PROP_SRC_H {
        plain_prop("SRC_H", atomic_range, vec![0, U32_MAX_U64])
    } else if prop_id == PROP_ACTIVE {
        plain_prop("ACTIVE", atomic_range, vec![0, 1])
    } else if prop_id == PROP_MODE_ID {
        plain_prop("MODE_ID", DRM_MODE_PROP_BLOB | DRM_MODE_PROP_ATOMIC, Vec::new())
    } else {
        return None;
    };
    proof {
        let row = prop_row(prop_id)->Some_0;
        assert(p@.values =~= row.values);
        assert(p@.enums =~= row.enums);
    }
    Some(p)
}

/// `(property, value)` pairs of a connector. Atomic clients also see which CRTC drives it.
pub open spec fn connector_prop_list(m: DrmModel, d: DriverAnswers, connector_id: u32) -> Seq<
    (u32, u64),
> {
    let base = seq![(PROP_DPMS, 0u64), (PROP_LINK_STATUS, 0u64), (PROP_NON_DESKTOP, 0u64)];
    let with_edid = if crate::drm_topology::edid_of(d, connector_id) is Some {
        base.push((PROP_EDID, edid_blob_id(connector_id) as u64))
    } else {
        base
    };
    if m.client_atomic {
        with_edid.push((PROP_CRTC_ID, if m.atomic.active { SYNTH_CRTC_ID as u64 } else { 0 }))
    } else {
        with_edid
    }
}

/// The blob id of a connector's monitor description.
pub open spec fn edid_blob_id(connector_id: u32) -> u32 {
    connector_id.wrapping_add(EDID_BLOB_BASE)
}

pub fn connector_props(st: &DrmState, d: &DriverAnswers, connector_id: u32) -> (props: Vec<
    (u32, u64),
>)
    ensures
        props@ == connector_prop_list(st@, *d, connector_id),
{
    let mut props: Vec<(u32, u64)> = Vec::new();
    props.push((PROP_DPMS, 0));
    props.push((PROP_LINK_STATUS, 0));
    props.push((PROP_NON_DESKTOP, 0));
    if get_connector_edid(d, connector_id).is_some() {
        props.push((PROP_EDID, connector_id.wrapping_add(EDID_BLOB_BASE) as u64));
    }
    if atomic_client(st) {
        let (a, _) = atomic_snapshot(st);
        let crtc: u64 = if a.active { SYNTH_CRTC_ID as u64 } else { 0 };
        props.push((PROP_CRTC_ID, crtc));
    }
    assert(props@ =~= connector_prop_list(st@, *d, connector_id));
    props
}

/// `(property, value)` pairs of the CRTC, for atomic clients.
pub open spec fn crtc_prop_list(m: DrmModel) -> Seq<(u32, u64)> {
    if m.client_atomic {
        seq![
            (PROP_ACTIVE, if m.atomic.active { 1u64 } else { 0u64 }),
            (PROP_MODE_ID, m.atomic.mode_blob_id as u64),
        ]
    } else {
        Seq::empty()
    }
}

pub fn crtc_props(st: &DrmState) -> (props: Vec<(u32, u64)>)
    ensures
        props@ == crtc_prop_list(st@),
{
    let mut props: Vec<(u32, u64)> = Vec::new();
    if atomic_client(st) {
        let (a, _) = atomic_snapshot(st);
        props.push((PROP_ACTIVE, if a.active { 1 } else { 0 }));
        props.push((PROP_MODE_ID, a.mode_blob_id as u64));
    }
    assert(props@ =~= crtc_prop_list(st@));
    props
}

/// A signed value as a property carries it.
pub open spec fn signed_value(x: i32) -> u64 {
    (x as i64) as u64
}

/// `(property, value)` pairs of a plane: its type for everyone, its state for atomic clients.
pub open spec fn plane_prop_list(m: DrmModel, plane: DrmPlane) -> Seq<(u32, u64)> {
    let base = seq![(PROP_TYPE, plane.plane_type as u64)];
    let a = m.atomic;
    if m.client_atomic {
        base + seq![
            (PROP_FB_ID, m.crtc_fb as u64),
            (PROP_CRTC_ID, if m.crtc_fb != 0 { plane.crtc_id as u64 } else { 0 }),
            (PROP_CRTC_X, signed_value(a.crtc_x)),
            (PROP_CRTC_Y, signed_value(a.crtc_y)),
            (PROP_CRTC_W, a.crtc_w as u64),
            (PROP_CRTC_H, a.crtc_h as u64),
            (PROP_SRC_X, a.src_x as u64),
            (PROP_SRC_Y, a.src_y as u64),
            (PROP_SRC_W, a.src_w as u64),
            (PROP_SRC_H, a.src_h as u64),
        ]
    } else {
        base
    }
}

pub fn plane_props(st: &DrmState, plane: &DrmPlane) -> (props: Vec<(u32, u64)>)
    ensures
        props@ == plane_prop_list(st@, *plane),
{
    let mut props: Vec<(u32, u64)> = Vec::new();
    props.push((PROP_TYPE, plane.plane_type as u64));
    if atomic_client(st) {
        let (a, crtc_fb) = atomic_snapshot(st);
        let crtc: u64 = if crtc_fb != 0 { plane.crtc_id as u64 } else { 0 };
        props.push((PROP_FB_ID, crtc_fb as u64));
        props.push((PROP_CRTC_ID, crtc));
        props.push((PROP_CRTC_X, (a.crtc_x as i64) as u64));
        props.push((PROP_CRTC_Y, (a.crtc_y as i64) as u64));
        props.push((PROP_CRTC_W, a.crtc_w as u64));
        props.push((PROP_CRTC_H, a.crtc_h as u64));
        props.push((PROP_SRC_X, a.src_x as u64));
        props.push((PROP_SRC_Y, a.src_y as u64));
        props.push((PROP_SRC_W, a.src_w as u64));
        props.push((PROP_SRC_H, a.src_h as u64));
    }
    assert(props@ =~= plane_prop_list(st@, *plane));
    props
}

/// The update with one `(object, property, value)` triple of a request added. An unknown object
/// or a property it does not have is not found; an illegal value and a property that an atomic
/// request may not set are invalid.
pub open spec fn staged(
    m: DrmModel,
    d: DriverAnswers,
    u: AtomicUpdate,
    obj_id: u32,
    prop_id: u32,
    value: u64,
) -> Result<AtomicUpdate, FsError> {
    let v = value as u32;
    let i = value as i32;
    if crate::drm_topology::plane_of(m, d, obj_id) is Some {
        if prop_id == PROP_FB_ID {
            Ok(AtomicUpdate { plane_fb_id: Some(v), ..u })
        } else if prop_id == PROP_CRTC_ID {
            Ok(AtomicUpdate { plane_crtc_id: Some(v), ..u })
        } else if prop_id == PROP_CRTC_X {
            Ok(AtomicUpdate { crtc_x: Some(i), ..u })
        } else if prop_id == PROP_CRTC_Y {
            Ok(AtomicUpdate { crtc_y: Some(i), ..u })
        } else if prop_id == PROP_CRTC_W {
            Ok(AtomicUpdate { crtc_w: Some(v), ..u })
        } else if prop_id == PROP_CRTC_H {
            Ok(AtomicUpdate { crtc_h: Some(v), ..u })
        } else if prop_id == PROP_SRC_X {
            Ok(AtomicUpdate { src_x: Some(v), ..u })
        } else if prop_id == PROP_SRC_Y {
            Ok(AtomicUpdate { src_y: Some(v), ..u })
        } else if prop_id == PROP_SRC_W {
            Ok(AtomicUpdate { src_w: Some(v), ..u })
        } else if prop_id == PROP_SRC_H {
            Ok(AtomicUpdate { src_h: Some(v), ..u })
        } else if prop_id == PROP_TYPE {
            Err(FsError::InvalidParam)
        } else {
            Err(FsError::EntryNotFound)
        }
    } else if crate::drm_topology::crtc_of(m, d, obj_id) is Some {
        if prop_id == PROP_ACTIVE {
            if value > 1 {
                Err(FsError::InvalidParam)
            } else {
                Ok(AtomicUpdate { active: Some(value != 0), ..u })
            }
        } else if prop_id == PROP_MODE_ID {
            Ok(AtomicUpdate { mode_blob: Some(v), ..u })
        } else {
            Err(FsError::EntryNotFound)
        }
    } else if crate::drm_topology::connector_of(m, d, obj_id) is Some {
        if prop_id == PROP_CRTC_ID {
            Ok(AtomicUpdate { connector_crtc_id: Some(v), ..u })
        } else if prop_id == PROP_DPMS {
            Err(FsError::InvalidParam)
        } else {
            Err(FsError::EntryNotFound)
        }
    } else {
        Err(FsError::EntryNotFound)
    }
}

/// Adds one triple of a request to the update; `d` holds the drivers' answers for the object.
pub fn atomic_stage(
    st: &DrmState,
    d: &DriverAnswers,
    u: &mut AtomicUpdate,
    obj_id: u32,
    prop_id: u32,
    value: u64,
) -> (r: Result<(), FsError>)
    ensures
        match staged(st@, *d, *old(u), obj_id, prop_id, value) {
            Ok(next) => r is Ok && *final(u) == next,
            Err(e) => r == Err::<(), FsError>(e) && *final(u) == *old(u),
        },
{
    #[verifier::truncate]
    let v: u32 = value as u32;
    #[verifier::truncate]
    let i: i32 = value as i32;
    if get_plane(st, d, obj_id).is_some() {
        if prop_id == PROP_FB_ID {
            u.plane_fb_id = Some(v);
        } else if prop_id == PROP_CRTC_ID {
            u.plane_crtc_id = Some(v);
        } else if prop_id == PROP_CRTC_X {
            u.crtc_x = Some(i);
        } else if prop_id == PROP_CRTC_Y {
            u.crtc_y = Some(i);
        } else if prop_id == PROP_CRTC_W {
            u.crtc_w = Some(v);
        } else if prop_id == PROP_CRTC_H {
            u.crtc_h = Some(v);
        } else if prop_id == PROP_SRC_X {
            u.src_x = Some(v);
        } else if prop_id == PROP_SRC_Y {
            u.src_y = Some(v);
        } else if prop_id == PROP_SRC_W {
            u.src_w = Some(v);
        } else if prop_id == PROP_SRC_H {
            u.src_h = Some(v);
        } else if prop_id == PROP_TYPE {
            return Err(FsError::InvalidParam);
        } else {
            return Err(FsError::EntryNotFound);
        }
    } else if get_crtc(st, d, obj_id).is_some() {
        if prop_id == PROP_ACTIVE {
            if value > 1 {
                return Err(FsError::InvalidParam);
            }
            u.active = Some(value != 0);
        } else if prop_id == PROP_MODE_ID {
            u.mode_blob = Some(v);
        } else {
            return Err(FsError::EntryNotFound);
        }
    } else if get_connector(st, d, obj_id).is_some() {
        if prop_id == PROP_CRTC_ID {
            u.connector_crtc_id = Some(v);
        } else if prop_id == PROP_DPMS {
            return Err(FsError::InvalidParam);
        } else {
            return Err(FsError::EntryNotFound);
        }
    } else {
        return Err(FsError::EntryNotFound);
    }
    Ok(())
}

/// The decimal digits of a number.
pub open spec fn decimal(n: u64) -> Seq<u8>
    decreases n,
{
    if n < 10 {
        seq![(n + 48) as u8]
    } else {
        decimal(n / 10).push((n % 10 + 48) as u8)
    }
}

/// Appends the decimal digits of a number.
pub fn push_decimal(v: &mut Vec<u8>, n: u64)
    ensures
        final(v)@ == old(v)@ + decimal(n),
    decreases n,
{
    let ghost before = v@;
    if n < 10 {
        v.push(n as u8 + 48);
        assert(v@ =~= before + decimal(n));
    } else {
        push_decimal(v, n / 10);
        v.push((n % 10) as u8 + 48);
        assert(v@ =~= before + decimal(n));
    }
}

proof fn lemma_decimal_len(n: u64, digits: nat)
    requires
        n < vstd::arithmetic::power::pow(10, digits),
        digits > 0,
    ensures
        1 <= decimal(n).len() <= digits,
    decreases digits,
{
    if n >= 10 {
        reveal(vstd::arithmetic::power::pow);
        if digits == 1 {
            assert(vstd::arithmetic::power::pow(10, 0) == 1);
            assert(vstd::arithmetic::power::pow(10, 1) == 10);
        } else {
            assert(vstd::arithmetic::power::pow(10, digits) == 10 * vstd::arithmetic::power::pow(
                10,
                (digits - 1) as nat,
            ));
            lemma_decimal_len(n / 10, (digits - 1) as nat);
        }
    }
}

/// A 32-bit number has at most ten digits.
proof fn lemma_u32_digits(n: u32)
    ensures
        1 <= decimal(n as u64).len() <= 10,
{
    assert(vstd::arithmetic::power::pow(10, 10) == 10_000_000_000) by {
        reveal_with_fuel(vstd::arithmetic::power::pow, 11);
    }
    lemma_decimal_len(n as u64, 10);
}

/// Cut to 16 bits.
pub open spec fn low16(x: int) -> u16 {
    (x % 65536) as u16
}

/// The name field of a mode: `WxH`, zero-padded.
pub open spec fn mode_name(w: u32, h: u32) -> Seq<u8> {
    let text = decimal(w as u64) + seq![120u8] + decimal(h as u64);
    text + Seq::new((32 - text.len()) as nat, |i: int| 0u8)
}

/// Pixels per line and lines per frame, blanking included.
pub open spec fn mode_htotal(w: u32) -> u16 {
    low16(w * 11 / 10)
}

pub open spec fn mode_vtotal(h: u32) -> u16 {
    low16(h * 21 / 20)
}

/// The pixel clock of a mode, in kHz.
pub open spec fn mode_clock(w: u32, h: u32) -> u32 {
    (mode_htotal(w) * mode_vtotal(h) * 60 / 1000 % 0x1_0000_0000) as u32
}

/// The timings of a 60 Hz mode with 10 % horizontal and 5 % vertical blanking.
pub open spec fn mode_timings(w: u32, h: u32) -> Seq<u8> {
    crate::bytes::le32(mode_clock(w, h))
        + crate::bytes::le16(low16(w as int)) + crate::bytes::le16(low16(w + w / 16))
        + crate::bytes::le16(low16(w + w / 8)) + crate::bytes::le16(mode_htotal(w))
        + crate::bytes::le16(0) + crate::bytes::le16(low16(h as int)) + crate::bytes::le16(
        low16(h + h / 40),
    ) + crate::bytes::le16(low16(h + h / 20)) + crate::bytes::le16(mode_vtotal(h))
        + crate::bytes::le16(0) + crate::bytes::le32(60) + crate::bytes::le32(0)
        + crate::bytes::le32(0x48)
}

/// `struct drm_mode_modeinfo` of a mode: its timings and its name.
pub open spec fn modeinfo(w: u32, h: u32) -> Seq<u8> {
    mode_timings(w, h) + mode_name(w, h)
}

fn cut16(x: u64) -> (r: u16)
    ensures
        r == low16(x as int),
{
    (x % 65536) as u16
}

fn clock_of(w: u32, h: u32) -> (clock: u32)
    ensures
        clock == mode_clock(w, h),
{
    let htotal: u16 = cut16(w as u64 * 11 / 10);
    let vtotal: u16 = cut16(h as u64 * 21 / 20);
    let ghost product = htotal * vtotal;
    assert(0 <= product <= 65535 * 65535) by (nonlinear_arith)
        requires
            product == htotal * vtotal,
            0 <= htotal <= 65535,
            0 <= vtotal <= 65535,
    ;
    crate::bytes::low32(htotal as u64 * vtotal as u64 * 60 / 1000)
}

fn timings(w: u32, h: u32) -> (m: Vec<u8>)
    ensures
        m@ == mode_timings(w, h),
        m@.len() == 36,
{
    let wide: u64 = w as u64;
    let tall: u64 = h as u64;
    let mut m: Vec<u8> = Vec::new();
    push_u32(&mut m, clock_of(w, h));
    assert(m@ =~= crate::bytes::le32(mode_clock(w, h)));
    push_u16(&mut m, cut16(wide));
    push_u16(&mut m, cut16(wide + wide / 16));
    push_u16(&mut m, cut16(wide + wide / 8));
    push_u16(&mut m, cut16(wide * 11 / 10));
    push_u16(&mut m, 0);
    push_u16(&mut m, cut16(tall));
    push_u16(&mut m, cut16(tall + tall / 40));
    push_u16(&mut m, cut16(tall + tall / 20));
    push_u16(&mut m, cut16(tall * 21 / 20));
    push_u16(&mut m, 0);
    push_u32(&mut m, 60);
    push_u32(&mut m, 0);
    push_u32(&mut m, 0x48);
    m
}

/// Describes the display's native mode.
pub fn make_modeinfo(w: u32, h: u32) -> (m: Vec<u8>)
    ensures
        m@ == modeinfo(w, h),
        m@.len() == 68,
{
    let wide: u64 = w as u64;
    let tall: u64 = h as u64;
    let mut m: Vec<u8> = timings(w, h);
    let ghost head = m@;
    proof {
        lemma_u32_digits(w);
        lemma_u32_digits(h);
    }
    push_decimal(&mut m, wide);
    m.push(120);
    push_decimal(&mut m, tall);
    let ghost text = decimal(wide) + seq![120u8] + decimal(tall);
    assert(m@ =~= head + text);
    let ghost mut pad: nat = 0;
    while m.len() < 68
        invariant
            head.len() == 36,
            text.len() <= 32,
            m@ == head + text + Seq::new(pad, |i: int| 0u8),
            m@.len() <= 68,
        decreases 68 - m@.len(),
    {
        m.push(0);
        proof {
            pad = pad + 1;
            assert(m@ =~= head + text + Seq::new(pad, |i: int| 0u8));
        }
    }
    assert(m@ =~= head + mode_name(w, h));
    m
}

proof fn lemma_mode_parts(
    clock: Seq<u8>,
    wide: Seq<u8>,
    horizontal: Seq<Seq<u8>>,
    tall: Seq<u8>,
    vertical: Seq<Seq<u8>>,
    rest: Seq<Seq<u8>>,
    name: Seq<u8>,
)
    requires
        clock.len() == 4,
        wide.len() == 2,
        tall.len() == 2,
        horizontal.len() == 4,
        vertical.len() == 4,
        rest.len() == 3,
        forall|i: int| 0 <= i < 4 ==> (#[trigger] horizontal[i]).len() == 2,
        forall|i: int| 0 <= i < 4 ==> (#[trigger] vertical[i]).len() == 2,
        forall|i: int| 0 <= i < 3 ==> (#[trigger] rest[i]).len() == 4,
        name.len() == 32,
    ensures
        ({
            let m = clock + wide + horizontal[0] + horizontal[1] + horizontal[2] + horizontal[3]
                + tall + vertical[0] + vertical[1] + vertical[2] + vertical[3] + rest[0] + rest[1]
                + rest[2] + name;
            &&& m.len() == 68
            &&& m[4] == wide[0]
            &&& m[5] == wide[1]
            &&& m[14] == tall[0]
            &&& m[15] == tall[1]
        }),
{
}

/// The mode that is offered passes the check that a committed mode has to pass: it names the
/// display's width and height where an atomic request looks for them.
#[verifier::spinoff_prover]
pub proof fn law_offered_mode_matches(w: u32, h: u32)
    requires
        w < 65536,
        h < 65536,
    ensures
        modeinfo(w, h).len() == 68,
        crate::bytes::u16_at(modeinfo(w, h), 4) == w,
        crate::bytes::u16_at(modeinfo(w, h), 14) == h,
{
    lemma_u32_digits(w);
    lemma_u32_digits(h);
    crate::bytes::law_le16_roundtrip(w as u16);
    crate::bytes::law_le16_roundtrip(h as u16);
    assert(low16(w as int) == w as u16);
    assert(low16(h as int) == h as u16);
    lemma_mode_parts(
        crate::bytes::le32((mode_htotal(w) * mode_vtotal(h) * 60 / 1000 % 0x1_0000_0000) as u32),
        crate::bytes::le16(low16(w as int)),
        seq![
            crate::bytes::le16(low16(w + w / 16)),
            crate::bytes::le16(low16(w + w / 8)),
            crate::bytes::le16(mode_htotal(w)),
            crate::bytes::le16(0),
        ],
        crate::bytes::le16(low16(h as int)),
        seq![
            crate::bytes::le16(low16(h + h / 40)),
            crate::bytes::le16(low16(h + h / 20)),
            crate::bytes::le16(mode_vtotal(h)),
            crate::bytes::le16(0),
        ],
        seq![crate::bytes::le32(60), crate::bytes::le32(0), crate::bytes::le32(0x48)],
        mode_name(w, h),
    );
}

/// A property that is set on a plane, a display controller or a connector is staged under its own name
/// and changes no other: the object says which it may be.
pub proof fn law_staged_alone(
    m: DrmModel,
    d: DriverAnswers,
    u: AtomicUpdate,
    obj_id: u32,
    prop_id: u32,
    value: u64,
)
    ensures
        staged(m, d, u, obj_id, prop_id, value) matches Ok(n) ==> {
            let plane = crate::drm_topology::plane_of(m, d, obj_id) is Some;
            let crtc = !plane && crate::drm_topology::crtc_of(m, d, obj_id) is Some;
            &&& n.plane_fb_id == (if plane && prop_id == 15 {
                Some(value as u32)
            } else {
                u.plane_fb_id
            })
            &&& n.plane_crtc_id == (if plane && prop_id == 16 {
                Some(value as u32)
            } else {
                u.plane_crtc_id
            })
            &&& n.crtc_x == (if plane && prop_id == 17 {
                Some(value as i32)
            } else {
                u.crtc_x
            })
            &&& n.crtc_y == (if plane && prop_id == 18 {
                Some(value as i32)
            } else {
                u.crtc_y
            })
            &&& n.crtc_w == (if plane && prop_id == 19 {
                Some(value as u32)
            } else {
                u.crtc_w
            })
            &&& n.crtc_h == (if plane && prop_id == 20 {
                Some(value as u32)
            } else {
                u.crtc_h
            })
            &&& n.src_x == (if plane && prop_id == 21 {
                Some(value as u32)
            } else {
                u.src_x
            })
            &&& n.src_y == (if plane && prop_id == 22 {
                Some(value as u32)
            } else {
                u.src_y
            })
            &&& n.src_w == (if plane && prop_id == 23 {
                Some(value as u32)
            } else {
                u.src_w
            })
            &&& n.src_h == (if plane && prop_id == 24 {
                Some(value as u32)
            } else {
                u.src_h
            })
            &&& n.active == (if crtc && prop_id == 25 {
                Some(value == 1)
            } else {
                u.active
            })
            &&& n.mode_blob == (if crtc && prop_id == 26 {
                Some(value as u32)
            } else {
                u.mode_blob
            })
            &&& n.connector_crtc_id == (if !plane && !crtc {
                Some(value as u32)
            } else {
                u.connector_crtc_id
            })
        },
{
}

/// What can be set: the place, source and framebuffer of a plane, whether a controller is on and its
/// mode, and the controller of a connector. What can only be read, and a value out of range, is invalid;
/// anything else is not there.
pub proof fn law_settable(
    m: DrmModel,
    d: DriverAnswers,
    u: AtomicUpdate,
    obj_id: u32,
    prop_id: u32,
    value: u64,
)
    ensures
        ({
            let r = staged(m, d, u, obj_id, prop_id, value);
            let plane = crate::drm_topology::plane_of(m, d, obj_id) is Some;
            let crtc = crate::drm_topology::crtc_of(m, d, obj_id) is Some;
            let connector = crate::drm_topology::connector_of(m, d, obj_id) is Some;
            &&& plane ==> (r is Ok <==> 15 <= prop_id <= 24)
            &&& plane && prop_id == 10 ==> r == Err::<AtomicUpdate, FsError>(FsError::InvalidParam)
            &&& !plane && crtc ==> (r is Ok <==> (prop_id == 25 && value <= 1) || prop_id == 26)
            &&& !plane && crtc && prop_id == 25 && value > 1 ==> r == Err::<AtomicUpdate, FsError>(
                FsError::InvalidParam,
            )
            &&& !plane && !crtc && connector ==> (r is Ok <==> prop_id == 16)
            &&& !plane && !crtc && connector && prop_id == 12 ==> r == Err::<AtomicUpdate, FsError>(
                FsError::InvalidParam,
            )
            &&& !plane && !crtc && !connector ==> r == Err::<AtomicUpdate, FsError>(
                FsError::EntryNotFound,
            )
        }),
{
}

/// A client that does not make atomic requests sees of a plane its kind alone; one that does sees all of
/// it, as last committed, and whether it is on a controller by its framebuffer.
pub proof fn law_plane_told(m: DrmModel, plane: DrmPlane)
    ensures
        ({
            let p = plane_prop_list(m, plane);
            &&& p[0] == (10u32, plane.plane_type as u64)
            &&& !m.client_atomic ==> p.len() == 1
            &&& m.client_atomic ==> {
                &&& p.len() == 11
                &&& p[1] == (15u32, m.crtc_fb as u64)
                &&& p[2] == (16u32, if m.crtc_fb == 0 {
                    0u64
                } else {
                    plane.crtc_id as u64
                })
                &&& p[3] == (17u32, (m.atomic.crtc_x as i64) as u64)
                &&& p[4] == (18u32, (m.atomic.crtc_y as i64) as u64)
                &&& p[5] == (19u32, m.atomic.crtc_w as u64)
                &&& p[6] == (20u32, m.atomic.crtc_h as u64)
                &&& p[7] == (21u32, m.atomic.src_x as u64)
                &&& p[8] == (22u32, m.atomic.src_y as u64)
                &&& p[9] == (23u32, m.atomic.src_w as u64)
                &&& p[10] == (24u32, m.atomic.src_h as u64)
            }
        }),
{
}

/// A controller tells whether it is on and its mode, to clients that make atomic requests alone.
pub proof fn law_controller_told(m: DrmModel)
    ensures
        !m.client_atomic ==> crtc_prop_list(m).len() == 0,
        m.client_atomic ==> crtc_prop_list(m).len() == 2 && crtc_prop_list(m)[0] == (25u32, if m.atomic.active {
            1u64
        } else {
            0u64
        }) && crtc_prop_list(m)[1] == (26u32, m.atomic.mode_blob_id as u64),
{
}

/// A connector tells that it is on and well, its monitor's description where there is one, and its
/// controller to clients that make atomic requests.
pub proof fn law_connector_told(m: DrmModel, d: DriverAnswers, id: u32)
    ensures
        ({
            let p = connector_prop_list(m, d, id);
            let edid = crate::drm_topology::edid_of(d, id) is Some;
            &&& p[0] == (12u32, 0u64) && p[1] == (13u32, 0u64) && p[2] == (14u32, 0u64)
            &&& edid ==> p[3] == (11u32, edid_blob_id(id) as u64)
            &&& m.client_atomic ==> p.last() == (16u32, if m.atomic.active {
                1u64
            } else {
                0u64
            })
            &&& p.len() == 3 + (if edid {
                1int
            } else {
                0
            }) + (if m.client_atomic {
                1int
            } else {
                0
            })
        }),
        id + 20000 <= u32::MAX ==> edid_blob_id(id) == id + 20000,
{
}

/// Every property from 10 to 26 is described, and no other. Those that requests set are marked so, and
/// those that only tell something cannot be changed.
pub proof fn law_properties_described(prop_id: u32)
    ensures
        prop_row(prop_id) is Some <==> 10 <= prop_id <= 26,
        prop_row(prop_id) matches Some(r) ==> (15 <= prop_id <= 26 <==> r.flags & 0x8000_0000 != 0),
        prop_row(prop_id) matches Some(r) ==> (prop_id == 10 || prop_id == 11 || prop_id == 14 <==> r.flags
            & 4 != 0),
{
    assert((0x8u32 | 0x4u32) & 0x8000_0000u32 == 0 && (0x10u32 | 0x4u32) & 0x8000_0000u32 == 0 && (0x2u32
        | 0x4u32) & 0x8000_0000u32 == 0 && 0x8u32 & 0x8000_0000u32 == 0 && (0x40u32 | 0x8000_0000u32)
        & 0x8000_0000u32 != 0 && (0x80u32 | 0x8000_0000u32) & 0x8000_0000u32 != 0 && (0x2u32
        | 0x8000_0000u32) & 0x8000_0000u32 != 0 && (0x10u32 | 0x8000_0000u32) & 0x8000_0000u32 != 0
        && (0x8u32 | 0x4u32) & 4 != 0 && (0x10u32 | 0x4u32) & 4 != 0 && (0x2u32 | 0x4u32) & 4 != 0
        && 0x8u32 & 4 == 0 && (0x40u32 | 0x8000_0000u32) & 4 == 0 && (0x80u32 | 0x8000_0000u32) & 4 == 0
        && (0x2u32 | 0x8000_0000u32) & 4 == 0 && (0x10u32 | 0x8000_0000u32) & 4 == 0) by (bit_vector);
}

/// The totals of a mode are its size and a tenth in width, a twentieth in height; its clock gives sixty
/// frames a second of them.
pub proof fn law_mode_totals(w: u32, h: u32)
    requires
        w <= 59000,
        h <= 62000,
    ensures
        10 * mode_htotal(w) <= 11 * w < 10 * mode_htotal(w) + 10,
        20 * mode_vtotal(h) <= 21 * h < 20 * mode_vtotal(h) + 20,
        1000 * mode_clock(w, h) <= 60 * (mode_htotal(w) * mode_vtotal(h)) < 1000 * mode_clock(w, h) + 1000,
{
    let n = mode_htotal(w) * mode_vtotal(h);
    assert(0 <= n <= 0xffff * 0xffff) by (nonlinear_arith)
        requires
            n == mode_htotal(w) * mode_vtotal(h),
            mode_htotal(w) <= 0xffff,
            mode_vtotal(h) <= 0xffff,
    ;
    assert(mode_htotal(w) * mode_vtotal(h) * 60 == n * 60);
}

/// A number is written with its digits, the highest first.
pub proof fn law_decimal_digits(n: u64)
    ensures
        n < 10 ==> decimal(n) == seq![(n + 48) as u8],
        n >= 10 ==> decimal(n).last() == n % 10 + 48 && decimal(n).drop_last() == decimal(n / 10),
{
    if n >= 10 {
        assert(decimal(n).drop_last() =~= decimal(n / 10));
    }
}

/// The values of a property that has names for them are counted from zero, and each has its name
/// under its own number. A property with a range has a least and a greatest value. What is fixed
/// cannot be committed.
pub proof fn law_values_of_properties(prop_id: u32, i: int)
    ensures
        prop_row(prop_id) matches Some(r) ==> {
            &&& r.enums.len() > 0 ==> r.enums.len() == r.values.len()
            &&& r.enums.len() > 0 && 0 <= i < r.values.len() ==> r.values[i] == i && r.enums[i].0 == i
            &&& r.flags & 0x8 != 0 <==> r.enums.len() > 0
            &&& r.flags & 0x2 != 0 ==> r.values.len() == 2 && r.values[0] == 0 && r.values[1] > 0
            &&& r.flags & 0x4 != 0 ==> r.flags & 0x8000_0000 == 0
        },
{
    assert((8u32 | 4) & 8 != 0 && (16u32 | 4) & 8 == 0 && 8u32 & 8 != 0 && (2u32 | 4) & 8 == 0 && (2u32
        | 0x8000_0000) & 8 == 0 && (64u32 | 0x8000_0000) & 8 == 0 && (128u32 | 0x8000_0000) & 8 == 0
        && (16u32 | 0x8000_0000) & 8 == 0) by (bit_vector);
    assert((8u32 | 4) & 2 == 0 && (16u32 | 4) & 2 == 0 && 8u32 & 2 == 0 && (2u32 | 4) & 2 != 0 && (2u32
        | 0x8000_0000) & 2 != 0 && (64u32 | 0x8000_0000) & 2 == 0 && (128u32 | 0x8000_0000) & 2 == 0
        && (16u32 | 0x8000_0000) & 2 == 0) by (bit_vector);
    assert((8u32 | 4) & 0x8000_0000 == 0 && (16u32 | 4) & 0x8000_0000 == 0 && 8u32 & 4 == 0 && (2u32
        | 4) & 0x8000_0000 == 0 && (2u32 | 0x8000_0000) & 4 == 0 && (64u32 | 0x8000_0000) & 4 == 0
        && (128u32 | 0x8000_0000) & 4 == 0 && (16u32 | 0x8000_0000) & 4 == 0) by (bit_vector);
}

} // verus!
