//! The requests that user space makes of the card: which are allowed, what they change, and what
//! they answer.
use vstd::prelude::*;
use vstd::string::*;
use crate::drm::{
    alloc_buffer, atomic_client, atomic_enabled, clear_graphics_owner, get_handle,
    set_atomic_client, software_kms_active, DrmModel, DrmState,
};
use crate::drm_kms::{present_now_region, Area, Present};
use crate::error::FsError;

verus! {

/// Minor numbers from here on are render nodes.
pub const RENDER_MINOR: u32 = 128;

/// Largest dumb buffer: 64 MiB.
pub const MAX_DUMB_SIZE: u64 = 67108864;

/// Shift between a buffer's handle and its mapping offset.
pub const MAP_SHIFT: u64 = 4096;

/// Commands by number, as far as they are handled here.
#[derive(Clone, Copy, PartialEq, Eq, Structural, Debug)]
pub enum DrmCall {
    Version,
    GetUnique,
    GetMagic,
    AuthMagic,
    GetCap,
    SetClientCap,
    GemClose,
    SetMaster,
    DropMaster,
    SetVersion,
    GetResources,
    GetCrtc,
    SetCrtc,
    GetEncoder,
    GetConnector,
    CreateDumb,
    MapDumb,
    DestroyDumb,
    AddFb,
    AddFb2,
    RmFb,
    CloseFb,
    PageFlip,
    GetPlaneResources,
    GetPlane,
    SetPlane,
    ObjGetProperties,
    ObjSetProperty,
    GetProperty,
    GetPropBlob,
    SetProperty,
    Cursor,
    WaitVblank,
    GetFb,
    GetFb2,
    DirtyFb,
    Gamma,
    ListLessees,
    Atomic,
    CreatePropBlob,
    DestroyPropBlob,
    SyncobjCreate,
    SyncobjDestroy,
    SyncobjWait,
    SyncobjReset,
    SyncobjSignal,
    SyncobjTimelineWait,
    SyncobjQuery,
    SyncobjTimelineSignal,
    /// Anything else is offered to the primary driver.
    Driver,
}

/// The command with a number.
pub open spec fn call_of(cmd: u32) -> DrmCall {
    match cmd {
        0xc0406400 => DrmCall::Version,
        0xc0106401 => DrmCall::GetUnique,
        0xc0046402 => DrmCall::GetMagic,
        0x40046411 => DrmCall::AuthMagic,
        0xc010640c => DrmCall::GetCap,
        0x4010640d => DrmCall::SetClientCap,
        0x40086409 => DrmCall::GemClose,
        0x0000641e => DrmCall::SetMaster,
        0x0000641f => DrmCall::DropMaster,
        0xc0106407 => DrmCall::SetVersion,
        0xc04064a0 => DrmCall::GetResources,
        0xc06864a1 => DrmCall::GetCrtc,
        0xc06864a2 => DrmCall::SetCrtc,
        0xc01464a6 => DrmCall::GetEncoder,
        0xc05064a7 => DrmCall::GetConnector,
        0xc02064b2 => DrmCall::CreateDumb,
        0xc01064b3 => DrmCall::MapDumb,
        0xc00464b4 => DrmCall::DestroyDumb,
        0xc01c64ae => DrmCall::AddFb,
        0xc06864b8 => DrmCall::AddFb2,
        0xc00464af => DrmCall::RmFb,
        0xc00864d0 => DrmCall::CloseFb,
        0xc01864b0 => DrmCall::PageFlip,
        0xc01064b5 => DrmCall::GetPlaneResources,
        0xc02064b6 => DrmCall::GetPlane,
        0xc03064b7 => DrmCall::SetPlane,
        0xc02064b9 => DrmCall::ObjGetProperties,
        0xc01864ba => DrmCall::ObjSetProperty,
        0xc04064aa => DrmCall::GetProperty,
        0xc01064ac => DrmCall::GetPropBlob,
        0xc01064ab => DrmCall::SetProperty,
        0xc01c64a3 => DrmCall::Cursor,
        0xc02464bb => DrmCall::Cursor,
        0xc018643a => DrmCall::WaitVblank,
        0xc01c64ad => DrmCall::GetFb,
        0xc06864ce => DrmCall::GetFb2,
        0xc01864b1 => DrmCall::DirtyFb,
        0xc02064a4 => DrmCall::Gamma,
        0xc02064a5 => DrmCall::Gamma,
        0xc01064c7 => DrmCall::ListLessees,
        0xc03864bc => DrmCall::Atomic,
        0xc01064bd => DrmCall::CreatePropBlob,
        0xc00464be => DrmCall::DestroyPropBlob,
        0xc00864bf => DrmCall::SyncobjCreate,
        0xc00864c0 => DrmCall::SyncobjDestroy,
        0xc02864c3 => DrmCall::SyncobjWait,
        0xc01064c4 => DrmCall::SyncobjReset,
        0xc01064c5 => DrmCall::SyncobjSignal,
        0xc03064ca => DrmCall::SyncobjTimelineWait,
        0xc01864cb => DrmCall::SyncobjQuery,
        0xc01864cd => DrmCall::SyncobjTimelineSignal,
        _ => DrmCall::Driver,
    }
}

/// Finds the command with a number.
pub fn classify(cmd: u32) -> (c: DrmCall)
    ensures
        c == call_of(cmd),
{
    match cmd {
        0xc0406400 => DrmCall::Version,
        0xc0106401 => DrmCall::GetUnique,
        0xc0046402 => DrmCall::GetMagic,
        0x40046411 => DrmCall::AuthMagic,
        0xc010640c => DrmCall::GetCap,
        0x4010640d => DrmCall::SetClientCap,
        0x40086409 => DrmCall::GemClose,
        0x0000641e => DrmCall::SetMaster,
        0x0000641f => DrmCall::DropMaster,
        0xc0106407 => DrmCall::SetVersion,
        0xc04064a0 => DrmCall::GetResources,
        0xc06864a1 => DrmCall::GetCrtc,
        0xc06864a2 => DrmCall::SetCrtc,
        0xc01464a6 => DrmCall::GetEncoder,
        0xc05064a7 => DrmCall::GetConnector,
        0xc02064b2 => DrmCall::CreateDumb,
        0xc01064b3 => DrmCall::MapDumb,
        0xc00464b4 => DrmCall::DestroyDumb,
        0xc01c64ae => DrmCall::AddFb,
        0xc06864b8 => DrmCall::AddFb2,
        0xc00464af => DrmCall::RmFb,
        0xc00864d0 => DrmCall::CloseFb,
        0xc01864b0 => DrmCall::PageFlip,
        0xc01064b5 => DrmCall::GetPlaneResources,
        0xc02064b6 => DrmCall::GetPlane,
        0xc03064b7 => DrmCall::SetPlane,
        0xc02064b9 => DrmCall::ObjGetProperties,
        0xc01864ba => DrmCall::ObjSetProperty,
        0xc04064aa => DrmCall::GetProperty,
        0xc01064ac => DrmCall::GetPropBlob,
        0xc01064ab => DrmCall::SetProperty,
        0xc01c64a3 => DrmCall::Cursor,
        0xc02464bb => DrmCall::Cursor,
        0xc018643a => DrmCall::WaitVblank,
        0xc01c64ad => DrmCall::GetFb,
        0xc06864ce => DrmCall::GetFb2,
        0xc01864b1 => DrmCall::DirtyFb,
        0xc02064a4 => DrmCall::Gamma,
        0xc02064a5 => DrmCall::Gamma,
        0xc01064c7 => DrmCall::ListLessees,
        0xc03864bc => DrmCall::Atomic,
        0xc01064bd => DrmCall::CreatePropBlob,
        0xc00464be => DrmCall::DestroyPropBlob,
        0xc00864bf => DrmCall::SyncobjCreate,
        0xc00864c0 => DrmCall::SyncobjDestroy,
        0xc02864c3 => DrmCall::SyncobjWait,
        0xc01064c4 => DrmCall::SyncobjReset,
        0xc01064c5 => DrmCall::SyncobjSignal,
        0xc03064ca => DrmCall::SyncobjTimelineWait,
        0xc01864cb => DrmCall::SyncobjQuery,
        0xc01864cd => DrmCall::SyncobjTimelineSignal,
        _ => DrmCall::Driver,
    }
}

/// Whether a render node accepts a command. The command's function number is the low byte of its
/// number.
pub open spec fn render_allows(cmd: u32) -> bool {
    let nr = cmd % 256;
    ||| nr == 0x00
    ||| nr == 0x09
    ||| nr == 0x0c
    ||| nr == 0x2d
    ||| nr == 0x2e
    ||| 0x40 <= nr <= 0x9f
    ||| 0xbf <= nr <= 0xc5
    ||| 0xca <= nr <= 0xcd
    ||| nr == 0xcf
    ||| nr == 0xd1
    ||| nr == 0xd2
}

pub fn render_allowed(cmd: u32) -> (b: bool)
    ensures
        b == render_allows(cmd),
{
    let nr: u32 = cmd % 256;
    nr == 0x00 || nr == 0x09 || nr == 0x0c || nr == 0x2d || nr == 0x2e || (nr >= 0x40 && nr <= 0x9f)
        || (nr >= 0xbf && nr <= 0xc5) || (nr >= 0xca && nr <= 0xcd) || nr == 0xcf || nr == 0xd1 || nr
        == 0xd2
}

/// Lets a command through on a node: a render node refuses what it does not allow.
pub fn permit(minor: u32, cmd: u32) -> (r: Result<DrmCall, FsError>)
    ensures
        r == permitted(minor, cmd),
{
    if minor >= RENDER_MINOR && !render_allowed(cmd) {
        return Err(FsError::NoPermission);
    }
    Ok(classify(cmd))
}

/// On a render node no mode is set, no dumb buffer is made and nobody becomes master.
pub proof fn law_render_nodes_cannot_modeset(cmd: u32)
    requires
        call_of(cmd) is SetCrtc || call_of(cmd) is PageFlip || call_of(cmd) is SetPlane
            || call_of(cmd) is CreateDumb || call_of(cmd) is MapDumb || call_of(cmd) is DestroyDumb
            || call_of(cmd) is Atomic || call_of(cmd) is SetMaster || call_of(cmd) is DropMaster
            || call_of(cmd) is AuthMagic || call_of(cmd) is AddFb || call_of(cmd) is AddFb2,
    ensures
        !render_allows(cmd),
{
}

/// Whether an array of `n` items is copied out: user space gave an address and room for all.
pub open spec fn copied(ptr: u64, room: u32, n: int) -> bool {
    ptr != 0 && room >= n
}

pub(crate) fn copies(ptr: u64, room: u32, n: usize) -> (b: bool)
    ensures
        b == copied(ptr, room, n as int),
{
    ptr != 0 && room as u64 >= n as u64
}

/// A length as user space sees it.
pub open spec fn len32(n: int) -> u32 {
    (n % 0x1_0000_0000) as u32
}

pub(crate) fn cut_len(n: usize) -> (r: u32)
    ensures
        r == len32(n as int),
{
    crate::bytes::low32(n as u64)
}

/// A text handed to user space: the bytes to copy and the full length, terminator included.
pub struct TextOut {
    pub bytes: Vec<u8>,
    pub len: usize,
}

/// The bytes of a text, terminator included.
pub open spec fn terminated(text: &str) -> Seq<u8> {
    text.spec_bytes().push(0u8)
}

/// As much of a text as user space has room for; nothing without an address.
pub open spec fn text_for(text: &str, room: usize, ptr: u64) -> Seq<u8> {
    if room == 0 || ptr == 0 {
        Seq::empty()
    } else if room <= terminated(text).len() {
        terminated(text).subrange(0, room as int)
    } else {
        terminated(text)
    }
}

fn put_text(text: &str, room: usize, ptr: u64) -> (t: TextOut)
    requires
        text.spec_bytes().len() < usize::MAX,
    ensures
        t.bytes@ == text_for(text, room, ptr),
        t.len == terminated(text).len(),
{
    let src = text.as_bytes();
    let n: usize = src.len() + 1;
    let mut bytes: Vec<u8> = Vec::new();
    if room > 0 && ptr != 0 {
        let take: usize = if room <= n { room } else { n };
        let mut i: usize = 0;
        while i < take
            invariant
                i <= take <= n,
                n == src@.len() + 1,
                src@ == text.spec_bytes(),
                bytes@ == terminated(text).subrange(0, i as int),
            decreases take - i,
        {
            let b: u8 = if i < src.len() { src[i] } else { 0 };
            bytes.push(b);
            i = i + 1;
            assert(bytes@ =~= terminated(text).subrange(0, i as int));
        }
        assert(bytes@ =~= text_for(text, room, ptr));
    }
    TextOut { bytes, len: n }
}

/// The answer to a version query.
pub struct VersionReply {
    pub major: i32,
    pub minor: i32,
    pub patchlevel: i32,
    pub name: TextOut,
    pub date: TextOut,
    pub desc: TextOut,
}

/// Room and address of the three texts of a version query.
#[derive(Clone, Copy, PartialEq, Eq, Structural, Debug)]
pub struct VersionQuery {
    pub name_len: usize,
    pub name: u64,
    pub date_len: usize,
    pub date: u64,
    pub desc_len: usize,
    pub desc: u64,
}

/// Whether a reply reports the driver.
#[verifier::opaque]
pub open spec fn version_reported(q: VersionQuery, nouveau: bool, v: VersionReply) -> bool {
    let name = if nouveau { "nouveau" } else { "zcore" };
    let desc = if nouveau { "nouveau" } else { "zCore DRM Driver" };
    &&& v.major == 1
    &&& v.minor == if nouveau { 4i32 } else { 0i32 }
    &&& v.patchlevel == 0
    &&& v.name.bytes@ == text_for(name, q.name_len, q.name)
    &&& v.name.len == terminated(name).len()
    &&& v.date.bytes@ == text_for("20260503", q.date_len, q.date)
    &&& v.date.len == terminated("20260503").len()
    &&& v.desc.bytes@ == text_for(desc, q.desc_len, q.desc)
    &&& v.desc.len == terminated(desc).len()
}

/// Reports the driver: its name is what user space picks its renderer by.
pub fn version(q: &VersionQuery, nouveau: bool) -> (v: VersionReply)
    ensures
        version_reported(*q, nouveau, v),
{
    proof {
        reveal(version_reported);
        lemma_short_text("nouveau");
        lemma_short_text("zcore");
        lemma_short_text("20260503");
        lemma_short_text("zCore DRM Driver");
    }
    let name = if nouveau { "nouveau" } else { "zcore" };
    let desc = if nouveau { "nouveau" } else { "zCore DRM Driver" };
    VersionReply {
        major: 1,
        minor: if nouveau { 4 } else { 0 },
        patchlevel: 0,
        name: put_text(name, q.name_len, q.name),
        date: put_text("20260503", q.date_len, q.date),
        desc: put_text(desc, q.desc_len, q.desc),
    }
}

/// Reports the bus id.
pub fn unique(room: usize, ptr: u64) -> (t: TextOut)
    ensures
        t.bytes@ == text_for("zcore-gpu", room, ptr),
        t.len == terminated("zcore-gpu").len(),
{
    proof {
        lemma_short_text("zcore-gpu");
    }
    put_text("zcore-gpu", room, ptr)
}

/// Texts are far shorter than memory.
proof fn lemma_short_text(text: &str)
    requires
        text == "nouveau" || text == "zcore" || text == "20260503" || text == "zCore DRM Driver"
            || text == "zcore-gpu",
    ensures
        text.spec_bytes().len() < usize::MAX,
{
    reveal_strlit("nouveau");
    reveal_strlit("zcore");
    reveal_strlit("20260503");
    reveal_strlit("zCore DRM Driver");
    reveal_strlit("zcore-gpu");
    vstd::string::is_ascii_spec_bytes(text);
}

/// The value of a capability.
pub open spec fn cap_value(cap: u64, nouveau: bool) -> u64 {
    if cap == 0x1 || cap == 0x4 || cap == 0x6 || cap == 0x10 || cap == 0x12 {
        1
    } else if cap == 0x3 {
        24
    } else if cap == 0x5 {
        3
    } else if cap == 0x8 || cap == 0x9 {
        64
    } else if cap == 0x13 || cap == 0x14 {
        if nouveau {
            1
        } else {
            0
        }
    } else {
        0
    }
}

pub fn get_cap(cap: u64, nouveau: bool) -> (v: u64)
    ensures
        v == cap_value(cap, nouveau),
{
    match cap {
        0x1 => 1,
        0x3 => 24,
        0x4 => 1,
        0x5 => 3,
        0x6 => 1,
        0x8 => 64,
        0x9 => 64,
        0x10 => 1,
        0x12 => 1,
        0x13 | 0x14 => if nouveau {
            1
        } else {
            0
        },
        _ => 0,
    }
}

/// Interface version 1.4 and driver version 1.0, whatever was asked for.
pub open spec fn set_version_reply() -> (i32, i32, i32, i32) {
    (1, 4, 1, 0)
}

/// Validates requested interface and driver versions; -1 asks for nothing. The versions in force
/// are reported in any case.
pub fn set_version(di_major: i32, di_minor: i32, dd_major: i32) -> (r: (
    (i32, i32, i32, i32),
    Result<(), FsError>,
))
    ensures
        r.0 == set_version_reply(),
        r.1 == version_accepted(di_major, di_minor, dd_major),
{
    let reply = (1i32, 4i32, 1i32, 0i32);
    if di_major != -1 && (di_major != 1 || di_minor < 0 || di_minor > 4) {
        return (reply, Err(FsError::InvalidParam));
    }
    if dd_major != -1 && dd_major != 1 {
        return (reply, Err(FsError::InvalidParam));
    }
    (reply, Ok(()))
}

/// Negotiates a client capability: the atomic one only where the atomic interface is on and frames
/// are blitted in software, write-back connectors only for atomic clients, any other without
/// effect.
pub fn set_client_cap(st: &mut DrmState, cap: u64, value: u64) -> (r: Result<(), FsError>)
    ensures
        (r, final(st)@) == client_cap_set(old(st)@, cap, value),
{
    if cap == 3 {
        if !atomic_enabled(st) || !software_kms_active(st) {
            return Err(FsError::OpNotSupported);
        }
        if value > 2 {
            return Err(FsError::InvalidParam);
        }
        set_atomic_client(st, value != 0);
        return Ok(());
    }
    if cap == 5 && (!atomic_client(st) || value > 1) {
        return Err(FsError::InvalidParam);
    }
    Ok(())
}

/// The compositor gives the display up: the next client starts without its terminal and without
/// its capabilities.
pub fn drop_master(st: &mut DrmState)
    ensures
        final(st)@ == (DrmModel { graphics_vt: None, client_atomic: false, ..old(st)@ }),
{
    clear_graphics_owner(st);
    set_atomic_client(st, false);
}

/// Bytes per line of a dumb buffer: at least four per pixel, a multiple of 64.
pub open spec fn dumb_pitch(width: u32, bpp: u32) -> int {
    (width * (if bpp >= 32 { bpp as int } else { 32 }) / 8 + 63) / 64 * 64
}

/// Line and total size of a dumb buffer, where they are in range.
pub open spec fn dumb_layout(width: u32, height: u32, bpp: u32) -> Option<(u32, usize)> {
    let pitch = dumb_pitch(width, bpp);
    if pitch == 0 || pitch > u32::MAX || pitch * height == 0 || pitch * height > MAX_DUMB_SIZE {
        None
    } else {
        Some((pitch as u32, (pitch * height) as usize))
    }
}

pub fn dumb_geometry(width: u32, height: u32, bpp: u32) -> (g: Option<(u32, usize)>)
    ensures
        g == dumb_layout(width, height, bpp),
{
    let depth: u64 = if bpp >= 32 { bpp as u64 } else { 32 };
    assert(width * depth <= 0xffff_ffff * 0xffff_ffff) by (nonlinear_arith)
        requires
            0 <= width <= 0xffff_ffff,
            0 <= depth <= 0xffff_ffff,
    ;
    let pitch: u64 = (width as u64 * depth / 8 + 63) / 64 * 64;
    if pitch == 0 || pitch > 0xffff_ffff {
        return None;
    }
    assert(pitch * height <= 0xffff_ffff * 0xffff_ffff) by (nonlinear_arith)
        requires
            0 <= pitch <= 0xffff_ffff,
            0 <= height <= 0xffff_ffff,
    ;
    let size: u64 = pitch * height as u64;
    if size == 0 || size > MAX_DUMB_SIZE {
        return None;
    }
    Some((pitch as u32, size as usize))
}

/// A buffer that was made for user space.
#[derive(Clone, Copy, PartialEq, Eq, Structural, Debug)]
pub struct DumbReply {
    pub handle: u32,
    pub pitch: u32,
    pub size: u64,
}

/// The state after a dumb buffer was asked for, and the answer.
pub open spec fn dumb_made(
    m: DrmModel,
    width: u32,
    height: u32,
    bpp: u32,
    backing: Option<u64>,
    accepted: bool,
    pid: u64,
) -> (DrmModel, Result<DumbReply, FsError>) {
    match dumb_layout(width, height, bpp) {
        None => (m, Err(FsError::InvalidParam)),
        Some((pitch, size)) => {
            let id = m.next_handle_id;
            let bumped = DrmModel { next_handle_id: crate::drm::next_u32(id), ..m };
            if m.handles.len() >= crate::drm::MAX_LIVE_GEMS {
                (m, Err(FsError::NoDeviceSpace))
            } else if backing is None || (crate::drm::primary(m) is Some && !accepted) {
                (bumped, Err(FsError::NoDeviceSpace))
            } else {
                let handle = crate::drm::GemHandle { id, size, phys_addr: backing->Some_0 };
                (
                    DrmModel {
                        handles: m.handles.push(crate::drm::GemEntry { handle, owner: pid }),
                        ..bumped
                    },
                    Ok(DumbReply { handle: id, pitch, size: size as u64 }),
                )
            }
        },
    }
}

/// Makes a dumb buffer; `backing` and `accepted` are what memory and driver answer.
pub fn create_dumb(
    st: &mut DrmState,
    width: u32,
    height: u32,
    bpp: u32,
    backing: Option<u64>,
    accepted: bool,
    pid: u64,
) -> (r: Result<DumbReply, FsError>)
    ensures
        (final(st)@, r) == dumb_made(old(st)@, width, height, bpp, backing, accepted, pid),
{
    let (pitch, size) = match dumb_geometry(width, height, bpp) {
        None => {
            return Err(FsError::InvalidParam);
        },
        Some(g) => g,
    };
    match alloc_buffer(st, size, backing, accepted, pid) {
        Some(handle) => Ok(DumbReply { handle: handle.id, pitch, size: size as u64 }),
        None => Err(FsError::NoDeviceSpace),
    }
}

/// The offset at which user space maps a buffer.
pub fn map_dumb(handle: u32) -> (offset: u64)
    ensures
        offset == handle * 4096,
{
    handle as u64 * MAP_SHIFT
}

/// The memory that a mapping of the card shows: the buffer that the offset names, or a buffer of
/// the driver's own, cut to its size.
pub fn get_vmo(st: &DrmState, offset: usize, len: usize, driver_gem: Option<(u64, u64)>) -> (r: Result<
    (u64, u64),
    FsError,
>)
    ensures
        r == mapped(st@, offset, len, driver_gem),
{
    let id: u32 = crate::bytes::low32(offset as u64 / MAP_SHIFT);
    match get_handle(st, id) {
        Some(h) => {
            let n: u64 = if len <= h.size { len as u64 } else { h.size as u64 };
            Ok((h.phys_addr, n))
        },
        None => match driver_gem {
            Some((phys, size)) => {
                let n: u64 = if len as u64 <= size { len as u64 } else { size };
                Ok((phys, n))
            },
            None => Err(FsError::InvalidParam),
        },
    }
}

/// Mapping at the offset that was handed out for a buffer reaches that buffer.
pub proof fn law_map_offset_roundtrip(handle: u32)
    ensures
        (handle * 4096) / 4096 % 0x1_0000_0000 == handle,
        (handle * 4096) % 4096 == 0,
{
}

/// One damaged rectangle: `[x1, x2)` by `[y1, y2)`.
#[derive(Clone, Copy, PartialEq, Eq, Structural, Debug)]
pub struct ClipRect {
    pub x1: u16,
    pub y1: u16,
    pub x2: u16,
    pub y2: u16,
}

/// Whether a rectangle has pixels.
pub open spec fn has_pixels(c: ClipRect) -> bool {
    c.x1 < c.x2 && c.y1 < c.y2
}

/// The smallest rectangle around two.
pub open spec fn around(a: Option<Area>, c: ClipRect) -> Area {
    match a {
        None => (c.x1 as u32, c.y1 as u32, (c.x2 - c.x1) as u32, (c.y2 - c.y1) as u32),
        Some((ux, uy, uw, uh)) => {
            let nx = if ux <= c.x1 { ux as int } else { c.x1 as int };
            let ny = if uy <= c.y1 { uy as int } else { c.y1 as int };
            let fx = if ux + uw >= c.x2 { ux + uw } else { c.x2 as int };
            let fy = if uy + uh >= c.y2 { uy + uh } else { c.y2 as int };
            (nx as u32, ny as u32, (fx - nx) as u32, (fy - ny) as u32)
        },
    }
}

/// The smallest rectangle around all rectangles that have pixels.
pub open spec fn damage(clips: Seq<ClipRect>) -> Option<Area>
    decreases clips.len(),
{
    if clips.len() == 0 {
        None
    } else {
        let rest = damage(clips.drop_last());
        if has_pixels(clips.last()) {
            Some(around(rest, clips.last()))
        } else {
            rest
        }
    }
}

/// The damaged area lies in the 16-bit coordinate space.
pub open spec fn small_area(a: Option<Area>) -> bool {
    a matches Some((x, y, w, h)) ==> x + w <= 65535 && y + h <= 65535 && w > 0 && h > 0
}

/// The smallest rectangle around the damage.
pub fn clip_union(clips: &Vec<ClipRect>) -> (a: Option<Area>)
    ensures
        a == damage(clips@),
        small_area(a),
{
    let mut acc: Option<Area> = None;
    let mut i: usize = 0;
    while i < clips.len()
        invariant
            i <= clips@.len(),
            acc == damage(clips@.subrange(0, i as int)),
            small_area(acc),
        decreases clips@.len() - i,
    {
        assert(clips@.subrange(0, i + 1).drop_last() =~= clips@.subrange(0, i as int));
        let c = clips[i];
        if c.x2 > c.x1 && c.y2 > c.y1 {
            let x1: u32 = c.x1 as u32;
            let y1: u32 = c.y1 as u32;
            let x2: u32 = c.x2 as u32;
            let y2: u32 = c.y2 as u32;
            acc = Some(
                match acc {
                    Some((ux, uy, uw, uh)) => {
                        let nx: u32 = if ux <= x1 { ux } else { x1 };
                        let ny: u32 = if uy <= y1 { uy } else { y1 };
                        let fx: u32 = if ux + uw >= x2 { ux + uw } else { x2 };
                        let fy: u32 = if uy + uh >= y2 { uy + uh } else { y2 };
                        (nx, ny, fx - nx, fy - ny)
                    },
                    None => (x1, y1, x2 - x1, y2 - y1),
                },
            );
        }
        i = i + 1;
    }
    assert(clips@.subrange(0, i as int) =~= clips@);
    acc
}

/// Every damaged pixel lies in the area that is drawn again.
pub proof fn law_damage_covers(clips: Seq<ClipRect>, k: int)
    requires
        0 <= k < clips.len(),
        has_pixels(clips[k]),
    ensures
        small_area(damage(clips)),
        damage(clips) matches Some((x, y, w, h)) && x <= clips[k].x1 && y <= clips[k].y1
            && clips[k].x2 <= x + w && clips[k].y2 <= y + h,
    decreases clips.len(),
{
    lemma_damage_small(clips.drop_last());
    lemma_damage_small(clips);
    if k < clips.len() - 1 {
        law_damage_covers(clips.drop_last(), k);
    }
}

proof fn lemma_damage_small(clips: Seq<ClipRect>)
    ensures
        small_area(damage(clips)),
    decreases clips.len(),
{
    if clips.len() > 0 {
        lemma_damage_small(clips.drop_last());
    }
}

/// The area that a damage request draws again: the whole frame without a usable list.
pub open spec fn dirty_area(num_clips: u32, clips_ptr: u64, clips: Seq<ClipRect>) -> Option<Area> {
    if 0 < num_clips <= 64 && clips_ptr != 0 {
        damage(clips)
    } else {
        None
    }
}

/// Draws damage again. It never fails: a frame that cannot be shown is left as it is.
pub fn dirty_fb(
    st: &mut DrmState,
    active_vt: usize,
    fb_id: u32,
    num_clips: u32,
    clips_ptr: u64,
    clips: &Vec<ClipRect>,
    hw_flip: bool,
) -> (p: Present)
    ensures
        p == crate::drm_kms::present_of(
            old(st)@,
            active_vt,
            fb_id,
            dirty_area(num_clips, clips_ptr, clips@),
            hw_flip,
        ),
        final(st)@ == crate::drm_kms::presented(
            old(st)@,
            active_vt,
            fb_id,
            dirty_area(num_clips, clips_ptr, clips@),
            hw_flip,
        ),
{
    let rect = if num_clips > 0 && num_clips <= 64 && clips_ptr != 0 {
        clip_union(clips)
    } else {
        None
    };
    present_now_region(st, active_vt, fb_id, 1, rect, hw_flip)
}

/// What setting a capability of a client gives, and the card after it.
pub open spec fn client_cap_set(m: DrmModel, cap: u64, value: u64) -> (Result<(), FsError>, DrmModel) {
    if cap == 3 {
        if !m.atomic_uapi || !crate::drm::software_kms(m) {
            (Err(FsError::OpNotSupported), m)
        } else if value > 2 {
            (Err(FsError::InvalidParam), m)
        } else {
            (Ok(()), DrmModel { client_atomic: value != 0, ..m })
        }
    } else if cap == 5 && (!m.client_atomic || value > 1) {
        (Err(FsError::InvalidParam), m)
    } else {
        (Ok(()), m)
    }
}

/// Whether a client's wish for versions can be met; -1 is no wish.
pub open spec fn version_accepted(di_major: i32, di_minor: i32, dd_major: i32) -> Result<(), FsError> {
    if (di_major != -1 && (di_major != 1 || di_minor < 0 || di_minor > 4)) || (dd_major != -1
        && dd_major != 1) {
        Err(FsError::InvalidParam)
    } else {
        Ok(())
    }
}

/// Which memory an offset maps, and how much of it.
pub open spec fn mapped(m: DrmModel, offset: usize, len: usize, driver_gem: Option<(u64, u64)>) -> Result<
    (u64, u64),
    FsError,
> {
    let id = (offset as int / 4096 % 0x1_0000_0000) as u32;
    match crate::drm::handle_of(m.handles, id) {
        Some(h) => Ok(
            (
                h.phys_addr,
                if len <= h.size {
                    len as u64
                } else {
                    h.size as u64
                },
            ),
        ),
        None => match driver_gem {
            Some((phys, size)) => Ok(
                (
                    phys,
                    if len as u64 <= size {
                        len as u64
                    } else {
                        size
                    },
                ),
            ),
            None => Err(FsError::InvalidParam),
        },
    }
}

/// The call of a command, where a node allows it.
pub open spec fn permitted(minor: u32, cmd: u32) -> Result<DrmCall, FsError> {
    if minor >= RENDER_MINOR && !render_allows(cmd) {
        Err(FsError::NoPermission)
    } else {
        Ok(call_of(cmd))
    }
}

/// A client turns atomic requests on and off where the card offers them and software drives the display,
/// and nothing else that it asks for changes the card.
pub proof fn law_client_capabilities(m: DrmModel, cap: u64, value: u64)
    ensures
        ({
            let r = client_cap_set(m, cap, value);
            &&& cap == 3 ==> (r.0 is Ok <==> m.atomic_uapi && crate::drm::software_kms(m) && value <= 2)
            &&& cap == 3 && r.0 is Ok ==> (r.1.client_atomic <==> value > 0)
            &&& cap == 5 ==> (r.0 is Ok <==> m.client_atomic && value <= 1)
            &&& cap != 3 && cap != 5 ==> r.0 is Ok
            &&& cap != 3 || r.0 is Err ==> r.1 == m
            &&& r.1.handles == m.handles && r.1.crtc_fb == m.crtc_fb && r.1.atomic_uapi == m.atomic_uapi
        }),
{
}

/// Versions 1.0 to 1.4 of the interface, and 1 of the driver, can be wished for; no wish is met too.
pub proof fn law_versions(di_major: i32, di_minor: i32, dd_major: i32)
    ensures
        version_accepted(di_major, di_minor, dd_major) is Ok <==> (di_major == -1 || (di_major == 1 && 0
            <= di_minor <= 4)) && (dd_major == -1 || dd_major == 1),
{
}

/// The offset that was handed out for a buffer maps that buffer, from its start and no further than its
/// end; one that no buffer has maps what the driver knows by it, or nothing.
pub proof fn law_buffer_mapped(m: DrmModel, id: u32, len: usize, driver_gem: Option<(u64, u64)>)
    requires
        id * 4096 <= usize::MAX,
    ensures
        crate::drm::handle_of(m.handles, id) matches Some(h) ==> (mapped(
            m,
            (id * 4096) as usize,
            len,
            driver_gem,
        ) matches Ok(r) && r.0 == h.phys_addr && r.1 <= h.size && r.1 <= len && (r.1 == h.size || r.1
            == len)),
        crate::drm::handle_of(m.handles, id) is None ==> {
            let r = mapped(m, (id * 4096) as usize, len, driver_gem);
            &&& driver_gem is None ==> r == Err::<(u64, u64), FsError>(FsError::InvalidParam)
            &&& driver_gem matches Some(g) ==> (r matches Ok(x) && x.0 == g.0 && x.1 <= g.1 && x.1 <= len
                && (x.1 == g.1 || x.1 == len))
        },
{
    law_map_offset_roundtrip(id);
}

/// The card itself refuses no call; a render node refuses all but the calls that render.
pub proof fn law_render_node_refuses(minor: u32, cmd: u32)
    ensures
        minor < 128 ==> permitted(minor, cmd) == Ok::<DrmCall, FsError>(call_of(cmd)),
        minor >= 128 ==> (permitted(minor, cmd) is Ok <==> render_allows(cmd)),
        permitted(minor, cmd) matches Err(e) ==> e == FsError::NoPermission,
        0xa0 <= cmd % 256 <= 0xbe ==> !render_allows(cmd),
        0x40 <= cmd % 256 <= 0x9f ==> render_allows(cmd),
        0xbf <= cmd % 256 <= 0xc5 ==> render_allows(cmd),
        0x0d <= cmd % 256 <= 0x2c ==> !render_allows(cmd),
        cmd % 256 == 0x2d || cmd % 256 == 0x2e || cmd % 256 == 9 ==> render_allows(cmd),
{
}

/// Rows of a plain buffer take whole pixels of at least four bytes, in steps of 64 bytes, none more than
/// needed.
pub proof fn law_plain_rows(width: u32, bpp: u32)
    ensures
        dumb_pitch(width, bpp) % 64 == 0,
        8 * dumb_pitch(width, bpp) >= width * bpp - 7,
        dumb_pitch(width, bpp) >= 4 * width,
        bpp <= 32 ==> dumb_pitch(width, bpp) < 4 * width + 64,
        bpp > 32 ==> 8 * dumb_pitch(width, bpp) < width * bpp + 512,
{
    let b = if bpp >= 32 {
        bpp as int
    } else {
        32
    };
    let n = width * b;
    assert(n >= 32 * width) by (nonlinear_arith)
        requires
            n == width * b,
            b >= 32,
            width >= 0,
    ;
    if bpp <= 32 {
        assert(n == 32 * width) by (nonlinear_arith)
            requires
                n == width * b,
                b == 32,
        ;
    }
    assert(n >= width * bpp) by (nonlinear_arith)
        requires
            n == width * b,
            b >= bpp,
            width >= 0,
    ;
}

/// A plain buffer is as large as its rows together, where it has any, and no more than 64 MiB.
pub proof fn law_plain_buffer(width: u32, height: u32, bpp: u32)
    ensures
        dumb_layout(width, height, bpp) is Some <==> 0 < dumb_pitch(width, bpp) <= u32::MAX && 0
            < dumb_pitch(width, bpp) * height <= 67108864,
        dumb_layout(width, height, bpp) matches Some(g) ==> g.0 == dumb_pitch(width, bpp) && g.1
            == dumb_pitch(width, bpp) * height,
{
    let p = dumb_pitch(width, bpp);
    law_plain_rows(width, bpp);
    assert(p * height >= 0) by (nonlinear_arith)
        requires
            p >= 0,
            height >= 0,
    ;
}

/// A plain buffer is made as any other is: under the next number, for its owner, where it has a size and
/// there is room for it.
pub proof fn law_plain_buffer_made(
    m: DrmModel,
    width: u32,
    height: u32,
    bpp: u32,
    backing: Option<u64>,
    accepted: bool,
    pid: u64,
)
    ensures
        ({
            let r = dumb_made(m, width, height, bpp, backing, accepted, pid);
            match dumb_layout(width, height, bpp) {
                None => r.1 == Err::<DumbReply, FsError>(FsError::InvalidParam) && r.0 == m,
                Some(g) => {
                    let a = crate::drm::allocated(m, g.1, backing, accepted, pid);
                    &&& r.0 == a.1
                    &&& r.1 is Ok <==> a.0 is Some
                    &&& r.1 matches Ok(d) ==> d.handle == a.0->0.id && d.pitch == g.0 && d.size == g.1
                    &&& r.1 matches Err(e) ==> e == FsError::NoDeviceSpace
                },
            }
        }),
{
    law_plain_buffer(width, height, bpp);
}

/// The damage is no larger than it must be: each of its edges is an edge of some part.
pub proof fn law_damage_tight(clips: Seq<ClipRect>)
    requires
        damage(clips) is Some,
    ensures
        damage(clips) matches Some((x, y, w, h)) && {
            &&& exists|k: int| 0 <= k < clips.len() && (#[trigger] clips[k]).x1 == x && has_pixels(clips[k])
            &&& exists|k: int| 0 <= k < clips.len() && (#[trigger] clips[k]).y1 == y && has_pixels(clips[k])
            &&& exists|k: int|
                0 <= k < clips.len() && (#[trigger] clips[k]).x2 == x + w && has_pixels(clips[k])
            &&& exists|k: int|
                0 <= k < clips.len() && (#[trigger] clips[k]).y2 == y + h && has_pixels(clips[k])
        },
    decreases clips.len(),
{
    let rest = clips.drop_last();
    let last = clips.last();
    let n = clips.len() - 1;
    lemma_damage_small(rest);
    assert(clips[n] == last);
    assert forall|k: int| 0 <= k < rest.len() implies #[trigger] rest[k] == clips[k] by {}
    if damage(rest) is Some {
        law_damage_tight(rest);
        let (x, y, w, h) = damage(rest)->0;
        let a = choose|k: int| 0 <= k < rest.len() && (#[trigger] rest[k]).x1 == x && has_pixels(rest[k]);
        let b = choose|k: int| 0 <= k < rest.len() && (#[trigger] rest[k]).y1 == y && has_pixels(rest[k]);
        let c = choose|k: int|
            0 <= k < rest.len() && (#[trigger] rest[k]).x2 == x + w && has_pixels(rest[k]);
        let d = choose|k: int|
            0 <= k < rest.len() && (#[trigger] rest[k]).y2 == y + h && has_pixels(rest[k]);
        assert(clips[a] == rest[a] && clips[b] == rest[b] && clips[c] == rest[c] && clips[d] == rest[d]);
    }
}

/// Parts are looked at where there are one to 64 of them; otherwise the whole frame is damaged. A part
/// without pixels damages nothing.
pub proof fn law_damage_given(num_clips: u32, clips_ptr: u64, clips: Seq<ClipRect>, c: ClipRect)
    ensures
        num_clips == 0 || num_clips > 64 || clips_ptr == 0 ==> dirty_area(num_clips, clips_ptr, clips)
            is None,
        1 <= num_clips <= 64 && clips_ptr != 0 ==> dirty_area(num_clips, clips_ptr, clips) == damage(
            clips,
        ),
        c.x1 >= c.x2 || c.y1 >= c.y2 ==> damage(clips.push(c)) == damage(clips),
        c.x1 < c.x2 && c.y1 < c.y2 ==> damage(clips.push(c)) is Some,
{
    assert(clips.push(c).drop_last() =~= clips);
}

/// A text is handed out with its end mark, cut to the room that there is, and not at all without room.
pub proof fn law_text_cut(text: &str, room: usize, ptr: u64)
    ensures
        room == 0 || ptr == 0 ==> text_for(text, room, ptr).len() == 0,
        text_for(text, room, ptr).len() <= room,
        room > 0 && ptr != 0 && room >= terminated(text).len() ==> text_for(text, room, ptr)
            == text.spec_bytes().push(0u8),
        room > 0 && ptr != 0 && room < terminated(text).len() ==> text_for(text, room, ptr)
            == text.spec_bytes().take(room as int),
{
    if room > 0 && ptr != 0 && room < terminated(text).len() {
        assert(terminated(text).subrange(0, room as int) =~= text.spec_bytes().take(room as int));
    }
    if room == terminated(text).len() {
        assert(terminated(text).subrange(0, room as int) =~= terminated(text));
    }
}

/// A list is copied out where there is a place for it and room for all of it.
pub proof fn law_all_or_nothing(ptr: u64, room: u32, n: int)
    ensures
        copied(ptr, room, n) <==> ptr != 0 && n <= room,
{
}

/// What the card can do: plain buffers with 24 bits of color, shared both ways, a cursor of 64 by 64
/// pixels, and events with the number of their display; fences only under the driver that has them.
pub proof fn law_capabilities(cap: u64, nouveau: bool)
    ensures
        cap_value(1, nouveau) == 1 && cap_value(3, nouveau) == 24 && cap_value(5, nouveau) == 3,
        cap_value(6, nouveau) == 1 && cap_value(8, nouveau) == 64 && cap_value(9, nouveau) == 64,
        cap_value(0x12, nouveau) == 1,
        cap == 0x13 || cap == 0x14 ==> (cap_value(cap, nouveau) == 1 <==> nouveau),
        cap != 0x13 && cap != 0x14 ==> cap_value(cap, nouveau) == cap_value(cap, !nouveau),
        cap > 0x14 ==> cap_value(cap, nouveau) == 0,
{
}

/// A length is told as it is where the field holds it, and never as more than it is.
pub proof fn law_length_told(n: int)
    requires
        n >= 0,
    ensures
        n < 0x1_0000_0000 ==> len32(n) == n,
        len32(n) <= n,
        len32(n + 0x1_0000_0000) == len32(n),
{
}

} // verus!
