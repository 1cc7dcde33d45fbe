//! What the card exposes: connectors, CRTCs, planes and their ids, from the synthetic pipeline or
//! from the drivers.
use vstd::prelude::*;
use crate::drm::{
    display_mode, get_primary_driver, software_kms_active, DrmModel, DrmState, SYNTH_CONNECTOR_ID,
    SYNTH_CRTC_ID, SYNTH_PLANE_ID,
};

verus! {

#[derive(Clone, Copy, PartialEq, Eq, Structural, Debug)]
pub struct DrmCaps {
    pub has_3d: bool,
    pub has_cursor: bool,
    pub max_width: u32,
    pub max_height: u32,
}

#[derive(Clone, Copy, PartialEq, Eq, Structural, Debug)]
pub struct DrmConnector {
    pub id: u32,
    pub connected: bool,
    pub mm_width: u32,
    pub mm_height: u32,
    pub connector_type: u32,
}

#[derive(Clone, Copy, PartialEq, Eq, Structural, Debug)]
pub struct DrmCrtc {
    pub id: u32,
    pub fb_id: u32,
    pub x: u32,
    pub y: u32,
}

#[derive(Clone, Copy, PartialEq, Eq, Structural, Debug)]
pub struct DrmPlane {
    pub id: u32,
    pub crtc_id: u32,
    pub fb_id: u32,
    pub possible_crtcs: u32,
    pub plane_type: u32,
}

/// The ids that one driver exposes.
pub struct DriverResources {
    pub hardware_kms: bool,
    pub crtcs: Vec<u32>,
    pub connectors: Vec<u32>,
    pub planes: Vec<u32>,
}

/// What the drivers answer to the queries that a request makes, each list in the order of
/// registration.
pub struct DriverAnswers {
    /// Of the primary driver.
    pub caps: Option<DrmCaps>,
    pub resources: Vec<DriverResources>,
    pub connectors: Vec<Option<DrmConnector>>,
    pub edids: Vec<Option<[u8; 128]>>,
    pub crtcs: Vec<Option<DrmCrtc>>,
    pub planes: Vec<Option<DrmPlane>>,
    /// The monitor description captured at boot, and how many of its bytes are valid.
    pub boot_edid: Option<([u8; 128], usize)>,
}

/// The first answer that is one.
pub open spec fn first_answer<T>(answers: Seq<Option<T>>) -> Option<T>
    decreases answers.len(),
{
    if answers.len() == 0 {
        None
    } else if answers[0] is Some {
        answers[0]
    } else {
        first_answer(answers.drop_first())
    }
}

fn first_of<T: Copy>(answers: &Vec<Option<T>>) -> (r: Option<T>)
    ensures
        r == first_answer(answers@),
{
    let mut i: usize = 0;
    assert(answers@.subrange(0, answers@.len() as int) =~= answers@);
    while i < answers.len()
        invariant
            i <= answers@.len(),
            first_answer(answers@) == first_answer(
                answers@.subrange(i as int, answers@.len() as int),
            ),
        decreases answers@.len() - i,
    {
        let ghost rest = answers@.subrange(i as int, answers@.len() as int);
        assert(rest.drop_first() =~= answers@.subrange(i + 1, answers@.len() as int));
        match answers[i] {
            Some(t) => {
                return Some(t);
            },
            None => {},
        }
        i = i + 1;
    }
    None
}

/// The card's capabilities: the driver's where it scans out, else those of the display.
pub open spec fn caps_of(m: DrmModel, d: DriverAnswers) -> Option<DrmCaps> {
    if !crate::drm::software_kms(m) && crate::drm::primary(m) is Some && d.caps is Some {
        d.caps
    } else {
        match m.display {
            None => None,
            Some(disp) => Some(
                DrmCaps {
                    has_3d: false,
                    has_cursor: false,
                    max_width: disp.width,
                    max_height: disp.height,
                },
            ),
        }
    }
}

pub fn get_caps(st: &DrmState, d: &DriverAnswers) -> (c: Option<DrmCaps>)
    ensures
        c == caps_of(st@, *d),
{
    if !software_kms_active(st) && get_primary_driver(st).is_some() {
        match d.caps {
            Some(c) => {
                return Some(c);
            },
            None => {},
        }
    }
    match display_mode(st) {
        None => None,
        Some((w, h, _)) => Some(
            DrmCaps { has_3d: false, has_cursor: false, max_width: w, max_height: h },
        ),
    }
}

/// `acc` with those of `more` appended that are not in it yet.
pub open spec fn union_in_order(acc: Seq<u32>, more: Seq<u32>) -> Seq<u32>
    decreases more.len(),
{
    if more.len() == 0 {
        acc
    } else {
        let a = union_in_order(acc, more.drop_last());
        if a.contains(more.last()) {
            a
        } else {
            a.push(more.last())
        }
    }
}

fn contains_id(ids: &Vec<u32>, id: u32) -> (b: bool)
    ensures
        b == ids@.contains(id),
{
    let mut i: usize = 0;
    while i < ids.len()
        invariant
            i <= ids@.len(),
            forall|k: int| 0 <= k < i ==> #[trigger] ids@[k] != id,
        decreases ids@.len() - i,
    {
        if ids[i] == id {
            assert(ids@[i as int] == id);
            return true;
        }
        i = i + 1;
    }
    false
}

fn merge_ids(acc: &mut Vec<u32>, more: &Vec<u32>)
    ensures
        final(acc)@ == union_in_order(old(acc)@, more@),
{
    let ghost start = acc@;
    let mut i: usize = 0;
    while i < more.len()
        invariant
            i <= more@.len(),
            acc@ == union_in_order(start, more@.subrange(0, i as int)),
        decreases more@.len() - i,
    {
        assert(more@.subrange(0, i + 1).drop_last() =~= more@.subrange(0, i as int));
        let id: u32 = more[i];
        if !contains_id(acc, id) {
            acc.push(id);
        }
        i = i + 1;
    }
    assert(more@.subrange(0, i as int) =~= more@);
}

/// Whether a driver scans out by itself.
pub open spec fn any_hardware(rs: Seq<DriverResources>) -> bool {
    exists|k: int| 0 <= k < rs.len() && (#[trigger] rs[k]).hardware_kms
}

/// Whether a driver's ids are exposed: all are, unless one scans out by itself; then only those
/// of such drivers are.
pub open spec fn exposed(r: DriverResources, hw: bool) -> bool {
    !hw || r.hardware_kms
}

/// The CRTCs of the exposed drivers, each once.
pub open spec fn all_crtcs(rs: Seq<DriverResources>, hw: bool) -> Seq<u32>
    decreases rs.len(),
{
    if rs.len() == 0 {
        Seq::empty()
    } else {
        let a = all_crtcs(rs.drop_last(), hw);
        if exposed(rs.last(), hw) {
            union_in_order(a, rs.last().crtcs@)
        } else {
            a
        }
    }
}

/// The connectors of the exposed drivers, each once.
pub open spec fn all_connectors(rs: Seq<DriverResources>, hw: bool) -> Seq<u32>
    decreases rs.len(),
{
    if rs.len() == 0 {
        Seq::empty()
    } else {
        let a = all_connectors(rs.drop_last(), hw);
        if exposed(rs.last(), hw) {
            union_in_order(a, rs.last().connectors@)
        } else {
            a
        }
    }
}

/// The planes of the exposed drivers.
pub open spec fn all_planes(rs: Seq<DriverResources>, hw: bool) -> Seq<u32>
    decreases rs.len(),
{
    if rs.len() == 0 {
        Seq::empty()
    } else {
        let a = all_planes(rs.drop_last(), hw);
        if exposed(rs.last(), hw) {
            a + rs.last().planes@
        } else {
            a
        }
    }
}

fn has_hardware(rs: &Vec<DriverResources>) -> (b: bool)
    ensures
        b == any_hardware(rs@),
{
    let mut i: usize = 0;
    while i < rs.len()
        invariant
            i <= rs@.len(),
            forall|k: int| 0 <= k < i ==> !(#[trigger] rs@[k]).hardware_kms,
        decreases rs@.len() - i,
    {
        if rs[i].hardware_kms {
            assert(rs@[i as int].hardware_kms);
            return true;
        }
        i = i + 1;
    }
    false
}

/// The ids of the framebuffers.
pub open spec fn fb_ids(fbs: Seq<crate::drm::DrmFramebuffer>) -> Seq<u32> {
    fbs.map_values(|f: crate::drm::DrmFramebuffer| f.id)
}

/// The CRTCs that are shown: the one of the software scanout, else those of the drivers.
pub open spec fn shown_crtcs(m: DrmModel, rs: Seq<DriverResources>) -> Seq<u32> {
    if crate::drm::software_kms(m) {
        seq![SYNTH_CRTC_ID]
    } else {
        all_crtcs(rs, any_hardware(rs))
    }
}

/// The connectors that are shown: the one of the software scanout, else those of the drivers.
pub open spec fn shown_connectors(m: DrmModel, rs: Seq<DriverResources>) -> Seq<u32> {
    if crate::drm::software_kms(m) {
        seq![SYNTH_CONNECTOR_ID]
    } else {
        all_connectors(rs, any_hardware(rs))
    }
}

/// The ids of the framebuffers, CRTCs and connectors. Drivers are not asked where frames are
/// blitted in software.
pub fn get_resources(st: &DrmState, d: &DriverAnswers) -> (r: (Vec<u32>, Vec<u32>, Vec<u32>))
    ensures
        r.0@ == fb_ids(st@.framebuffers),
        r.1@ == shown_crtcs(st@, d.resources@),
        r.2@ == shown_connectors(st@, d.resources@),
{
    let mut fbs: Vec<u32> = Vec::new();
    let mut i: usize = 0;
    while i < st.framebuffers.len()
        invariant
            i <= st.framebuffers@.len(),
            fbs@ == fb_ids(st.framebuffers@.subrange(0, i as int)),
        decreases st.framebuffers@.len() - i,
    {
        fbs.push(st.framebuffers[i].id);
        i = i + 1;
        assert(fbs@ =~= fb_ids(st.framebuffers@.subrange(0, i as int)));
    }
    assert(st.framebuffers@.subrange(0, i as int) =~= st.framebuffers@);
    if software_kms_active(st) {
        return (fbs, vec![SYNTH_CRTC_ID], vec![SYNTH_CONNECTOR_ID]);
    }
    let hw = has_hardware(&d.resources);
    let ghost rs = d.resources@;
    let mut crtcs: Vec<u32> = Vec::new();
    let mut connectors: Vec<u32> = Vec::new();
    let mut k: usize = 0;
    while k < d.resources.len()
        invariant
            k <= rs.len(),
            rs == d.resources@,
            crtcs@ == all_crtcs(rs.subrange(0, k as int), hw),
            connectors@ == all_connectors(rs.subrange(0, k as int), hw),
        decreases rs.len() - k,
    {
        assert(rs.subrange(0, k + 1).drop_last() =~= rs.subrange(0, k as int));
        if !hw || d.resources[k].hardware_kms {
            merge_ids(&mut crtcs, &d.resources[k].crtcs);
            merge_ids(&mut connectors, &d.resources[k].connectors);
        }
        k = k + 1;
    }
    assert(rs.subrange(0, k as int) =~= rs);
    (fbs, crtcs, connectors)
}

/// Millimetres of `px` pixels at about 96 dots per inch, at least one.
pub open spec fn mm_at_96dpi(px: u32) -> u32 {
    if px * 254 / 960 >= 1 {
        (px * 254 / 960) as u32
    } else {
        1
    }
}

pub fn mm_guess(px: u32) -> (mm: u32)
    ensures
        mm == mm_at_96dpi(px),
{
    let mm: u64 = px as u64 * 254 / 960;
    if mm >= 1 {
        mm as u32
    } else {
        1
    }
}

/// The synthetic connector: its size from the boot monitor description (centimetres in bytes 21
/// and 22), else guessed from the mode.
pub open spec fn synth_connector(m: DrmModel, d: DriverAnswers) -> Option<DrmConnector> {
    match m.display {
        None => None,
        Some(disp) => {
            let (mw, mh) = match d.boot_edid {
                Some((e, len)) => if len >= 23 && (e@[21] != 0 || e@[22] != 0) {
                    ((e@[21] * 10) as u32, (e@[22] * 10) as u32)
                } else {
                    (mm_at_96dpi(disp.width), mm_at_96dpi(disp.height))
                },
                None => (mm_at_96dpi(disp.width), mm_at_96dpi(disp.height)),
            };
            Some(
                DrmConnector {
                    id: SYNTH_CONNECTOR_ID,
                    connected: true,
                    mm_width: mw,
                    mm_height: mh,
                    connector_type: 11,
                },
            )
        },
    }
}

/// The connector with an id.
pub open spec fn connector_of(m: DrmModel, d: DriverAnswers, id: u32) -> Option<DrmConnector> {
    if !crate::drm::software_kms(m) && first_answer(d.connectors@) is Some {
        first_answer(d.connectors@)
    } else if id != SYNTH_CONNECTOR_ID {
        None
    } else {
        synth_connector(m, d)
    }
}

/// The connector with an id; `d.connectors` holds the drivers' answers for that id.
pub fn get_connector(st: &DrmState, d: &DriverAnswers, id: u32) -> (c: Option<DrmConnector>)
    ensures
        c == connector_of(st@, *d, id),
{
    if !software_kms_active(st) {
        match first_of(&d.connectors) {
            Some(c) => {
                return Some(c);
            },
            None => {},
        }
    }
    if id != SYNTH_CONNECTOR_ID {
        return None;
    }
    let (w, h, _) = match display_mode(st) {
        None => {
            return None;
        },
        Some(m) => m,
    };
    let mut mm_width: u32 = mm_guess(w);
    let mut mm_height: u32 = mm_guess(h);
    match d.boot_edid {
        Some((e, len)) => {
            if len >= 23 && (e[21] != 0 || e[22] != 0) {
                mm_width = e[21] as u32 * 10;
                mm_height = e[22] as u32 * 10;
            }
        },
        None => {},
    }
    Some(
        DrmConnector {
            id: SYNTH_CONNECTOR_ID,
            connected: true,
            mm_width,
            mm_height,
            connector_type: 11,
        },
    )
}

/// The monitor description of a connector: a driver's, or the boot one for the synthetic
/// connector.
pub open spec fn edid_of(d: DriverAnswers, id: u32) -> Option<[u8; 128]> {
    if first_answer(d.edids@) is Some {
        first_answer(d.edids@)
    } else {
        match d.boot_edid {
            Some((e, len)) => if id == SYNTH_CONNECTOR_ID && len >= 128 {
                Some(e)
            } else {
                None
            },
            None => None,
        }
    }
}

/// The monitor description of a connector; `d.edids` holds the drivers' answers for its id.
pub fn get_connector_edid(d: &DriverAnswers, id: u32) -> (e: Option<[u8; 128]>)
    ensures
        e == edid_of(*d, id),
{
    match first_of(&d.edids) {
        Some(e) => {
            return Some(e);
        },
        None => {},
    }
    if id == SYNTH_CONNECTOR_ID {
        match d.boot_edid {
            Some((e, len)) => {
                if len >= 128 {
                    return Some(e);
                }
            },
            None => {},
        }
    }
    None
}

/// The CRTC with an id. A driver's CRTC shows the framebuffer bound here, where one is.
pub open spec fn crtc_of(m: DrmModel, d: DriverAnswers, id: u32) -> Option<DrmCrtc> {
    if !crate::drm::software_kms(m) && first_answer(d.crtcs@) is Some {
        let c = first_answer(d.crtcs@)->Some_0;
        Some(DrmCrtc { fb_id: if m.crtc_fb != 0 { m.crtc_fb } else { c.fb_id }, ..c })
    } else if id != SYNTH_CRTC_ID || m.display is None {
        None
    } else {
        Some(DrmCrtc { id: SYNTH_CRTC_ID, fb_id: m.crtc_fb, x: 0, y: 0 })
    }
}

/// The CRTC with an id; `d.crtcs` holds the drivers' answers for that id.
pub fn get_crtc(st: &DrmState, d: &DriverAnswers, id: u32) -> (c: Option<DrmCrtc>)
    ensures
        c == crtc_of(st@, *d, id),
{
    if !software_kms_active(st) {
        match first_of(&d.crtcs) {
            Some(c) => {
                let fb_id: u32 = if st.crtc_fb != 0 { st.crtc_fb } else { c.fb_id };
                return Some(DrmCrtc { id: c.id, fb_id, x: c.x, y: c.y });
            },
            None => {},
        }
    }
    if id != SYNTH_CRTC_ID {
        return None;
    }
    if display_mode(st).is_none() {
        return None;
    }
    Some(DrmCrtc { id: SYNTH_CRTC_ID, fb_id: st.crtc_fb, x: 0, y: 0 })
}

/// The ids of the planes.
pub fn get_planes(st: &DrmState, d: &DriverAnswers) -> (ids: Vec<u32>)
    ensures
        ids@ == if crate::drm::software_kms(st@) {
            seq![SYNTH_PLANE_ID]
        } else {
            all_planes(d.resources@, any_hardware(d.resources@))
        },
{
    if software_kms_active(st) {
        return vec![SYNTH_PLANE_ID];
    }
    let hw = has_hardware(&d.resources);
    let ghost rs = d.resources@;
    let mut planes: Vec<u32> = Vec::new();
    let mut k: usize = 0;
    while k < d.resources.len()
        invariant
            k <= rs.len(),
            rs == d.resources@,
            planes@ == all_planes(rs.subrange(0, k as int), hw),
        decreases rs.len() - k,
    {
        assert(rs.subrange(0, k + 1).drop_last() =~= rs.subrange(0, k as int));
        if !hw || d.resources[k].hardware_kms {
            let ghost before = planes@;
            let more = &d.resources[k].planes;
            let mut j: usize = 0;
            while j < more.len()
                invariant
                    j <= more@.len(),
                    planes@ == before + more@.subrange(0, j as int),
                decreases more@.len() - j,
            {
                planes.push(more[j]);
                j = j + 1;
                assert(planes@ =~= before + more@.subrange(0, j as int));
            }
            assert(more@.subrange(0, j as int) =~= more@);
        }
        k = k + 1;
    }
    assert(rs.subrange(0, k as int) =~= rs);
    planes
}

/// The plane with an id.
pub open spec fn plane_of(m: DrmModel, d: DriverAnswers, id: u32) -> Option<DrmPlane> {
    if crate::drm::software_kms(m) {
        if id == SYNTH_PLANE_ID {
            Some(
                DrmPlane {
                    id: SYNTH_PLANE_ID,
                    crtc_id: SYNTH_CRTC_ID,
                    fb_id: 0,
                    possible_crtcs: 1,
                    plane_type: 1,
                },
            )
        } else {
            None
        }
    } else {
        match first_answer(d.planes@) {
            None => None,
            Some(p) => Some(
                DrmPlane { fb_id: if m.crtc_fb != 0 { m.crtc_fb } else { p.fb_id }, ..p },
            ),
        }
    }
}

/// The plane with an id; `d.planes` holds the drivers' answers for that id.
pub fn get_plane(st: &DrmState, d: &DriverAnswers, id: u32) -> (p: Option<DrmPlane>)
    ensures
        p == plane_of(st@, *d, id),
{
    if !software_kms_active(st) {
        return match first_of(&d.planes) {
            Some(p) => Some(
                DrmPlane {
                    id: p.id,
                    crtc_id: p.crtc_id,
                    fb_id: if st.crtc_fb != 0 { st.crtc_fb } else { p.fb_id },
                    possible_crtcs: p.possible_crtcs,
                    plane_type: p.plane_type,
                },
            ),
            None => None,
        };
    }
    if id == SYNTH_PLANE_ID {
        return Some(
            DrmPlane {
                id: SYNTH_PLANE_ID,
                crtc_id: SYNTH_CRTC_ID,
                fb_id: 0,
                possible_crtcs: 1,
                plane_type: 1,
            },
        );
    }
    None
}

proof fn lemma_union_unique(acc: Seq<u32>, more: Seq<u32>)
    requires
        acc.no_duplicates(),
    ensures
        union_in_order(acc, more).no_duplicates(),
    decreases more.len(),
{
    if more.len() > 0 {
        lemma_union_unique(acc, more.drop_last());
    }
}

/// No CRTC and no connector is listed twice, however many drivers name it.
pub proof fn law_resources_unique(rs: Seq<DriverResources>, hw: bool)
    ensures
        all_crtcs(rs, hw).no_duplicates(),
        all_connectors(rs, hw).no_duplicates(),
    decreases rs.len(),
{
    if rs.len() > 0 {
        law_resources_unique(rs.drop_last(), hw);
        lemma_union_unique(all_crtcs(rs.drop_last(), hw), rs.last().crtcs@);
        lemma_union_unique(all_connectors(rs.drop_last(), hw), rs.last().connectors@);
    }
}

/// The driver's own answer counts where a driver scans out and gives one; otherwise what the display can
/// do does, without 3D and without a cursor.
pub proof fn law_capabilities_from(m: DrmModel, d: DriverAnswers)
    ensures
        !crate::drm::software_kms(m) && m.drivers.len() > 0 && d.caps is Some ==> caps_of(m, d) == d.caps,
        crate::drm::software_kms(m) || m.drivers.len() == 0 || d.caps is None ==> {
            &&& caps_of(m, d) is Some <==> m.display is Some
            &&& caps_of(m, d) matches Some(c) ==> !c.has_3d && !c.has_cursor && c.max_width
                == m.display->0.width && c.max_height == m.display->0.height
        },
{
}

/// The first driver that answers is believed.
pub proof fn law_first_answer<T>(answers: Seq<Option<T>>, k: int)
    requires
        0 <= k < answers.len(),
        answers[k] is Some,
        forall|j: int| 0 <= j < k ==> #[trigger] answers[j] is None,
    ensures
        first_answer(answers) == answers[k],
    decreases k,
{
    if k > 0 {
        assert(answers[0] is None);
        assert(answers.drop_first()[k - 1] == answers[k]);
        assert forall|j: int| 0 <= j < k - 1 implies #[trigger] answers.drop_first()[j] is None by {
            assert(answers.drop_first()[j] == answers[j + 1]);
        }
        law_first_answer(answers.drop_first(), k - 1);
    }
}

/// Where no driver answers there is no answer.
pub proof fn law_no_answer<T>(answers: Seq<Option<T>>)
    requires
        forall|j: int| 0 <= j < answers.len() ==> #[trigger] answers[j] is None,
    ensures
        first_answer(answers) is None,
    decreases answers.len(),
{
    if answers.len() > 0 {
        assert(answers[0] is None);
        assert forall|j: int| 0 <= j < answers.drop_first().len() implies #[trigger] answers.drop_first()[j]
            is None by {
            assert(answers.drop_first()[j] == answers[j + 1]);
        }
        law_no_answer(answers.drop_first());
    }
}

/// What drivers have is listed together, each once: of those that scan out by themselves where there are
/// any, and of all otherwise.
pub proof fn law_resources_listed(rs: Seq<DriverResources>, r: DriverResources, hw: bool, id: u32)
    ensures
        !hw || r.hardware_kms ==> (all_crtcs(rs.push(r), hw).contains(id) <==> all_crtcs(rs, hw).contains(
            id,
        ) || r.crtcs@.contains(id)),
        !hw || r.hardware_kms ==> (all_connectors(rs.push(r), hw).contains(id) <==> all_connectors(
            rs,
            hw,
        ).contains(id) || r.connectors@.contains(id)),
        !hw || r.hardware_kms ==> all_planes(rs.push(r), hw) == all_planes(rs, hw) + r.planes@,
        hw && !r.hardware_kms ==> all_crtcs(rs.push(r), hw) == all_crtcs(rs, hw) && all_connectors(
            rs.push(r),
            hw,
        ) == all_connectors(rs, hw) && all_planes(rs.push(r), hw) == all_planes(rs, hw),
        any_hardware(rs.push(r)) <==> any_hardware(rs) || r.hardware_kms,
{
    let n = rs.push(r);
    assert(n.drop_last() =~= rs);
    assert(n.last() == r);
    lemma_union_members(all_crtcs(rs, hw), r.crtcs@, id);
    lemma_union_members(all_connectors(rs, hw), r.connectors@, id);
    if any_hardware(rs) {
        let k = choose|k: int| 0 <= k < rs.len() && (#[trigger] rs[k]).hardware_kms;
        assert(n[k] == rs[k]);
    }
    if r.hardware_kms {
        assert(n[rs.len() as int] == r);
    }
    if any_hardware(n) && !r.hardware_kms {
        let k = choose|k: int| 0 <= k < n.len() && (#[trigger] n[k]).hardware_kms;
        assert(rs[k] == n[k]);
    }
}

proof fn lemma_union_members(acc: Seq<u32>, more: Seq<u32>, id: u32)
    ensures
        union_in_order(acc, more).contains(id) <==> acc.contains(id) || more.contains(id),
    decreases more.len(),
{
    if more.len() > 0 {
        let front = more.drop_last();
        let a = union_in_order(acc, front);
        lemma_union_members(acc, front, id);
        lemma_union_members(acc, front, more.last());
        if more.contains(id) && id != more.last() {
            let k = choose|k: int| 0 <= k < more.len() && more[k] == id;
            assert(front[k] == id);
        }
        if front.contains(id) {
            let k = choose|k: int| 0 <= k < front.len() && front[k] == id;
            assert(more[k] == id);
        }
        assert(more[more.len() - 1] == more.last());
        let b = a.push(more.last());
        if a.contains(id) {
            let k = choose|k: int| 0 <= k < a.len() && a[k] == id;
            assert(b[k] == id);
        }
        assert(b[a.len() as int] == more.last());
        if b.contains(id) && id != more.last() {
            let k = choose|k: int| 0 <= k < b.len() && b[k] == id;
            assert(a[k] == id);
        }
    }
}

/// The display's own connector is always connected. Its size is what the monitor says of itself, in
/// centimeters, or else 25.4 millimeters for each 96 pixels, and never 0 by that.
pub proof fn law_own_connector(m: DrmModel, d: DriverAnswers, disp: crate::drm::DisplayInfo)
    requires
        m.display == Some(disp),
    ensures
        synth_connector(m, d) matches Some(c) && c.id == 2 && c.connected && c.connector_type == 11,
        d.boot_edid is None ==> synth_connector(m, d)->0.mm_width == mm_at_96dpi(disp.width)
            && synth_connector(m, d)->0.mm_height == mm_at_96dpi(disp.height),
        d.boot_edid matches Some(e) ==> (e.1 >= 23 && (e.0@[21] != 0 || e.0@[22] != 0) ==> synth_connector(
            m,
            d,
        )->0.mm_width == 10 * e.0@[21] && synth_connector(m, d)->0.mm_height == 10 * e.0@[22]),
        d.boot_edid matches Some(e) ==> (e.1 < 23 || (e.0@[21] == 0 && e.0@[22] == 0) ==> synth_connector(
            m,
            d,
        )->0.mm_width == mm_at_96dpi(disp.width) && synth_connector(m, d)->0.mm_height == mm_at_96dpi(
            disp.height,
        )),
{
}

/// A size is guessed at 96 pixels for 25.4 millimeters.
pub proof fn law_size_guessed(px: u32)
    ensures
        mm_at_96dpi(px) >= 1,
        px >= 4 ==> 960 * mm_at_96dpi(px) <= 254 * px < 960 * (mm_at_96dpi(px) + 1),
{
}

/// Which connector, display controller and plane there are: the drivers' where a driver scans out and
/// answers, and otherwise the display's own, under its number alone.
pub proof fn law_own_numbers(m: DrmModel, d: DriverAnswers, id: u32)
    ensures
        crate::drm::software_kms(m) ==> (connector_of(m, d, id) is Some <==> id == 2),
        crate::drm::software_kms(m) ==> (crtc_of(m, d, id) is Some <==> id == 1),
        crate::drm::software_kms(m) ==> (plane_of(m, d, id) is Some <==> id == 4),
        crate::drm::software_kms(m) ==> (crtc_of(m, d, id) matches Some(c) ==> c.fb_id == m.crtc_fb && c.x
            == 0 && c.y == 0 && c.id == 1),
        crate::drm::software_kms(m) ==> (plane_of(m, d, id) matches Some(p) ==> p.crtc_id == 1
            && p.possible_crtcs == 1 && p.plane_type == 1),
        !crate::drm::software_kms(m) && first_answer(d.connectors@) is Some ==> connector_of(m, d, id)
            == first_answer(d.connectors@),
        !crate::drm::software_kms(m) && first_answer(d.planes@) is None ==> plane_of(m, d, id) is None,
{
}

/// What a driver says of its display controller or plane is told on, but for the framebuffer: that is
/// the one shown last, where one was.
pub proof fn law_shown_framebuffer_told(m: DrmModel, d: DriverAnswers, id: u32)
    requires
        !crate::drm::software_kms(m),
    ensures
        first_answer(d.crtcs@) matches Some(c) ==> (crtc_of(m, d, id) matches Some(t) && t.id == c.id && t.x
            == c.x && t.y == c.y && t.fb_id == (if m.crtc_fb != 0 {
            m.crtc_fb
        } else {
            c.fb_id
        })),
        first_answer(d.planes@) matches Some(p) ==> (plane_of(m, d, id) matches Some(t) && t.id == p.id
            && t.crtc_id == p.crtc_id && t.possible_crtcs == p.possible_crtcs && t.plane_type
            == p.plane_type && t.fb_id == (if m.crtc_fb != 0 {
            m.crtc_fb
        } else {
            p.fb_id
        })),
{
}

/// A monitor's description is the driver's, or else the one read at the boot, where that is whole and
/// the display's own connector is meant.
pub proof fn law_description_from(d: DriverAnswers, id: u32)
    ensures
        first_answer(d.edids@) is Some ==> edid_of(d, id) == first_answer(d.edids@),
        first_answer(d.edids@) is None ==> (edid_of(d, id) is Some <==> id == 2 && (
        d.boot_edid matches Some(e) && e.1 >= 128)),
        first_answer(d.edids@) is None ==> (edid_of(d, id) matches Some(e) ==> e == (d.boot_edid->0).0),
{
}

/// Where the screen is scanned out in software, one CRTC and one connector are shown, the first under
/// the number one and the other under two, whatever the drivers have. Elsewhere what the drivers
/// show is shown.
pub proof fn law_screen_shown(m: DrmModel, rs: Seq<DriverResources>)
    ensures
        crate::drm::software_kms(m) ==> shown_crtcs(m, rs).len() == 1 && shown_crtcs(m, rs)[0] == 1
            && shown_connectors(m, rs).len() == 1 && shown_connectors(m, rs)[0] == 2,
        m.display is None && rs.len() == 0 ==> shown_crtcs(m, rs).len() == 0 && shown_connectors(
            m,
            rs,
        ).len() == 0,
        !crate::drm::software_kms(m) ==> shown_crtcs(m, rs) == all_crtcs(rs, any_hardware(rs))
            && shown_connectors(m, rs) == all_connectors(rs, any_hardware(rs)),
        any_hardware(rs) <==> exists|k: int| 0 <= k < rs.len() && (#[trigger] rs[k]).hardware_kms,
{
}

} // verus!
