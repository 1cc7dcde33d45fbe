//! Names of the display manager's objects: no two buffers, framebuffers or property blobs share one,
//! and the mode in force has a blob of the kernel's own.
use vstd::prelude::*;
use crate::drm::{BlobModel, DrmFramebuffer, DrmModel, GemEntry};
use crate::drm_ioctl::{DrmContext, DrmReply, DrmRequest};
use crate::error::FsError;

verus! {

/// Ids that were handed out one after the other from `first` on: no two are the same, none is 0, and
/// the next one is above them all.
#[verifier::opaque]
pub open spec fn handed_out(ids: Seq<u32>, first: u32, next: u32) -> bool {
    &&& 0 < first <= next
    &&& forall|i: int| 0 <= i < ids.len() ==> first <= #[trigger] ids[i] < next
    &&& forall|i: int, j: int| 0 <= i < j < ids.len() ==> #[trigger] ids[i] != #[trigger] ids[j]
}

/// The ids of the buffers.
pub open spec fn handle_ids(hs: Seq<GemEntry>) -> Seq<u32> {
    Seq::new(hs.len(), |i: int| hs[i].handle.id)
}

/// The ids of the framebuffers.
pub open spec fn fb_ids(fbs: Seq<DrmFramebuffer>) -> Seq<u32> {
    Seq::new(fbs.len(), |i: int| fbs[i].id)
}

/// The ids of the property blobs.
pub open spec fn blob_ids(bs: Seq<BlobModel>) -> Seq<u32> {
    Seq::new(bs.len(), |i: int| bs[i].id)
}

/// Where a mode is in force, its blob is there and is the kernel's own.
#[verifier::opaque]
pub open spec fn mode_kept(bs: Seq<BlobModel>, mode: u32) -> bool {
    mode != 0 ==> exists|k: int|
        0 <= k < bs.len() && (#[trigger] bs[k]).id == mode && !bs[k].user_created
}

/// A cursor image has as many pixels as its size says.
#[verifier::opaque]
pub open spec fn image_whole(bitmap: Option<Seq<u32>>, w: u32, h: u32) -> bool {
    bitmap matches Some(b) ==> b.len() == w * h
}

/// What always holds of the display manager's state.
pub open spec fn well_named(m: DrmModel) -> bool {
    &&& handed_out(handle_ids(m.handles), 1, m.next_handle_id)
    &&& handed_out(fb_ids(m.framebuffers), 1, m.next_fb_id)
    &&& handed_out(blob_ids(m.blobs), crate::drm::FIRST_BLOB_ID, m.next_blob_id)
    &&& mode_kept(m.blobs, m.atomic.mode_blob_id)
    &&& image_whole(m.cursor.bitmap, m.cursor.w, m.cursor.h)
}

/// Whether there are 32-bit ids left for one more object of each kind.
pub open spec fn ids_left(m: DrmModel) -> bool {
    m.next_handle_id < u32::MAX && m.next_fb_id < u32::MAX && m.next_blob_id < u32::MAX
}

proof fn lemma_push(ids: Seq<u32>, first: u32, next: u32)
    requires
        handed_out(ids, first, next),
        next < u32::MAX,
    ensures
        handed_out(ids.push(next), first, (next + 1) as u32),
{
    reveal(handed_out);
}

proof fn lemma_skip(ids: Seq<u32>, first: u32, next: u32)
    requires
        handed_out(ids, first, next),
        next < u32::MAX,
    ensures
        handed_out(ids, first, (next + 1) as u32),
{
    reveal(handed_out);
}

proof fn lemma_remove(ids: Seq<u32>, first: u32, next: u32, k: int)
    requires
        handed_out(ids, first, next),
        0 <= k < ids.len(),
    ensures
        handed_out(ids.remove(k), first, next),
{
    reveal(handed_out);
    let r = ids.remove(k);
    assert forall|i: int| 0 <= i < r.len() implies first <= #[trigger] r[i] < next by {
        assert(r[i] == if i < k { ids[i] } else { ids[i + 1] });
    }
    assert forall|i: int, j: int| 0 <= i < j < r.len() implies #[trigger] r[i] != #[trigger] r[j] by {
        assert(r[i] == if i < k { ids[i] } else { ids[i + 1] });
        assert(r[j] == if j < k { ids[j] } else { ids[j + 1] });
    }
}

proof fn lemma_drop_last(ids: Seq<u32>, first: u32, next: u32)
    requires
        handed_out(ids, first, next),
        ids.len() > 0,
    ensures
        handed_out(ids.drop_last(), first, next),
{
    reveal(handed_out);
}

proof fn lemma_push_back(ids: Seq<u32>, first: u32, next: u32, id: u32)
    requires
        handed_out(ids, first, next),
        first <= id < next,
        !ids.contains(id),
    ensures
        handed_out(ids.push(id), first, next),
{
    reveal(handed_out);
    let p = ids.push(id);
    assert forall|i: int, j: int| 0 <= i < j < p.len() implies #[trigger] p[i] != #[trigger] p[j] by {
        assert(ids.contains(ids[i]));
    }
}

proof fn lemma_handle_pos(s: Seq<GemEntry>, id: u32, from: int)
    requires
        0 <= from <= s.len(),
    ensures
        from <= crate::drm::handle_pos(s, id, from) <= s.len(),
        crate::drm::handle_pos(s, id, from) < s.len() ==> s[crate::drm::handle_pos(s, id, from)].handle.id == id,
        forall|k: int|
            from <= k < crate::drm::handle_pos(s, id, from) ==> (#[trigger] s[k]).handle.id != id,
    decreases s.len() - from,
{
    if from < s.len() && s[from].handle.id != id {
        lemma_handle_pos(s, id, from + 1);
    }
}

/// A buffer stands where its id is looked for.
proof fn lemma_handle_at(s: Seq<GemEntry>, next: u32, k: int)
    requires
        handed_out(handle_ids(s), 1, next),
        0 <= k < s.len(),
    ensures
        crate::drm::handle_pos(s, s[k].handle.id, 0) == k,
{
    reveal(handed_out);
    lemma_handle_pos(s, s[k].handle.id, 0);
    let p = crate::drm::handle_pos(s, s[k].handle.id, 0);
    if p < k {
        assert(handle_ids(s)[p] != handle_ids(s)[k]);
    } else if k < p {
        assert(s[k].handle.id != s[k].handle.id);
    }
}

/// A buffer that was just made has an id that none had before, is found under it, and hides no other.
pub proof fn law_made_handle_found(m: DrmModel, made: GemEntry, other: u32)
    requires
        well_named(m),
        m.next_handle_id < u32::MAX,
        made.handle.id == m.next_handle_id,
    ensures
        crate::drm::handle_of(m.handles, made.handle.id) is None,
        crate::drm::handle_of(m.handles.push(made), made.handle.id) == Some(made.handle),
        other != made.handle.id ==> crate::drm::handle_of(m.handles.push(made), other) == crate::drm::handle_of(
            m.handles,
            other,
        ),
{
    reveal(handed_out);
    let s = m.handles;
    let t = s.push(made);
    assert(handle_ids(t) =~= handle_ids(s).push(m.next_handle_id));
    lemma_push(handle_ids(s), 1, m.next_handle_id);
    lemma_handle_at(t, (m.next_handle_id + 1) as u32, s.len() as int);
    lemma_handle_pos(s, made.handle.id, 0);
    let p = crate::drm::handle_pos(s, made.handle.id, 0);
    if p < s.len() {
        assert(handle_ids(s)[p] < m.next_handle_id);
    }
    lemma_handle_pos(s, other, 0);
    lemma_handle_pos(t, other, 0);
    let a = crate::drm::handle_pos(s, other, 0);
    let b = crate::drm::handle_pos(t, other, 0);
    if other != made.handle.id {
        if a < s.len() {
            assert(t[a] == s[a]);
            lemma_handle_at(t, (m.next_handle_id + 1) as u32, a);
        } else if b < t.len() {
            assert(b < s.len());
            assert(s[b] == t[b]);
        }
    }
}

/// A buffer that was removed is not found any more, and every other still is.
pub proof fn law_removed_handle_gone(m: DrmModel, id: u32, other: u32)
    requires
        well_named(m),
        crate::drm::handle_of(m.handles, id) is Some,
    ensures
        ({
            let left = m.handles.remove(crate::drm::handle_pos(m.handles, id, 0));
            &&& crate::drm::handle_of(left, id) is None
            &&& other != id ==> crate::drm::handle_of(left, other) == crate::drm::handle_of(m.handles, other)
        }),
{
    reveal(handed_out);
    let s = m.handles;
    lemma_handle_pos(s, id, 0);
    let k = crate::drm::handle_pos(s, id, 0);
    let t = s.remove(k);
    assert(handle_ids(t) =~= handle_ids(s).remove(k));
    lemma_remove(handle_ids(s), 1, m.next_handle_id, k);
    lemma_handle_pos(t, id, 0);
    let g = crate::drm::handle_pos(t, id, 0);
    if g < t.len() {
        let j = if g < k { g } else { g + 1 };
        assert(t[g] == s[j]);
        assert(handle_ids(s)[j] == id && handle_ids(s)[k] == id);
    }
    lemma_handle_pos(s, other, 0);
    lemma_handle_pos(t, other, 0);
    let a = crate::drm::handle_pos(s, other, 0);
    let b = crate::drm::handle_pos(t, other, 0);
    if other != id {
        if a < s.len() {
            let j = if a < k { a } else { a - 1 };
            assert(t[j] == s[a]);
            lemma_handle_at(t, m.next_handle_id, j);
        } else if b < t.len() {
            let j = if b < k { b } else { b + 1 };
            assert(s[j] == t[b]);
        }
    }
}

proof fn lemma_fb_pos(s: Seq<DrmFramebuffer>, id: u32, from: int)
    requires
        0 <= from <= s.len(),
    ensures
        from <= crate::drm::fb_pos(s, id, from) <= s.len(),
        crate::drm::fb_pos(s, id, from) < s.len() ==> s[crate::drm::fb_pos(s, id, from)].id == id,
        forall|k: int|
            from <= k < crate::drm::fb_pos(s, id, from) ==> (#[trigger] s[k]).id != id,
    decreases s.len() - from,
{
    if from < s.len() && s[from].id != id {
        lemma_fb_pos(s, id, from + 1);
    }
}

/// A framebuffer stands where its id is looked for.
proof fn lemma_fb_at(s: Seq<DrmFramebuffer>, next: u32, k: int)
    requires
        handed_out(fb_ids(s), 1, next),
        0 <= k < s.len(),
    ensures
        crate::drm::fb_pos(s, s[k].id, 0) == k,
{
    reveal(handed_out);
    lemma_fb_pos(s, s[k].id, 0);
    let p = crate::drm::fb_pos(s, s[k].id, 0);
    if p < k {
        assert(fb_ids(s)[p] != fb_ids(s)[k]);
    } else if k < p {
        assert(s[k].id != s[k].id);
    }
}

/// A framebuffer that was just made has an id that none had before, is found under it, and hides no other.
pub proof fn law_made_fb_found(m: DrmModel, made: DrmFramebuffer, other: u32)
    requires
        well_named(m),
        m.next_fb_id < u32::MAX,
        made.id == m.next_fb_id,
    ensures
        crate::drm::fb_of(m.framebuffers, made.id) is None,
        crate::drm::fb_of(m.framebuffers.push(made), made.id) == Some(made),
        other != made.id ==> crate::drm::fb_of(m.framebuffers.push(made), other) == crate::drm::fb_of(
            m.framebuffers,
            other,
        ),
{
    reveal(handed_out);
    let s = m.framebuffers;
    let t = s.push(made);
    assert(fb_ids(t) =~= fb_ids(s).push(m.next_fb_id));
    lemma_push(fb_ids(s), 1, m.next_fb_id);
    lemma_fb_at(t, (m.next_fb_id + 1) as u32, s.len() as int);
    lemma_fb_pos(s, made.id, 0);
    let p = crate::drm::fb_pos(s, made.id, 0);
    if p < s.len() {
        assert(fb_ids(s)[p] < m.next_fb_id);
    }
    lemma_fb_pos(s, other, 0);
    lemma_fb_pos(t, other, 0);
    let a = crate::drm::fb_pos(s, other, 0);
    let b = crate::drm::fb_pos(t, other, 0);
    if other != made.id {
        if a < s.len() {
            assert(t[a] == s[a]);
            lemma_fb_at(t, (m.next_fb_id + 1) as u32, a);
        } else if b < t.len() {
            assert(b < s.len());
            assert(s[b] == t[b]);
        }
    }
}

/// A framebuffer that was removed is not found any more, and every other still is.
pub proof fn law_removed_fb_gone(m: DrmModel, id: u32, other: u32)
    requires
        well_named(m),
        crate::drm::fb_of(m.framebuffers, id) is Some,
    ensures
        ({
            let left = m.framebuffers.remove(crate::drm::fb_pos(m.framebuffers, id, 0));
            &&& crate::drm::fb_of(left, id) is None
            &&& other != id ==> crate::drm::fb_of(left, other) == crate::drm::fb_of(m.framebuffers, other)
        }),
{
    reveal(handed_out);
    let s = m.framebuffers;
    lemma_fb_pos(s, id, 0);
    let k = crate::drm::fb_pos(s, id, 0);
    let t = s.remove(k);
    assert(fb_ids(t) =~= fb_ids(s).remove(k));
    lemma_remove(fb_ids(s), 1, m.next_fb_id, k);
    lemma_fb_pos(t, id, 0);
    let g = crate::drm::fb_pos(t, id, 0);
    if g < t.len() {
        let j = if g < k { g } else { g + 1 };
        assert(t[g] == s[j]);
        assert(fb_ids(s)[j] == id && fb_ids(s)[k] == id);
    }
    lemma_fb_pos(s, other, 0);
    lemma_fb_pos(t, other, 0);
    let a = crate::drm::fb_pos(s, other, 0);
    let b = crate::drm::fb_pos(t, other, 0);
    if other != id {
        if a < s.len() {
            let j = if a < k { a } else { a - 1 };
            assert(t[j] == s[a]);
            lemma_fb_at(t, m.next_fb_id, j);
        } else if b < t.len() {
            let j = if b < k { b } else { b + 1 };
            assert(s[j] == t[b]);
        }
    }
}

proof fn lemma_blob_pos(s: Seq<BlobModel>, id: u32, from: int)
    requires
        0 <= from <= s.len(),
    ensures
        from <= crate::drm::blob_pos(s, id, from) <= s.len(),
        crate::drm::blob_pos(s, id, from) < s.len() ==> s[crate::drm::blob_pos(s, id, from)].id == id,
        forall|k: int|
            from <= k < crate::drm::blob_pos(s, id, from) ==> (#[trigger] s[k]).id != id,
    decreases s.len() - from,
{
    if from < s.len() && s[from].id != id {
        lemma_blob_pos(s, id, from + 1);
    }
}

/// A blob stands where its id is looked for.
proof fn lemma_blob_at(s: Seq<BlobModel>, next: u32, k: int)
    requires
        handed_out(blob_ids(s), crate::drm::FIRST_BLOB_ID, next),
        0 <= k < s.len(),
    ensures
        crate::drm::blob_pos(s, s[k].id, 0) == k,
{
    reveal(handed_out);
    lemma_blob_pos(s, s[k].id, 0);
    let p = crate::drm::blob_pos(s, s[k].id, 0);
    if p < k {
        assert(blob_ids(s)[p] != blob_ids(s)[k]);
    } else if k < p {
        assert(s[k].id != s[k].id);
    }
}

/// A blob that was just made has an id that none had before, is found under it, and hides no other.
pub proof fn law_made_blob_found(m: DrmModel, made: BlobModel, other: u32)
    requires
        well_named(m),
        m.next_blob_id < u32::MAX,
        made.id == m.next_blob_id,
    ensures
        crate::drm::blob_of(m.blobs, made.id) is None,
        crate::drm::blob_of(m.blobs.push(made), made.id) == Some(made.data),
        other != made.id ==> crate::drm::blob_of(m.blobs.push(made), other) == crate::drm::blob_of(
            m.blobs,
            other,
        ),
{
    reveal(handed_out);
    let s = m.blobs;
    let t = s.push(made);
    assert(blob_ids(t) =~= blob_ids(s).push(m.next_blob_id));
    lemma_push(blob_ids(s), crate::drm::FIRST_BLOB_ID, m.next_blob_id);
    lemma_blob_at(t, (m.next_blob_id + 1) as u32, s.len() as int);
    lemma_blob_pos(s, made.id, 0);
    let p = crate::drm::blob_pos(s, made.id, 0);
    if p < s.len() {
        assert(blob_ids(s)[p] < m.next_blob_id);
    }
    lemma_blob_pos(s, other, 0);
    lemma_blob_pos(t, other, 0);
    let a = crate::drm::blob_pos(s, other, 0);
    let b = crate::drm::blob_pos(t, other, 0);
    if other != made.id {
        if a < s.len() {
            assert(t[a] == s[a]);
            lemma_blob_at(t, (m.next_blob_id + 1) as u32, a);
        } else if b < t.len() {
            assert(b < s.len());
            assert(s[b] == t[b]);
        }
    }
}

/// A blob that was removed is not found any more, and every other still is.
pub proof fn law_removed_blob_gone(m: DrmModel, id: u32, other: u32)
    requires
        well_named(m),
        crate::drm::blob_of(m.blobs, id) is Some,
    ensures
        ({
            let left = m.blobs.remove(crate::drm::blob_pos(m.blobs, id, 0));
            &&& crate::drm::blob_of(left, id) is None
            &&& other != id ==> crate::drm::blob_of(left, other) == crate::drm::blob_of(m.blobs, other)
        }),
{
    reveal(handed_out);
    let s = m.blobs;
    lemma_blob_pos(s, id, 0);
    let k = crate::drm::blob_pos(s, id, 0);
    let t = s.remove(k);
    assert(blob_ids(t) =~= blob_ids(s).remove(k));
    lemma_remove(blob_ids(s), crate::drm::FIRST_BLOB_ID, m.next_blob_id, k);
    lemma_blob_pos(t, id, 0);
    let g = crate::drm::blob_pos(t, id, 0);
    if g < t.len() {
        let j = if g < k { g } else { g + 1 };
        assert(t[g] == s[j]);
        assert(blob_ids(s)[j] == id && blob_ids(s)[k] == id);
    }
    lemma_blob_pos(s, other, 0);
    lemma_blob_pos(t, other, 0);
    let a = crate::drm::blob_pos(s, other, 0);
    let b = crate::drm::blob_pos(t, other, 0);
    if other != id {
        if a < s.len() {
            let j = if a < k { a } else { a - 1 };
            assert(t[j] == s[a]);
            lemma_blob_at(t, m.next_blob_id, j);
        } else if b < t.len() {
            let j = if b < k { b } else { b + 1 };
            assert(s[j] == t[b]);
        }
    }
}

/// The mode in force, where there is one, is described by a blob of the kernel's own, whatever user
/// space destroys.
pub proof fn law_mode_blob_survives(m: DrmModel, id: u32)
    requires
        well_named(m),
        m.atomic.mode_blob_id != 0,
    ensures
        crate::drm::blob_of(m.blobs, m.atomic.mode_blob_id) is Some,
        crate::drm_ioctl::destroy_outcome(m, m.atomic.mode_blob_id)
            == crate::drm::BlobDestroy::KernelOwned,
        crate::drm_ioctl::destroy_outcome(m, id) == crate::drm::BlobDestroy::Destroyed
            ==> crate::drm::blob_of(
            m.blobs.remove(crate::drm::blob_pos(m.blobs, id, 0)),
            m.atomic.mode_blob_id,
        ) == crate::drm::blob_of(m.blobs, m.atomic.mode_blob_id),
{
    reveal(mode_kept);
    let mode = m.atomic.mode_blob_id;
    let k = choose|k: int|
        0 <= k < m.blobs.len() && (#[trigger] m.blobs[k]).id == mode && !m.blobs[k].user_created;
    lemma_blob_at(m.blobs, m.next_blob_id, k);
    if crate::drm_ioctl::destroy_outcome(m, id) == crate::drm::BlobDestroy::Destroyed {
        law_removed_blob_gone(m, id, mode);
    }
}

proof fn lemma_mode_survives_push(bs: Seq<BlobModel>, mode: u32, b: BlobModel)
    requires
        mode_kept(bs, mode),
    ensures
        mode_kept(bs.push(b), mode),
{
    reveal(mode_kept);
    if mode != 0 {
        let k = choose|k: int|
            0 <= k < bs.len() && (#[trigger] bs[k]).id == mode && !bs[k].user_created;
        assert(bs.push(b)[k] == bs[k]);
    }
}

proof fn lemma_mode_survives_remove(bs: Seq<BlobModel>, mode: u32, p: int)
    requires
        mode_kept(bs, mode),
        0 <= p < bs.len(),
        bs[p].user_created,
    ensures
        mode_kept(bs.remove(p), mode),
{
    reveal(mode_kept);
    if mode != 0 {
        let k = choose|k: int|
            0 <= k < bs.len() && (#[trigger] bs[k]).id == mode && !bs[k].user_created;
        if k < p {
            assert(bs.remove(p)[k] == bs[k]);
        } else {
            assert(bs.remove(p)[k - 1] == bs[k]);
        }
    }
}

/// A blob that was created has a name of its own.
pub(crate) proof fn lemma_created_keeps_names(m: DrmModel, data: Seq<u8>, user_created: bool)
    requires
        well_named(m),
        m.next_blob_id < u32::MAX,
    ensures
        well_named(crate::drm::blob_created(m, data, user_created)),
{
    let b = BlobModel { id: m.next_blob_id, user_created, data };
    lemma_push(blob_ids(m.blobs), crate::drm::FIRST_BLOB_ID, m.next_blob_id);
    assert(blob_ids(m.blobs.push(b)) =~= blob_ids(m.blobs).push(m.next_blob_id));
    lemma_mode_survives_push(m.blobs, m.atomic.mode_blob_id, b);
}

/// Destroying a blob keeps the names apart.
pub(crate) proof fn lemma_destroyed_keeps_names(m: DrmModel, id: u32)
    requires
        well_named(m),
    ensures
        well_named(crate::drm::blob_destroyed(m, id)),
{
    lemma_blob_pos(m.blobs, id, 0);
    let p = crate::drm::blob_pos(m.blobs, id, 0);
    if p < m.blobs.len() && m.blobs[p].user_created {
        assert(blob_ids(m.blobs.remove(p)) =~= blob_ids(m.blobs).remove(p));
        lemma_remove(blob_ids(m.blobs), crate::drm::FIRST_BLOB_ID, m.next_blob_id, p);
        lemma_mode_survives_remove(m.blobs, m.atomic.mode_blob_id, p);
    }
}

/// A call that makes or removes a property blob.
pub enum BlobCall {
    Create(Seq<u8>, bool),
    Destroy(u32),
}

/// The state after a call.
pub open spec fn blob_call(m: DrmModel, c: BlobCall) -> DrmModel {
    match c {
        BlobCall::Create(data, user_created) => crate::drm::blob_created(m, data, user_created),
        BlobCall::Destroy(id) => crate::drm::blob_destroyed(m, id),
    }
}

/// The state after calls, one after the other.
pub open spec fn blob_calls(m: DrmModel, cs: Seq<BlobCall>) -> DrmModel
    decreases cs.len(),
{
    if cs.len() == 0 {
        m
    } else {
        blob_call(blob_calls(m, cs.drop_last()), cs.last())
    }
}

/// A blob is found under its id, with what it was created with, after any number of blobs were
/// created and any number of others destroyed. Its id is one that only blobs have, that none had
/// before, and that none of those created later gets.
pub proof fn law_blob_lasts(m: DrmModel, data: Seq<u8>, user_created: bool, calls: Seq<BlobCall>)
    requires
        well_named(m),
        m.next_blob_id + calls.len() < u32::MAX,
        forall|k: int|
            0 <= k < calls.len() ==> #[trigger] calls[k] != BlobCall::Destroy(m.next_blob_id),
    ensures
        ({
            let id = m.next_blob_id;
            let made = crate::drm::blob_created(m, data, user_created);
            &&& id >= crate::drm::FIRST_BLOB_ID
            &&& crate::drm::blob_of(m.blobs, id) is None
            &&& crate::drm::blob_of(blob_calls(made, calls).blobs, id) == Some(data)
            &&& well_named(blob_calls(made, calls))
            &&& id < blob_calls(made, calls).next_blob_id <= id + 1 + calls.len()
            &&& forall|k: int|
                0 <= k < calls.len() && #[trigger] calls[k] is Create ==> id < blob_calls(
                    made,
                    calls.take(k),
                ).next_blob_id
        }),
    decreases calls.len(),
{
    let id = m.next_blob_id;
    let made = crate::drm::blob_created(m, data, user_created);
    assert(id >= crate::drm::FIRST_BLOB_ID) by {
        reveal(handed_out);
    }
    law_made_blob_found(m, BlobModel { id, user_created, data }, id);
    lemma_created_keeps_names(m, data, user_created);
    if calls.len() > 0 {
        let front = calls.drop_last();
        assert forall|k: int| 0 <= k < front.len() implies #[trigger] front[k]
            != BlobCall::Destroy(id) by {
            assert(front[k] == calls[k]);
        }
        law_blob_lasts(m, data, user_created, front);
        let s = blob_calls(made, front);
        match calls.last() {
            BlobCall::Create(d, u) => {
                law_made_blob_found(
                    s,
                    BlobModel { id: s.next_blob_id, user_created: u, data: d },
                    id,
                );
                lemma_created_keeps_names(s, d, u);
            },
            BlobCall::Destroy(other) => {
                assert(calls[calls.len() - 1] == BlobCall::Destroy(other));
                if crate::drm::blob_destroyed(s, other) != s {
                    law_removed_blob_gone(s, other, id);
                }
                lemma_destroyed_keeps_names(s, other);
            },
        }
        assert forall|k: int|
            0 <= k < calls.len() && #[trigger] calls[k] is Create implies id < blob_calls(
            made,
            calls.take(k),
        ).next_blob_id by {
            if k < front.len() {
                assert(front[k] == calls[k]);
                assert(front.take(k) =~= calls.take(k));
            } else {
                assert(calls.take(k) =~= front);
            }
        }
    }
}

/// A framebuffer that was made has a name of its own.
pub(crate) proof fn lemma_fb_made_keeps_names(m: DrmModel, made: DrmFramebuffer)
    requires
        well_named(m),
        m.next_fb_id < u32::MAX,
        made.id == m.next_fb_id,
    ensures
        well_named(
            DrmModel {
                framebuffers: m.framebuffers.push(made),
                next_fb_id: crate::drm::next_u32(made.id),
                ..m
            },
        ),
{
    lemma_push(fb_ids(m.framebuffers), 1, m.next_fb_id);
    assert(fb_ids(m.framebuffers.push(made)) =~= fb_ids(m.framebuffers).push(m.next_fb_id));
}

/// An id that was reserved is not handed out again.
pub(crate) proof fn lemma_reserved_keeps_names(m: DrmModel)
    requires
        well_named(m),
        m.next_handle_id < u32::MAX,
    ensures
        well_named(DrmModel { next_handle_id: crate::drm::next_u32(m.next_handle_id), ..m }),
{
    lemma_skip(handle_ids(m.handles), 1, m.next_handle_id);
}

/// At boot nothing has a name yet.
pub proof fn law_well_named_at_boot(display: Option<crate::drm::DisplayInfo>)
    ensures
        well_named(crate::drm::drm_initial(display)),
{
    reveal(handed_out);
    reveal(mode_kept);
    reveal(image_whole);
}

/// A commit keeps the names apart, and the mode's blob the kernel's.
pub(crate) proof fn lemma_commit_keeps_names(m: DrmModel, u: crate::drm_atomic::AtomicUpdate)
    requires
        well_named(m),
        m.next_blob_id < u32::MAX,
    ensures
        well_named(crate::drm_atomic::applied(m, u)),
{
    reveal(mode_kept);
    let w = crate::drm_atomic::with_mode(m, u.mode_blob);
    let mode = m.atomic.mode_blob_id;
    if let Some(id) = u.mode_blob {
        if id != 0 && crate::drm::blob_of(m.blobs, id) is Some {
            let p = crate::drm::blob_pos(m.blobs, mode, 0);
            lemma_blob_pos(m.blobs, mode, 0);
            if p < m.blobs.len() {
                assert(blob_ids(w.blobs) =~= blob_ids(m.blobs));
                if mode != 0 {
                    let k = choose|k: int|
                        0 <= k < m.blobs.len() && (#[trigger] m.blobs[k]).id == mode
                            && !m.blobs[k].user_created;
                    lemma_blob_at(m.blobs, m.next_blob_id, k);
                    assert(w.blobs[p].id == mode && !w.blobs[p].user_created);
                }
            } else {
                assert(blob_ids(w.blobs) =~= blob_ids(m.blobs).push(m.next_blob_id));
                lemma_push(blob_ids(m.blobs), crate::drm::FIRST_BLOB_ID, m.next_blob_id);
                assert(w.blobs[m.blobs.len() as int].id == w.atomic.mode_blob_id);
            }
        }
    }
}

/// Once a mode was committed it is read back, whatever becomes of the blob it was uploaded in: the
/// kernel's blob holds the same bytes, and still does when that blob is destroyed.
pub proof fn law_mode_readback(m: DrmModel, id: u32)
    requires
        well_named(m),
        m.next_blob_id < u32::MAX,
        id != 0,
        crate::drm::blob_of(m.blobs, id) is Some,
    ensures
        ({
            let w = crate::drm_atomic::with_mode(m, Some(id));
            let mode = w.atomic.mode_blob_id;
            &&& well_named(w)
            &&& mode != 0
            &&& crate::drm::blob_of(w.blobs, mode) == crate::drm::blob_of(m.blobs, id)
            &&& crate::drm_ioctl::destroy_outcome(w, mode) == crate::drm::BlobDestroy::KernelOwned
            &&& crate::drm_ioctl::destroy_outcome(w, id) == crate::drm::BlobDestroy::Destroyed
                ==> crate::drm::blob_of(
                w.blobs.remove(crate::drm::blob_pos(w.blobs, id, 0)),
                mode,
            ) == crate::drm::blob_of(m.blobs, id)
        }),
{
    let u = crate::drm_atomic::AtomicUpdate {
        mode_blob: Some(id),
        ..crate::drm_atomic::no_update()
    };
    let w = crate::drm_atomic::with_mode(m, Some(id));
    lemma_commit_keeps_names(m, u);
    assert(well_named(w));
    let mode = w.atomic.mode_blob_id;
    let p = crate::drm::blob_pos(m.blobs, m.atomic.mode_blob_id, 0);
    lemma_blob_pos(m.blobs, m.atomic.mode_blob_id, 0);
    reveal(handed_out);
    if p < m.blobs.len() {
        assert(blob_ids(m.blobs)[p] == mode);
        lemma_blob_at(w.blobs, w.next_blob_id, p);
    } else {
        lemma_blob_at(w.blobs, w.next_blob_id, m.blobs.len() as int);
    }
    law_mode_blob_survives(w, id);
}

/// Showing a frame changes no name.
pub(crate) proof fn lemma_presented_keeps_names(
    m: DrmModel,
    active_vt: usize,
    fb_id: u32,
    rect: Option<crate::drm_kms::Area>,
    hw_flip: bool,
)
    requires
        well_named(m),
    ensures
        well_named(crate::drm_kms::presented(m, active_vt, fb_id, rect, hw_flip)),
{
}

/// An atomic request keeps the names apart.
proof fn lemma_atomic_keeps_names(
    m: DrmModel,
    q: crate::drm_ioctl::AtomicRequest,
    active_vt: usize,
    hw_flip: bool,
    now_ns: u64,
    r: Result<crate::drm_atomic::Committed, FsError>,
    m2: DrmModel,
)
    requires
        well_named(m),
        m.next_blob_id < u32::MAX,
        crate::drm_ioctl::atomic_answered(m, q, active_vt, hw_flip, now_ns, r, m2),
    ensures
        well_named(m2),
{
    match crate::drm_ioctl::staged_objs(m, q, q.count_objs as int) {
        Ok(u) => {
            lemma_commit_keeps_names(m, u);
            let a = crate::drm_atomic::applied(m, u);
            if let Some(id) = crate::drm_atomic::frame_of(u) {
                lemma_presented_keeps_names(a, active_vt, id, None, hw_flip);
            }
        },
        Err(_) => {},
    }
}

/// Removing a framebuffer keeps the names apart.
pub(crate) proof fn lemma_fb_removed_keeps_names(m: DrmModel, id: u32)
    requires
        well_named(m),
    ensures
        well_named(crate::drm_ioctl::fb_removed(m, id)),
{
    lemma_fb_pos(m.framebuffers, id, 0);
    let k = crate::drm::fb_pos(m.framebuffers, id, 0);
    if k < m.framebuffers.len() {
        assert(fb_ids(m.framebuffers.remove(k)) =~= fb_ids(m.framebuffers).remove(k));
        lemma_remove(fb_ids(m.framebuffers), 1, m.next_fb_id, k);
    }
}

/// Closing a buffer keeps the names apart.
pub(crate) proof fn lemma_closed_keeps_names(m: DrmModel, id: u32)
    requires
        well_named(m),
    ensures
        well_named(crate::drm_ioctl::closed(m, id)),
{
    lemma_handle_pos(m.handles, id, 0);
    let k = crate::drm::handle_pos(m.handles, id, 0);
    if k < m.handles.len() {
        assert(handle_ids(m.handles.remove(k)) =~= handle_ids(m.handles).remove(k));
        lemma_remove(handle_ids(m.handles), 1, m.next_handle_id, k);
    }
}

/// Making a dumb buffer keeps the names apart.
proof fn lemma_dumb_keeps_names(
    m: DrmModel,
    width: u32,
    height: u32,
    bpp: u32,
    backing: Option<u64>,
    accepted: bool,
    pid: u64,
)
    requires
        well_named(m),
        m.next_handle_id < u32::MAX,
    ensures
        well_named(
            crate::drm_scheme::dumb_made(m, width, height, bpp, backing, accepted, pid).0,
        ),
{
    let m2 = crate::drm_scheme::dumb_made(m, width, height, bpp, backing, accepted, pid).0;
    lemma_skip(handle_ids(m.handles), 1, m.next_handle_id);
    lemma_push(handle_ids(m.handles), 1, m.next_handle_id);
    if m2.handles.len() > m.handles.len() {
        assert(handle_ids(m2.handles) =~= handle_ids(m.handles).push(m.next_handle_id));
    }
}

/// Every request to the card keeps the names apart, the mode's blob the kernel's and the cursor's
/// image whole, as long as ids are left.
#[verifier::rlimit(40)]
pub proof fn law_requests_keep_names(
    m: DrmModel,
    c: DrmContext,
    q: DrmRequest,
    r: Result<DrmReply, FsError>,
    m2: DrmModel,
)
    requires
        well_named(m),
        ids_left(m),
        crate::drm_ioctl::filled_in(m, q),
        crate::drm_ioctl::answered(m, c, q, r, m2),
    ensures
        well_named(m2),
{
    match q {
        DrmRequest::GemClose(id) => {
            lemma_closed_keeps_names(m, id);
        },
        DrmRequest::DestroyDumb(id) => {
            lemma_closed_keeps_names(m, id);
        },
        DrmRequest::SetCrtc { fb_id, .. } => {
            lemma_presented_keeps_names(m, c.active_vt, fb_id, None, c.hw_flip);
        },
        DrmRequest::SetPlane { fb_id, .. } => {
            lemma_presented_keeps_names(m, c.active_vt, fb_id, None, c.hw_flip);
        },
        DrmRequest::CreateDumb { width, height, bpp } => {
            lemma_dumb_keeps_names(m, width, height, bpp, c.backing, c.accepted, c.pid);
        },
        DrmRequest::AddFb { .. } => {
            if m2.framebuffers.len() > m.framebuffers.len() {
                lemma_fb_made_keeps_names(m, m2.framebuffers.last());
                assert(m2.framebuffers =~= m.framebuffers.push(m2.framebuffers.last()));
            }
        },
        DrmRequest::RmFb(id) => {
            lemma_fb_removed_keeps_names(m, id);
        },
        DrmRequest::CloseFb(id) => {
            lemma_fb_removed_keeps_names(m, id);
        },
        DrmRequest::PageFlip { fb_id, .. } => {
            lemma_presented_keeps_names(m, c.active_vt, fb_id, None, c.hw_flip);
        },
        DrmRequest::Cursor { .. } => {
            reveal(image_whole);
        },
        DrmRequest::DirtyFb { fb_id, num_clips, clips_ptr, clips } => {
            lemma_presented_keeps_names(
                m,
                c.active_vt,
                fb_id,
                crate::drm_scheme::dirty_area(num_clips, clips_ptr, clips@),
                c.hw_flip,
            );
        },
        DrmRequest::Atomic(aq) => {
            let x = choose|x: Result<crate::drm_atomic::Committed, FsError>| #[trigger]
                crate::drm_ioctl::atomic_answered(
                    m,
                    aq,
                    c.active_vt,
                    c.hw_flip,
                    c.now_ns,
                    x,
                    m2,
                ) && match x {
                    Ok(k) => r matches Ok(DrmReply::Committed(t)) && t == k,
                    Err(e) => r matches Err(f) && f == e,
                };
            lemma_atomic_keeps_names(m, aq, c.active_vt, c.hw_flip, c.now_ns, x, m2);
        },
        DrmRequest::CreatePropBlob { ptr, length, data } => {
            if m2.blobs.len() > m.blobs.len() {
                let b = m2.blobs.last();
                lemma_created_keeps_names(m, b.data, b.user_created);
                assert(m2.blobs =~= m.blobs.push(b));
            }
        },
        DrmRequest::DestroyPropBlob(id) => {
            lemma_destroyed_keeps_names(m, id);
        },
        _ => {},
    }
}

/// A buffer over shared memory gets a name of its own.
pub proof fn law_import_keeps_names(m: DrmModel, made: GemEntry)
    requires
        well_named(m),
        m.next_handle_id < u32::MAX,
        made.handle.id == m.next_handle_id,
    ensures
        well_named(
            DrmModel {
                next_handle_id: crate::drm::next_u32(made.handle.id),
                handles: m.handles.push(made),
                ..m
            },
        ),
{
    lemma_push(handle_ids(m.handles), 1, m.next_handle_id);
    assert(handle_ids(m.handles.push(made)) =~= handle_ids(m.handles).push(m.next_handle_id));
}

proof fn lemma_left_handles(hs: Seq<GemEntry>, pid: u64, next: u32)
    requires
        handed_out(handle_ids(hs), 1, next),
    ensures
        handed_out(handle_ids(crate::drm::not_owned_by(hs, pid)), 1, next),
        forall|i: int|
            0 <= i < crate::drm::not_owned_by(hs, pid).len() ==> hs.contains(
                #[trigger] crate::drm::not_owned_by(hs, pid)[i],
            ),
    decreases hs.len(),
{
    if hs.len() > 0 {
        let front = hs.drop_last();
        let last = hs.last();
        assert(handle_ids(front) =~= handle_ids(hs).drop_last());
        lemma_drop_last(handle_ids(hs), 1, next);
        lemma_left_handles(front, pid, next);
        let n = crate::drm::not_owned_by(front, pid);
        let all = crate::drm::not_owned_by(hs, pid);
        assert forall|i: int| 0 <= i < all.len() implies hs.contains(#[trigger] all[i]) by {
            if i < n.len() {
                assert(all[i] == n[i]);
                let j = choose|j: int| 0 <= j < front.len() && front[j] == n[i];
                assert(hs[j] == all[i]);
            } else {
                assert(hs[hs.len() - 1] == all[i]);
            }
        }
        if last.owner != pid {
            assert(handle_ids(n.push(last)) =~= handle_ids(n).push(last.handle.id));
            assert(1 <= last.handle.id < next && !handle_ids(n).contains(last.handle.id)) by {
                reveal(handed_out);
                assert(handle_ids(hs)[hs.len() - 1] == last.handle.id);
                if handle_ids(n).contains(last.handle.id) {
                    let i = choose|i: int|
                        0 <= i < n.len() && handle_ids(n)[i] == last.handle.id;
                    let j = choose|j: int| 0 <= j < front.len() && front[j] == n[i];
                    assert(handle_ids(hs)[j] == handle_ids(hs)[hs.len() - 1]);
                }
            }
            lemma_push_back(handle_ids(n), 1, next, last.handle.id);
        }
    } else {
        assert(crate::drm::not_owned_by(hs, pid) =~= hs);
    }
}

proof fn lemma_left_fbs(fbs: Seq<DrmFramebuffer>, doomed: Seq<crate::drm::GemHandle>, next: u32)
    requires
        handed_out(fb_ids(fbs), 1, next),
    ensures
        handed_out(fb_ids(crate::drm::fbs_off(fbs, doomed)), 1, next),
        forall|i: int|
            0 <= i < crate::drm::fbs_off(fbs, doomed).len() ==> fbs.contains(
                #[trigger] crate::drm::fbs_off(fbs, doomed)[i],
            ),
    decreases fbs.len(),
{
    if fbs.len() > 0 {
        let front = fbs.drop_last();
        let last = fbs.last();
        assert(fb_ids(front) =~= fb_ids(fbs).drop_last());
        lemma_drop_last(fb_ids(fbs), 1, next);
        lemma_left_fbs(front, doomed, next);
        let n = crate::drm::fbs_off(front, doomed);
        let all = crate::drm::fbs_off(fbs, doomed);
        assert forall|i: int| 0 <= i < all.len() implies fbs.contains(#[trigger] all[i]) by {
            if i < n.len() {
                assert(all[i] == n[i]);
                let j = choose|j: int| 0 <= j < front.len() && front[j] == n[i];
                assert(fbs[j] == all[i]);
            } else {
                assert(fbs[fbs.len() - 1] == all[i]);
            }
        }
        if !crate::drm::names(doomed, last.gem_handle_id) {
            assert(fb_ids(n.push(last)) =~= fb_ids(n).push(last.id));
            assert(1 <= last.id < next && !fb_ids(n).contains(last.id)) by {
                reveal(handed_out);
                assert(fb_ids(fbs)[fbs.len() - 1] == last.id);
                if fb_ids(n).contains(last.id) {
                    let i = choose|i: int| 0 <= i < n.len() && fb_ids(n)[i] == last.id;
                    let j = choose|j: int| 0 <= j < front.len() && front[j] == n[i];
                    assert(fb_ids(fbs)[j] == fb_ids(fbs)[fbs.len() - 1]);
                }
            }
            lemma_push_back(fb_ids(n), 1, next, last.id);
        }
    } else {
        assert(crate::drm::fbs_off(fbs, doomed) =~= fbs);
    }
}

/// The exit of a process keeps the names apart.
pub proof fn law_release_keeps_names(m: DrmModel, pid: u64)
    requires
        well_named(m),
    ensures
        well_named(crate::drm::released(m, pid)),
{
    lemma_left_handles(m.handles, pid, m.next_handle_id);
    lemma_left_fbs(m.framebuffers, crate::drm::owned_by(m.handles, pid), m.next_fb_id);
}

} // verus!
