//! The nodes of the card: the primary node and the render node.
use vstd::prelude::*;
use crate::drm::{DrmModel, DrmState};
use crate::drm_ioctl::{io_control, DrmContext, DrmReply, DrmRequest, SyncCommand};
use crate::drm_scheme::{permit, DrmCall};
use crate::error::FsError;
use crate::vfs::{node_metadata, FileType, Metadata, PollStatus};

verus! {

/// The major number of the card.
pub const DRM_MAJOR: usize = 0xe2;

/// Whether a request is one of those that a command makes.
pub open spec fn belongs(q: DrmRequest, call: DrmCall) -> bool {
    match q {
        DrmRequest::Version(_) => call == DrmCall::Version,
        DrmRequest::GetUnique { .. } => call == DrmCall::GetUnique,
        DrmRequest::GetMagic => call == DrmCall::GetMagic,
        DrmRequest::AuthMagic => call == DrmCall::AuthMagic,
        DrmRequest::GetCap(_) => call == DrmCall::GetCap,
        DrmRequest::SetClientCap { .. } => call == DrmCall::SetClientCap,
        DrmRequest::GemClose(_) => call == DrmCall::GemClose,
        DrmRequest::SetMaster => call == DrmCall::SetMaster,
        DrmRequest::DropMaster => call == DrmCall::DropMaster,
        DrmRequest::SetVersion { .. } => call == DrmCall::SetVersion,
        DrmRequest::GetResources(_) => call == DrmCall::GetResources,
        DrmRequest::GetCrtc(_) => call == DrmCall::GetCrtc,
        DrmRequest::SetCrtc { .. } => call == DrmCall::SetCrtc,
        DrmRequest::GetEncoder => call == DrmCall::GetEncoder,
        DrmRequest::GetConnector(_) => call == DrmCall::GetConnector,
        DrmRequest::CreateDumb { .. } => call == DrmCall::CreateDumb,
        DrmRequest::MapDumb(_) => call == DrmCall::MapDumb,
        DrmRequest::DestroyDumb(_) => call == DrmCall::DestroyDumb,
        DrmRequest::AddFb { .. } => call == DrmCall::AddFb || call == DrmCall::AddFb2,
        DrmRequest::RmFb(_) => call == DrmCall::RmFb,
        DrmRequest::CloseFb(_) => call == DrmCall::CloseFb,
        DrmRequest::PageFlip { .. } => call == DrmCall::PageFlip,
        DrmRequest::GetPlaneResources { .. } => call == DrmCall::GetPlaneResources,
        DrmRequest::GetPlane { .. } => call == DrmCall::GetPlane,
        DrmRequest::SetPlane { .. } => call == DrmCall::SetPlane,
        DrmRequest::ObjGetProperties { .. } => call == DrmCall::ObjGetProperties,
        DrmRequest::SetProperty => call == DrmCall::SetProperty || call == DrmCall::ObjSetProperty,
        DrmRequest::GetProperty { .. } => call == DrmCall::GetProperty,
        DrmRequest::GetPropBlob { .. } => call == DrmCall::GetPropBlob,
        DrmRequest::Cursor { .. } => call == DrmCall::Cursor,
        DrmRequest::WaitVblank { .. } => call == DrmCall::WaitVblank,
        DrmRequest::GetFb(_) => call == DrmCall::GetFb || call == DrmCall::GetFb2,
        DrmRequest::DirtyFb { .. } => call == DrmCall::DirtyFb,
        DrmRequest::Gamma => call == DrmCall::Gamma,
        DrmRequest::ListLessees => call == DrmCall::ListLessees,
        DrmRequest::Atomic(_) => call == DrmCall::Atomic,
        DrmRequest::CreatePropBlob { .. } => call == DrmCall::CreatePropBlob,
        DrmRequest::DestroyPropBlob(_) => call == DrmCall::DestroyPropBlob,
        DrmRequest::Sync(sq) => match sq.command {
            SyncCommand::Create { .. } => call == DrmCall::SyncobjCreate,
            SyncCommand::Destroy(_) => call == DrmCall::SyncobjDestroy,
            SyncCommand::Reset => call == DrmCall::SyncobjReset,
            SyncCommand::Signal => call == DrmCall::SyncobjSignal,
            SyncCommand::TimelineSignal => call == DrmCall::SyncobjTimelineSignal,
            SyncCommand::Query => call == DrmCall::SyncobjQuery,
            SyncCommand::Wait { timeline, .. } => call == if timeline {
                DrmCall::SyncobjTimelineWait
            } else {
                DrmCall::SyncobjWait
            },
        },
        DrmRequest::Driver => call == DrmCall::Driver,
    }
}

/// A node of the card.
#[derive(Clone, Copy, PartialEq, Eq, Structural, Debug)]
pub struct DrmDev {
    pub inode_id: usize,
    pub minor: u32,
}

impl DrmDev {
    pub fn new(minor: u32, inode_id: usize) -> (d: Self)
        ensures
            d == (DrmDev { inode_id, minor }),
    {
        DrmDev { inode_id, minor }
    }

    /// The memory that a mapping shows, by its place and its length.
    pub fn get_vmo(
        &self,
        st: &DrmState,
        offset: usize,
        len: usize,
        driver_gem: Option<(u64, u64)>,
    ) -> (r: Result<(u64, u64), FsError>)
        ensures
            r == crate::drm_scheme::mapped(st@, offset, len, driver_gem),
    {
        crate::drm_scheme::get_vmo(st, offset, len, driver_gem)
    }

    /// Takes one event, or has to be tried again later.
    pub fn read_at(&self, st: &mut DrmState, buf: &mut [u8]) -> (r: Result<usize, FsError>)
        ensures
            final(buf)@.len() == old(buf)@.len(),
            if old(st)@.events.len() > 0 && old(buf)@.len() >= 32 {
                &&& r == Ok::<usize, FsError>(32)
                &&& final(buf)@ == crate::bytes::splice(
                    old(buf)@,
                    0,
                    crate::drm::event_bytes(old(st)@.events[0]),
                )
                &&& final(st)@ == (DrmModel {
                    events: old(st)@.events.drop_first(),
                    readable: old(st)@.events.len() > 1 && old(st)@.readable,
                    ..old(st)@
                })
            } else {
                r == Err::<usize, FsError>(FsError::Again) && final(buf)@ == old(buf)@ && final(st)@
                    == old(st)@
            },
    {
        match crate::drm::read_event(st, buf) {
            Some(n) => Ok(n),
            None => Err(FsError::Again),
        }
    }

    /// Writing does nothing.
    pub fn write_at(&self, buf: &[u8]) -> (n: usize)
        ensures
            n == buf@.len(),
    {
        buf.len()
    }

    /// Readable while events wait, always writable.
    pub fn poll(&self, st: &DrmState) -> (s: PollStatus)
        ensures
            s == (PollStatus { read: st@.events.len() > 0, write: true, error: false }),
    {
        PollStatus { read: crate::drm::has_events(st), write: true, error: false }
    }

    /// Starts waiting for events.
    pub fn async_poll(&self) -> (w: DrmEventWait)
        ensures
            w.sub_id is None,
    {
        DrmEventWait { sub_id: None }
    }

    /// Metadata of the node, whose number is made of its major and minor number.
    pub fn metadata<F: Fn(usize, usize) -> usize>(&self, make_rdev: F) -> (m: Metadata)
        requires
            make_rdev.requires((DRM_MAJOR, self.minor as usize)),
        ensures
            make_rdev.ensures((DRM_MAJOR, self.minor as usize), m.rdev),
            m == crate::vfs::bare_node(1, self.inode_id, FileType::CharDevice, 0o660, m.rdev),
    {
        node_metadata(1, self.inode_id, FileType::CharDevice, 0o660, make_rdev(DRM_MAJOR, self.minor as usize))
    }

    /// Answers a request. `q` is what the command `cmd` makes of its argument.
    pub fn io_control(&self, st: &mut DrmState, c: &DrmContext, cmd: u32, q: DrmRequest) -> (r:
        Result<DrmReply, FsError>)
        requires
            belongs(q, crate::drm_scheme::call_of(cmd)),
            crate::drm_ioctl::filled_in(old(st)@, q),
        ensures
            if self.minor >= 128 && !crate::drm_scheme::render_allows(cmd) {
                r matches Err(e) && e == FsError::NoPermission && final(st)@ == old(st)@
            } else {
                crate::drm_ioctl::answered(old(st)@, *c, q, r, final(st)@)
            },
    {
        match permit(self.minor, cmd) {
            Err(e) => Err(e),
            Ok(_) => io_control(st, c, q),
        }
    }
}

/// What a wait for events of the card does next.
#[derive(Clone, Copy, PartialEq, Eq, Debug)]
pub enum DrmWaitStep {
    /// There is an event, or polling failed; a subscription that is left is to be given up.
    Ready(Result<PollStatus, FsError>, Option<u64>),
    /// Subscribe, then look again.
    Subscribe,
    /// Sleep until the subscription fires.
    Parked,
}

/// What a wait does that holds a subscription or none, and what it holds afterwards.
pub open spec fn wait_goes(
    status: Result<PollStatus, FsError>,
    sub_id: Option<u64>,
) -> (DrmWaitStep, Option<u64>) {
    if status matches Ok(p) && !p.read {
        (
            if sub_id is None {
                DrmWaitStep::Subscribe
            } else {
                DrmWaitStep::Parked
            },
            sub_id,
        )
    } else {
        (DrmWaitStep::Ready(status, sub_id), None)
    }
}

/// A wait for events of the card.
#[derive(Clone, Copy, PartialEq, Eq, Structural, Debug)]
pub struct DrmEventWait {
    pub sub_id: Option<u64>,
}

impl DrmEventWait {
    /// Looks once at what polling the node gave.
    pub fn poll(&mut self, status: Result<PollStatus, FsError>) -> (s: DrmWaitStep)
        ensures
            s == wait_goes(status, old(self).sub_id).0,
            final(self).sub_id == wait_goes(status, old(self).sub_id).1,
    {
        let wait: bool = match status {
            Ok(p) => !p.read,
            Err(_) => false,
        };
        if wait {
            return match self.sub_id {
                None => DrmWaitStep::Subscribe,
                Some(_) => DrmWaitStep::Parked,
            };
        }
        let left = self.sub_id;
        self.sub_id = None;
        DrmWaitStep::Ready(status, left)
    }

    /// Remembers a subscription.
    pub fn subscribed(&mut self, id: Option<u64>)
        ensures
            final(self).sub_id == id,
    {
        self.sub_id = id;
    }

    /// Ends the wait: a subscription that is left is to be given up.
    pub fn cancel(&mut self) -> (id: Option<u64>)
        ensures
            id == old(self).sub_id,
            final(self).sub_id is None,
    {
        let id = self.sub_id;
        self.sub_id = None;
        id
    }
}

/// A render node changes neither the mode nor the buffers of the card, nor who is its master.
pub proof fn law_render_node_keeps_screen(cmd: u32, q: DrmRequest)
    requires
        belongs(q, crate::drm_scheme::call_of(cmd)),
        q is SetCrtc || q is PageFlip || q is SetPlane || q is CreateDumb || q is DestroyDumb
            || q is Atomic || q is SetMaster || q is DropMaster || q is AddFb,
    ensures
        !crate::drm_scheme::render_allows(cmd),
{
    crate::drm_scheme::law_render_nodes_cannot_modeset(cmd);
}

/// A wait goes on exactly while polling succeeds and finds nothing to read. It subscribes where it
/// has no subscription and sleeps where it has one. When it ends it tells what polling gave, and
/// gives up the subscription that it had: none is kept and none is lost.
pub proof fn law_card_wait(status: Result<PollStatus, FsError>, sub_id: Option<u64>)
    ensures
        wait_goes(status, sub_id).0 is Ready <==> status is Err || status->Ok_0.read,
        wait_goes(status, sub_id).0 is Subscribe <==> status is Ok && !status->Ok_0.read && sub_id
            is None,
        wait_goes(status, sub_id).0 is Parked <==> status is Ok && !status->Ok_0.read && sub_id
            is Some,
        wait_goes(status, sub_id).0 matches DrmWaitStep::Ready(told, given_up) ==> told == status
            && given_up == sub_id && wait_goes(status, sub_id).1 is None,
        !(wait_goes(status, sub_id).0 is Ready) ==> wait_goes(status, sub_id).1 == sub_id,
{
}

} // verus!
