//! The character devices of mice: one per mouse, and one for all of them.
use vstd::prelude::*;
use std::collections::VecDeque;
use crate::error::FsError;
use crate::vfs::{node_metadata, FileType, Metadata, PollStatus};

verus! {

/// How many mice get a device of their own.
pub const MAX_MOUSE_DEVICES: usize = 30;

/// The size of a packet.
pub const PACKET_SIZE: usize = 3;

/// How many packets are kept for a reader.
pub const BUF_CAPACITY: usize = 32;

/// The minor number of the node for all mice.
pub const MICE_MINOR: usize = 63;

/// The minor number of the first mouse.
pub const MOUSE_DEV_MINOR_BASE: usize = 0x20;

/// What a mouse reports: its movement, its buttons, and both as a packet.
#[derive(Clone, Copy, Debug)]
pub struct MouseState {
    pub dx: i32,
    pub dy: i32,
    pub dz: i32,
    pub buttons: u8,
    pub packet: [u8; 3],
}

/// A mouse device: the packets that no reader has taken yet, the oldest first, and how much of the
/// oldest was taken.
pub struct MiceDev {
    pub id: usize,
    pub inode_id: usize,
    pub packet_offset: usize,
    pub last_buttons: u8,
    pub buf: VecDeque<MouseState>,
}

/// The bytes that a reader has still to get.
pub open spec fn unread(buf: Seq<MouseState>, offset: int) -> Seq<u8> {
    Seq::new(
        (3 * buf.len() - offset) as nat,
        |i: int| buf[(i + offset) / 3].packet@[(i + offset) % 3],
    )
}

/// No more of the oldest packet was taken than there is, and nothing of none.
pub open spec fn mice_inv(buf: Seq<MouseState>, offset: int) -> bool {
    0 <= offset < 3 && (buf.len() == 0 ==> offset == 0)
}

/// Whether a report says nothing new.
pub open spec fn idle(p: MouseState, last_buttons: u8) -> bool {
    p.dx == 0 && p.dy == 0 && p.dz == 0 && p.buttons == last_buttons
}

/// A read of packets into `bytes` answers `r`: `before` and `after` are the bytes left to read, and
/// `none` says whether no packet waits.
pub open spec fn packets_read(
    before: Seq<u8>,
    none: bool,
    bytes: Seq<u8>,
    r: Result<usize, FsError>,
    after: Seq<u8>,
    bytes2: Seq<u8>,
) -> bool {
    if none {
        r == Err::<usize, FsError>(FsError::Again) && bytes2 == bytes && after == before
    } else {
        let n = read_len(before.len() as int, bytes.len() as int);
        &&& r == Ok::<usize, FsError>(n as usize)
        &&& bytes2 == before.take(n) + bytes.skip(n)
        &&& after == before.skip(n)
    }
}

impl MiceDev {
    pub fn new(id: usize, inode_id: usize) -> (d: Self)
        ensures
            d.id == id,
            d.inode_id == inode_id,
            d.packet_offset == 0,
            d.last_buttons == 0,
            d.buf@ == Seq::<MouseState>::empty(),
            mice_inv(d.buf@, d.packet_offset as int),
    {
        MiceDev { id, inode_id, packet_offset: 0, last_buttons: 0, buf: VecDeque::with_capacity(BUF_CAPACITY) }
    }

    /// Hands out the oldest bytes, at most a packet's worth.
    pub fn read_at(&mut self, buf: &mut [u8]) -> (r: Result<usize, FsError>)
        requires
            mice_inv(old(self).buf@, old(self).packet_offset as int),
        ensures
            mice_inv(final(self).buf@, final(self).packet_offset as int),
            final(self).id == old(self).id,
            final(self).inode_id == old(self).inode_id,
            final(self).last_buttons == old(self).last_buttons,
            final(buf)@.len() == old(buf)@.len(),
            packets_read(
                unread(old(self).buf@, old(self).packet_offset as int),
                old(self).buf@.len() == 0,
                old(buf)@,
                r,
                unread(final(self).buf@, final(self).packet_offset as int),
                final(buf)@,
            ),
    {
        if self.buf.len() == 0 {
            return Err(FsError::Again);
        }
        let ghost before = unread(self.buf@, self.packet_offset as int);
        let ghost bytes = buf@;
        let len: usize = if buf.len() < PACKET_SIZE {
            buf.len()
        } else {
            PACKET_SIZE
        };
        let mut read: usize = 0;
        proof {
            assert(before.skip(0) =~= before);
            assert(buf@ =~= before.take(0) + bytes.skip(0));
        }
        while read < len && self.buf.len() > 0
            invariant
                self.id == old(self).id,
                self.inode_id == old(self).inode_id,
                self.last_buttons == old(self).last_buttons,
                mice_inv(self.buf@, self.packet_offset as int),
                bytes == old(buf)@,
                buf@.len() == bytes.len(),
                read <= len <= 3,
                len <= bytes.len(),
                read <= before.len(),
                unread(self.buf@, self.packet_offset as int) == before.skip(read as int),
                buf@ == before.take(read as int) + bytes.skip(read as int),
            decreases len - read,
        {
            let ghost held = self.buf@;
            let ghost at = self.packet_offset as int;
            let ghost left = unread(held, at);
            let p = self.buf[0];
            buf[read] = p.packet[self.packet_offset];
            proof {
                assert(left.len() > 0);
                assert(left[0] == held[0].packet@[at]);
                assert(before.skip(read as int)[0] == before[read as int]);
            }
            read = read + 1;
            self.packet_offset = self.packet_offset + 1;
            if self.packet_offset == PACKET_SIZE {
                self.packet_offset = 0;
                let _ = self.buf.pop_front();
            }
            proof {
                assert(before.skip(read as int) =~= left.skip(1));
                assert(unread(self.buf@, self.packet_offset as int) =~= left.skip(1));
                assert(buf@ =~= before.take(read as int) + bytes.skip(read as int));
            }
        }
        proof {
            if self.buf@.len() == 0 {
                assert(unread(self.buf@, 0).len() == 0);
                assert(before.skip(read as int).len() == 0);
            } else {
                assert(read == len);
            }
        }
        Ok(read)
    }

    /// Keeps a report, unless it says nothing new. The oldest packet gives way where there is no
    /// room, whatever was taken of it.
    pub fn handle_mouse_packet(&mut self, p: &MouseState)
        requires
            mice_inv(old(self).buf@, old(self).packet_offset as int),
            old(self).buf@.len() <= BUF_CAPACITY,
        ensures
            mice_inv(final(self).buf@, final(self).packet_offset as int),
            final(self).buf@.len() <= BUF_CAPACITY,
            final(self).id == old(self).id,
            final(self).inode_id == old(self).inode_id,
            (final(self).buf@, final(self).packet_offset as int, final(self).last_buttons)
                == after_packet(
                old(self).buf@,
                old(self).packet_offset as int,
                old(self).last_buttons,
                *p,
            ),
    {
        if p.dx == 0 && p.dy == 0 && p.dz == 0 && p.buttons == self.last_buttons {
            return;
        }
        self.last_buttons = p.buttons;
        if self.buf.len() >= BUF_CAPACITY {
            self.packet_offset = 0;
            let _ = self.buf.pop_front();
            assert(self.buf@ =~= old(self).buf@.skip(1));
        }
        self.buf.push_back(*p);
    }

    pub fn write_at(&self, buf: &[u8]) -> (r: Result<usize, FsError>)
        ensures
            r == Err::<usize, FsError>(FsError::NotSupported),
    {
        Err(FsError::NotSupported)
    }

    fn can_read(&self) -> (r: bool)
        ensures
            r == (self.buf@.len() > 0),
    {
        self.buf.len() > 0
    }

    pub fn poll(&self) -> (s: PollStatus)
        ensures
            s == (PollStatus { read: self.buf@.len() > 0, write: false, error: false }),
    {
        PollStatus { read: self.can_read(), write: false, error: false }
    }

    /// The minor number of the node.
    pub fn minor(&self) -> (n: usize)
        requires
            self.id <= usize::MAX - MOUSE_DEV_MINOR_BASE,
        ensures
            n == 0x20 + self.id,
    {
        MOUSE_DEV_MINOR_BASE + self.id
    }

    /// Metadata of the node, whose number is made of its major and minor number.
    pub fn metadata<F: Fn(usize, usize) -> usize>(&self, make_rdev: F) -> (m: Metadata)
        requires
            self.id <= usize::MAX - MOUSE_DEV_MINOR_BASE,
            make_rdev.requires((crate::input_event::INPUT_MAJOR, (MOUSE_DEV_MINOR_BASE + self.id) as usize)),
        ensures
            make_rdev.ensures((crate::input_event::INPUT_MAJOR, (MOUSE_DEV_MINOR_BASE + self.id) as usize), m.rdev),
            m == crate::vfs::bare_node(1, self.inode_id, FileType::CharDevice, 0o660, m.rdev),
    {
        node_metadata(1, self.inode_id, FileType::CharDevice, 0o660, make_rdev(crate::input_event::INPUT_MAJOR, self.minor()))
    }

    /// Which devices there are for input devices of which these are mice: one for each of the
    /// first mice, and one for all of those where there is any.
    pub fn from_input_devices(compatible: &[bool]) -> (v: Vec<MiceNode>)
        ensures
            mice_nodes(v@) == nodes_for(mice_among(compatible@)),
    {
        let mice: Vec<usize> = select(compatible);
        let ghost m = mice_among(compatible@);
        let mut v: Vec<MiceNode> = Vec::new();
        let mut i: usize = 0;
        assert(mice_nodes(v@) =~= singles(m, 0));
        while i < mice.len()
            invariant
                i <= mice@.len(),
                as_ints(mice@) == m,
                mice@.len() == m.len(),
                mice_nodes(v@) == singles(m, i as int),
            decreases mice@.len() - i,
        {
            let mut one: Vec<usize> = Vec::new();
            one.push(mice[i]);
            let node = MiceNode { name: Some(i), id: i, mice: one };
            assert(as_ints(mice@)[i as int] == mice@[i as int]);
            assert(as_ints(one@) =~= seq![m[i as int]]);
            let ghost held = v@;
            v.push(node);
            proof {
                assert(mice_nodes(v@) =~= mice_nodes(held).push(mice_nodes(v@)[i as int]));
                assert(singles(m, i + 1) =~= singles(m, i as int).push(singles(m, i + 1)[i as int]));
            }
            i = i + 1;
        }
        if mice.len() > 0 {
            v.push(MiceNode { name: None, id: MAX_MOUSE_DEVICES + 1, mice });
        }
        assert(mice_nodes(v@) =~= nodes_for(m));
        v
    }
}

/// How many bytes a reader gets.
pub open spec fn read_len(left: int, room: int) -> int {
    let most = if room < 3 {
        room
    } else {
        3
    };
    if left < most {
        left
    } else {
        most
    }
}

/// A device to be made: its number, unless it is the one for all mice, and its mice.
pub struct MiceNode {
    pub name: Option<usize>,
    pub id: usize,
    pub mice: Vec<usize>,
}

/// A device to be made, mathematically.
#[verifier::ext_equal]
pub struct MiceNodeModel {
    pub name: Option<int>,
    pub id: int,
    pub mice: Seq<int>,
}

/// Numbers, mathematically.
pub open spec fn as_ints(v: Seq<usize>) -> Seq<int> {
    Seq::new(v.len(), |i: int| v[i] as int)
}

/// Devices to be made, mathematically.
pub open spec fn mice_nodes(v: Seq<MiceNode>) -> Seq<MiceNodeModel> {
    Seq::new(
        v.len(),
        |i: int|
            MiceNodeModel {
                name: match v[i].name {
                    Some(n) => Some(n as int),
                    None => None,
                },
                id: v[i].id as int,
                mice: as_ints(v[i].mice@),
            },
    )
}

/// The positions of the first mice among input devices.
pub open spec fn mice_among(compatible: Seq<bool>) -> Seq<int>
    decreases compatible.len(),
{
    if compatible.len() == 0 {
        Seq::empty()
    } else {
        let before = mice_among(compatible.drop_last());
        if compatible.last() && before.len() < MAX_MOUSE_DEVICES {
            before.push(compatible.len() - 1)
        } else {
            before
        }
    }
}

/// One device for each of the first `n` mice.
pub open spec fn singles(mice: Seq<int>, n: int) -> Seq<MiceNodeModel> {
    Seq::new(
        n as nat,
        |i: int| MiceNodeModel { name: Some(i), id: i, mice: seq![mice[i]] },
    )
}

/// The devices for mice.
pub open spec fn nodes_for(mice: Seq<int>) -> Seq<MiceNodeModel> {
    if mice.len() == 0 {
        Seq::empty()
    } else {
        singles(mice, mice.len() as int).push(
            MiceNodeModel { name: None, id: MAX_MOUSE_DEVICES + 1, mice },
        )
    }
}

fn select(compatible: &[bool]) -> (v: Vec<usize>)
    ensures
        as_ints(v@) == mice_among(compatible@),
        v@.len() == mice_among(compatible@).len(),
{
    let mut v: Vec<usize> = Vec::new();
    let mut i: usize = 0;
    assert(as_ints(v@) =~= mice_among(compatible@.take(0)));
    while i < compatible.len()
        invariant
            i <= compatible@.len(),
            as_ints(v@) == mice_among(compatible@.take(i as int)),
            v@.len() == mice_among(compatible@.take(i as int)).len(),
        decreases compatible@.len() - i,
    {
        assert(compatible@.take(i + 1).drop_last() =~= compatible@.take(i as int));
        if v.len() < MAX_MOUSE_DEVICES && compatible[i] {
            let ghost held = as_ints(v@);
            v.push(i);
            assert(as_ints(v@) =~= held.push(i as int));
        }
        i = i + 1;
    }
    assert(compatible@.take(i as int) =~= compatible@);
    v
}

/// A device for all mice in the older form: whole packets, the oldest first.
pub struct InputMiceInode {
    pub data: VecDeque<[u8; 3]>,
}

/// How many packets the older form keeps.
pub const MAX_QUEUE: usize = 32;

impl InputMiceInode {
    pub fn new() -> (d: Self)
        ensures
            d.data@ == Seq::<[u8; 3]>::empty(),
    {
        InputMiceInode { data: VecDeque::with_capacity(MAX_QUEUE) }
    }

    /// Keeps a packet; the oldest gives way where there is no room.
    pub fn push(&mut self, packet: [u8; 3])
        requires
            old(self).data@.len() <= MAX_QUEUE,
        ensures
            final(self).data@.len() <= MAX_QUEUE,
            final(self).data@ == (if old(self).data@.len() < MAX_QUEUE {
                old(self).data@.push(packet)
            } else {
                old(self).data@.skip(1).push(packet)
            }),
            final(self).data@.last() == packet,
            old(self).data@.len() < 32 ==> final(self).data@.drop_last() == old(self).data@,
            old(self).data@.len() == 32 ==> final(self).data@.drop_last() == old(self).data@.skip(1),
    {
        if self.data.len() >= MAX_QUEUE {
            let _ = self.data.pop_front();
            assert(self.data@ =~= old(self).data@.skip(1));
        }
        self.data.push_back(packet);
    }

    /// Takes the oldest packet out, as much of it as there is room for; the rest of it is lost.
    pub fn read_at(&mut self, buf: &mut [u8]) -> (n: usize)
        ensures
            if old(self).data@.len() == 0 {
                n == 0 && final(buf)@ == old(buf)@ && final(self).data@ == old(self).data@
            } else {
                &&& n == read_len(3, old(buf)@.len() as int)
                &&& final(self).data@ == old(self).data@.skip(1)
                &&& final(buf)@ == old(self).data@[0]@.take(n as int) + old(buf)@.skip(n as int)
            },
    {
        if self.data.len() == 0 {
            return 0;
        }
        let ghost bytes = buf@;
        let packet: [u8; 3] = self.data[0];
        let _ = self.data.pop_front();
        assert(self.data@ =~= old(self).data@.skip(1));
        let len: usize = if buf.len() < 3 {
            buf.len()
        } else {
            3
        };
        let mut i: usize = 0;
        assert(buf@ =~= packet@.take(0) + bytes.skip(0));
        while i < len
            invariant
                i <= len <= 3,
                len <= bytes.len(),
                buf@.len() == bytes.len(),
                buf@ == packet@.take(i as int) + bytes.skip(i as int),
            decreases len - i,
        {
            buf[i] = packet[i];
            i = i + 1;
            assert(buf@ =~= packet@.take(i as int) + bytes.skip(i as int));
        }
        len
    }

    pub fn write_at(&self, buf: &[u8]) -> (r: Result<usize, FsError>)
        ensures
            r == Err::<usize, FsError>(FsError::NotSupported),
    {
        Err(FsError::NotSupported)
    }

    pub fn poll(&self) -> (s: PollStatus)
        ensures
            s == (PollStatus { read: true, write: false, error: false }),
    {
        PollStatus { read: true, write: false, error: false }
    }

    /// Metadata of the node, whose number is made of its major and minor number.
    pub fn metadata<F: Fn(usize, usize) -> usize>(&self, make_rdev: F) -> (m: Metadata)
        requires
            make_rdev.requires((crate::input_event::INPUT_MAJOR, MICE_MINOR)),
        ensures
            make_rdev.ensures((crate::input_event::INPUT_MAJOR, MICE_MINOR), m.rdev),
            m == crate::vfs::bare_node(5, 0, FileType::CharDevice, 0o666, m.rdev),
    {
        node_metadata(5, 0, FileType::CharDevice, 0o666, make_rdev(crate::input_event::INPUT_MAJOR, MICE_MINOR))
    }
}

/// Every mouse that has a device of its own is read through the device for all mice too.
pub proof fn law_shared_device_has_all(mice: Seq<int>)
    requires
        mice.len() > 0,
    ensures
        nodes_for(mice).len() == mice.len() + 1,
        nodes_for(mice).last().mice == mice,
        nodes_for(mice).last().name is None,
        forall|i: int|
            0 <= i < mice.len() ==> (#[trigger] nodes_for(mice)[i]).mice == seq![mice[i]],
{
}

/// There are never more mice with a device of their own than there are numbers for.
pub proof fn law_mice_bounded(compatible: Seq<bool>)
    ensures
        mice_among(compatible).len() <= MAX_MOUSE_DEVICES,
    decreases compatible.len(),
{
    if compatible.len() > 0 {
        law_mice_bounded(compatible.drop_last());
    }
}

/// The packets, the bytes read of the first, and the buttons last seen, after a packet came.
pub open spec fn after_packet(buf: Seq<MouseState>, offset: int, last_buttons: u8, p: MouseState) -> (
    Seq<MouseState>,
    int,
    u8,
) {
    if idle(p, last_buttons) {
        (buf, offset, last_buttons)
    } else if buf.len() < BUF_CAPACITY {
        (buf.push(p), offset, p.buttons)
    } else {
        (buf.skip(1).push(p), 0, p.buttons)
    }
}

/// A packet that moves nothing and changes no button is dropped; any other is put last, and its buttons
/// are the ones that count from then on.
pub proof fn law_packets_queued(buf: Seq<MouseState>, offset: int, last_buttons: u8, p: MouseState)
    ensures
        p.dx == 0 && p.dy == 0 && p.dz == 0 && p.buttons == last_buttons ==> after_packet(
            buf,
            offset,
            last_buttons,
            p,
        ) == (buf, offset, last_buttons),
        p.dx != 0 || p.dy != 0 || p.dz != 0 || p.buttons != last_buttons ==> {
            let a = after_packet(buf, offset, last_buttons, p);
            &&& a.0.len() > 0 && a.0.last() == p
            &&& a.2 == p.buttons
            &&& buf.len() < 32 ==> a.0.drop_last() == buf && a.1 == offset
            &&& buf.len() == 32 ==> a.0.drop_last() == buf.skip(1) && a.1 == 0
        },
{
    assert(buf.push(p).drop_last() =~= buf);
    assert(buf.skip(1).push(p).drop_last() =~= buf.skip(1));
}

/// What is still to be read ends with the bytes of the packet that came last, behind all the others.
pub proof fn law_bytes_in_order(buf: Seq<MouseState>, offset: int, p: MouseState)
    requires
        0 <= offset < 3,
        offset <= 3 * buf.len(),
    ensures
        unread(buf.push(p), offset) == unread(buf, offset) + p.packet@,
        unread(Seq::empty(), 0).len() == 0,
        offset == 0 && buf.len() > 0 ==> unread(buf, 0).take(3) == buf[0].packet@,
{
    let all = unread(buf.push(p), offset);
    let both = unread(buf, offset) + p.packet@;
    assert(p.packet@.len() == 3);
    assert(all.len() == both.len());
    assert forall|i: int| 0 <= i < all.len() implies all[i] == both[i] by {
        if i < unread(buf, offset).len() {
            assert((i + offset) / 3 < buf.len());
        } else {
            assert((i + offset) / 3 == buf.len());
            assert((i + offset) % 3 == i - unread(buf, offset).len());
        }
    }
    assert(all =~= both);
    if offset == 0 && buf.len() > 0 {
        assert(unread(buf, 0).take(3) =~= buf[0].packet@);
    }
}

/// A read gives at most what is left of one packet and fits.
pub proof fn law_read_within_packet(left: int, room: int)
    requires
        0 <= left,
        0 <= room,
    ensures
        0 <= read_len(left, room) <= 3,
        read_len(left, room) <= left,
        read_len(left, room) <= room,
        read_len(left, room) == left || read_len(left, room) == room || read_len(left, room) == 3,
{
}

/// Every mouse gets a device, in the order of the inputs, until there are thirty.
pub proof fn law_mice_in_order(compatible: Seq<bool>, is_mouse: bool)
    ensures
        !is_mouse ==> mice_among(compatible.push(is_mouse)) == mice_among(compatible),
        is_mouse && mice_among(compatible).len() < 30 ==> mice_among(compatible.push(is_mouse))
            == mice_among(compatible).push(compatible.len() as int),
        mice_among(compatible).len() >= 30 ==> mice_among(compatible.push(is_mouse)) == mice_among(
            compatible,
        ),
        mice_among(Seq::empty()).len() == 0,
{
    assert(compatible.push(is_mouse).drop_last() =~= compatible);
}

/// Each mouse has a device under its own number, and the one that all share comes last.
pub proof fn law_mice_numbered(mice: Seq<int>, i: int)
    requires
        0 <= i < mice.len(),
    ensures
        nodes_for(mice)[i].name == Some(i),
        nodes_for(mice)[i].id == i,
        nodes_for(mice).last().id == 31,
        nodes_for(Seq::empty()).len() == 0,
{
}

/// A read gives the bytes that come next and leaves the rest: what was read followed by what is left
/// is what was there. It gives one packet's bytes at most, and fewer only where the buffer or the
/// packets end. With no packet the reader is told to try again.
pub proof fn law_packets_read_in_order(
    before: Seq<u8>,
    none: bool,
    bytes: Seq<u8>,
    r: Result<usize, FsError>,
    after: Seq<u8>,
    bytes2: Seq<u8>,
)
    requires
        packets_read(before, none, bytes, r, after, bytes2),
    ensures
        none <==> r == Err::<usize, FsError>(FsError::Again),
        r is Err ==> after == before && bytes2 == bytes,
        r matches Ok(n) ==> {
            &&& n <= 3 && n <= bytes.len() && n <= before.len()
            &&& n == 3 || n == bytes.len() || n == before.len()
            &&& bytes2.len() == bytes.len()
            &&& bytes2.take(n as int) + after == before
            &&& bytes2.skip(n as int) == bytes.skip(n as int)
        },
{
    if let Ok(n) = r {
        assert(bytes2.take(n as int) =~= before.take(n as int));
        assert(bytes2.take(n as int) + after =~= before);
        assert(bytes2.skip(n as int) =~= bytes.skip(n as int));
    }
}

} // verus!
