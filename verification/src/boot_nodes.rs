//! What the boot puts under `/dev`, and where it mounts things.
use vstd::prelude::*;
use crate::boot_root::{
    disk_name, disk_node, keep_boot_medium, names_of, partition_name, partition_node, stays,
};
use crate::input_mice::{mice_among, mice_nodes, nodes_for, MiceDev, MiceNodeModel};
use crate::text::{
    chars_of, decimal_text, push_number, push_str, split_words, string_of, text_is, texts, words,
    Sep,
};

verus! {

/// A disk: the name of its driver, and where its partitions start and how many sectors they have.
pub struct Disk {
    pub driver: String,
    pub parts: Vec<(usize, usize)>,
}

/// What the machine has.
pub struct Inventory {
    /// How many virtual terminals there are.
    pub vts: usize,
    pub display: bool,
    /// Of each input device, whether it is a mouse.
    pub inputs: Vec<bool>,
    /// How many graphics drivers there are.
    pub gpus: usize,
    pub uarts: usize,
    pub disks: Vec<Disk>,
}

/// The drivers of disks.
pub open spec fn drivers_of(disks: Seq<Disk>) -> Seq<Seq<char>> {
    Seq::new(disks.len(), |i: int| disks[i].driver@)
}

/// Every disk and partition has a number.
pub open spec fn countable(inv: Inventory) -> bool {
    &&& inv.vts < usize::MAX
    &&& inv.disks@.len() * 16 < usize::MAX
    &&& forall|i: int|
        0 <= i < inv.disks@.len() ==> i * 16 + (#[trigger] inv.disks@[i]).parts@.len() < usize::MAX
}

/// What stands behind a node.
#[derive(Clone, Copy, PartialEq, Eq, Structural, Debug)]
pub enum NodeKind {
    Null,
    Zero,
    Random,
    Urandom,
    /// A temporary file system for shared memory.
    SharedMemory,
    /// The terminal of the first process.
    Terminal,
    /// A virtual terminal.
    Vt(usize),
    Ptmx,
    Directory,
    Framebuffer,
    /// One of the devices that mice make, in their order.
    Mouse(usize),
    Event(usize),
    /// A node of the graphics card, by its minor number.
    Card(u32),
    Uart(usize),
    Disk { disk: usize, index: usize },
    Partition { disk: usize, index: usize, start_block: usize, block_count: usize },
}

/// A node to make under `/dev`. The boot stops where a needed one cannot be made; without another
/// it goes on.
pub struct DeviceNode {
    pub path: String,
    pub kind: NodeKind,
    pub needed: bool,
}

/// A node, mathematically.
#[verifier::ext_equal]
pub struct NodeModel {
    pub path: Seq<char>,
    pub kind: NodeKind,
    pub needed: bool,
}

impl View for DeviceNode {
    type V = NodeModel;

    open spec fn view(&self) -> NodeModel {
        NodeModel { path: self.path@, kind: self.kind, needed: self.needed }
    }
}

/// Nodes by their contents.
pub open spec fn nodes_of(v: Seq<DeviceNode>) -> Seq<NodeModel> {
    Seq::new(v.len(), |i: int| v[i]@)
}

/// A node that the boot needs.
pub open spec fn needed(path: Seq<char>, kind: NodeKind) -> NodeModel {
    NodeModel { path, kind, needed: true }
}

/// A node that the boot can do without.
pub open spec fn wanted(path: Seq<char>, kind: NodeKind) -> NodeModel {
    NodeModel { path, kind, needed: false }
}

/// The nodes that every machine has, up to the terminals.
pub open spec fn common_nodes() -> Seq<NodeModel> {
    seq![
        needed("null"@, NodeKind::Null),
        needed("zero"@, NodeKind::Zero),
        needed("random"@, NodeKind::Random),
        needed("urandom"@, NodeKind::Urandom),
        wanted("shm"@, NodeKind::SharedMemory),
        needed("tty"@, NodeKind::Terminal),
        wanted("tty0"@, NodeKind::Vt(0)),
        wanted("console"@, NodeKind::Vt(0)),
    ]
}

/// The nodes of the first `n` virtual terminals, numbered from one.
pub open spec fn vt_nodes(n: int) -> Seq<NodeModel> {
    Seq::new(
        n as nat,
        |i: int| wanted("tty"@ + decimal_text((i + 1) as nat), NodeKind::Vt(i as usize)),
    )
}

/// The nodes of pseudo-terminals.
pub open spec fn pty_nodes() -> Seq<NodeModel> {
    seq![wanted("ptmx"@, NodeKind::Ptmx), wanted("pts"@, NodeKind::Directory)]
}

/// The node of the first display.
pub open spec fn display_nodes(display: bool) -> Seq<NodeModel> {
    if display {
        seq![wanted("fb0"@, NodeKind::Framebuffer)]
    } else {
        Seq::empty()
    }
}

/// The path of a device that mice make.
pub open spec fn mouse_path(m: MiceNodeModel) -> Seq<char> {
    match m.name {
        Some(id) => "input/mouse"@ + decimal_text(id as nat),
        None => "input/mice"@,
    }
}

/// The nodes of the devices that mice make.
pub open spec fn mouse_nodes(mice: Seq<MiceNodeModel>) -> Seq<NodeModel> {
    Seq::new(mice.len(), |i: int| wanted(mouse_path(mice[i]), NodeKind::Mouse(i as usize)))
}

/// The nodes of the first `n` input devices.
pub open spec fn event_nodes(n: int) -> Seq<NodeModel> {
    Seq::new(
        n as nat,
        |i: int| wanted("input/event"@ + decimal_text(i as nat), NodeKind::Event(i as usize)),
    )
}

/// The nodes of input devices, in a directory of their own where there is any device.
pub open spec fn input_nodes(inputs: Seq<bool>) -> Seq<NodeModel> {
    if inputs.len() > 0 {
        seq![wanted("input"@, NodeKind::Directory)] + mouse_nodes(nodes_for(mice_among(inputs)))
            + event_nodes(inputs.len() as int)
    } else {
        Seq::empty()
    }
}

/// The nodes of the graphics card: there is one where there is a driver or a display.
pub open spec fn card_nodes(present: bool) -> Seq<NodeModel> {
    if present {
        seq![
            wanted("dri"@, NodeKind::Directory),
            wanted("dri/card0"@, NodeKind::Card(0)),
            wanted("dri/renderD128"@, NodeKind::Card(128)),
        ]
    } else {
        Seq::empty()
    }
}

/// The nodes of the first `n` serial ports.
pub open spec fn uart_nodes(n: int) -> Seq<NodeModel> {
    Seq::new(
        n as nat,
        |i: int| wanted("ttyS"@ + decimal_text(i as nat), NodeKind::Uart(i as usize)),
    )
}

/// The nodes of the first `n` partitions of disk `i`, called `name`.
pub open spec fn part_nodes(name: Seq<char>, parts: Seq<(usize, usize)>, i: int, n: int) -> Seq<
    NodeModel,
> {
    Seq::new(
        n as nat,
        |k: int|
            wanted(
                partition_node(name, (k + 1) as nat),
                NodeKind::Partition {
                    disk: i as usize,
                    index: (i * 16 + k + 1) as usize,
                    start_block: parts[k].0,
                    block_count: parts[k].1,
                },
            ),
    )
}

/// The nodes of the first `n` disks, each followed by those of its partitions. Sixteen numbers
/// are set aside for each disk.
pub open spec fn disk_nodes(disks: Seq<Disk>, n: int) -> Seq<NodeModel>
    decreases n,
{
    if n <= 0 {
        Seq::empty()
    } else {
        let i = n - 1;
        let name = disk_node(drivers_of(disks), i);
        disk_nodes(disks, i) + seq![
            wanted(name, NodeKind::Disk { disk: i as usize, index: (i * 16) as usize }),
        ] + part_nodes(name, disks[i].parts@, i, disks[i].parts@.len() as int)
    }
}

/// Everything that the boot puts under `/dev`, in order.
pub open spec fn device_nodes(inv: Inventory) -> Seq<NodeModel> {
    common_nodes() + vt_nodes(inv.vts as int) + pty_nodes() + display_nodes(inv.display)
        + input_nodes(inv.inputs@) + card_nodes(inv.gpus > 0 || inv.display) + uart_nodes(
        inv.uarts as int,
    ) + disk_nodes(inv.disks@, inv.disks@.len() as int)
}

fn add_path(v: &mut Vec<DeviceNode>, path: String, kind: NodeKind, must: bool)
    ensures
        nodes_of(final(v)@) == nodes_of(old(v)@).push(
            NodeModel { path: path@, kind, needed: must },
        ),
{
    let node = DeviceNode { path, kind, needed: must };
    let ghost before = v@;
    v.push(node);
    assert(nodes_of(v@) =~= nodes_of(before).push(node@));
}

fn add_node(v: &mut Vec<DeviceNode>, path: &str, kind: NodeKind, must: bool)
    ensures
        nodes_of(final(v)@) == nodes_of(old(v)@).push(
            NodeModel { path: path@, kind, needed: must },
        ),
{
    let cs = chars_of(path);
    add_path(v, string_of(cs.as_slice()), kind, must);
}

fn numbered(head: &str, n: usize) -> (s: String)
    ensures
        s@ == head@ + decimal_text(n as nat),
{
    let mut v: Vec<char> = Vec::new();
    push_str(&mut v, head);
    push_number(&mut v, n as u64);
    assert(v@ =~= head@ + decimal_text(n as nat));
    string_of(v.as_slice())
}

fn add_common(v: &mut Vec<DeviceNode>)
    ensures
        nodes_of(final(v)@) == nodes_of(old(v)@) + common_nodes(),
{
    let ghost before = nodes_of(v@);
    add_node(v, "null", NodeKind::Null, true);
    add_node(v, "zero", NodeKind::Zero, true);
    add_node(v, "random", NodeKind::Random, true);
    add_node(v, "urandom", NodeKind::Urandom, true);
    add_node(v, "shm", NodeKind::SharedMemory, false);
    add_node(v, "tty", NodeKind::Terminal, true);
    add_node(v, "tty0", NodeKind::Vt(0), false);
    add_node(v, "console", NodeKind::Vt(0), false);
    assert(nodes_of(v@) =~= before + common_nodes());
}

fn add_vts(v: &mut Vec<DeviceNode>, vts: usize)
    requires
        vts < usize::MAX,
    ensures
        nodes_of(final(v)@) == nodes_of(old(v)@) + vt_nodes(vts as int),
{
    let ghost before = nodes_of(v@);
    assert(nodes_of(v@) =~= before + vt_nodes(0));
    for i in 0..vts
        invariant
            vts < usize::MAX,
            nodes_of(v@) == before + vt_nodes(i as int),
    {
        add_path(v, numbered("tty", i + 1), NodeKind::Vt(i), false);
        assert(nodes_of(v@) =~= before + vt_nodes(i + 1));
    }
}

fn add_inputs(v: &mut Vec<DeviceNode>, inputs: &[bool])
    ensures
        nodes_of(final(v)@) == nodes_of(old(v)@) + input_nodes(inputs@),
{
    let ghost before = nodes_of(v@);
    if inputs.len() == 0 {
        assert(nodes_of(v@) =~= before + input_nodes(inputs@));
        return;
    }
    add_node(v, "input", NodeKind::Directory, false);
    let ghost dir = before + seq![wanted("input"@, NodeKind::Directory)];
    assert(nodes_of(v@) =~= dir);
    let mice = MiceDev::from_input_devices(inputs);
    let ghost m = nodes_for(mice_among(inputs@));
    assert(nodes_of(v@) =~= dir + mouse_nodes(m).take(0));
    for i in 0..mice.len()
        invariant
            mice_nodes(mice@) == m,
            mice@.len() == m.len(),
            nodes_of(v@) == dir + mouse_nodes(m).take(i as int),
    {
        assert(m[i as int] == mice_nodes(mice@)[i as int]);
        let path = match mice[i].name {
            Some(id) => numbered("input/mouse", id),
            None => {
                let cs = chars_of("input/mice");
                string_of(cs.as_slice())
            },
        };
        assert(path@ == mouse_path(m[i as int]));
        add_path(v, path, NodeKind::Mouse(i), false);
        assert(nodes_of(v@) =~= dir + mouse_nodes(m).take(i + 1));
    }
    assert(mouse_nodes(m).take(m.len() as int) =~= mouse_nodes(m));
    let ghost held = nodes_of(v@);
    assert(held =~= held + event_nodes(0));
    for i in 0..inputs.len()
        invariant
            nodes_of(v@) == held + event_nodes(i as int),
    {
        add_path(v, numbered("input/event", i), NodeKind::Event(i), false);
        assert(nodes_of(v@) =~= held + event_nodes(i + 1));
    }
    assert(nodes_of(v@) =~= before + input_nodes(inputs@));
}

fn add_uarts(v: &mut Vec<DeviceNode>, uarts: usize)
    ensures
        nodes_of(final(v)@) == nodes_of(old(v)@) + uart_nodes(uarts as int),
{
    let ghost before = nodes_of(v@);
    assert(nodes_of(v@) =~= before + uart_nodes(0));
    for i in 0..uarts
        invariant
            nodes_of(v@) == before + uart_nodes(i as int),
    {
        add_path(v, numbered("ttyS", i), NodeKind::Uart(i), false);
        assert(nodes_of(v@) =~= before + uart_nodes(i + 1));
    }
}

fn add_parts(v: &mut Vec<DeviceNode>, name: &str, parts: &[(usize, usize)], i: usize)
    requires
        i * 16 + parts@.len() < usize::MAX,
    ensures
        nodes_of(final(v)@) == nodes_of(old(v)@) + part_nodes(
            name@,
            parts@,
            i as int,
            parts@.len() as int,
        ),
{
    let ghost before = nodes_of(v@);
    let base: usize = i * 16;
    assert(nodes_of(v@) =~= before + part_nodes(name@, parts@, i as int, 0));
    for k in 0..parts.len()
        invariant
            base == i * 16,
            base + parts@.len() < usize::MAX,
            nodes_of(v@) == before + part_nodes(name@, parts@, i as int, k as int),
    {
        let (start_block, block_count) = parts[k];
        let kind = NodeKind::Partition { disk: i, index: base + k + 1, start_block, block_count };
        add_path(v, partition_name(name, k + 1), kind, false);
        assert(nodes_of(v@) =~= before + part_nodes(name@, parts@, i as int, k + 1));
    }
}

fn add_disks(v: &mut Vec<DeviceNode>, disks: &[Disk])
    requires
        disks@.len() * 16 < usize::MAX,
        forall|i: int|
            0 <= i < disks@.len() ==> i * 16 + (#[trigger] disks@[i]).parts@.len() < usize::MAX,
    ensures
        nodes_of(final(v)@) == nodes_of(old(v)@) + disk_nodes(disks@, disks@.len() as int),
{
    let ghost before = nodes_of(v@);
    let mut drivers: Vec<String> = Vec::new();
    for i in 0..disks.len()
        invariant
            drivers@.len() == i,
            forall|j: int| 0 <= j < i ==> (#[trigger] drivers@[j])@ == disks@[j].driver@,
    {
        let cs = chars_of(disks[i].driver.as_str());
        drivers.push(string_of(cs.as_slice()));
    }
    assert(names_of(drivers@) =~= drivers_of(disks@));
    assert(nodes_of(v@) =~= before + disk_nodes(disks@, 0));
    for i in 0..disks.len()
        invariant
            disks@.len() * 16 < usize::MAX,
            forall|i: int|
                0 <= i < disks@.len() ==> i * 16 + (#[trigger] disks@[i]).parts@.len() < usize::MAX,
            drivers@.len() == disks@.len(),
            names_of(drivers@) == drivers_of(disks@),
            nodes_of(v@) == before + disk_nodes(disks@, i as int),
    {
        let name = disk_name(drivers.as_slice(), i);
        let ghost first = disk_nodes(disks@, i as int);
        let ghost one = wanted(name@, NodeKind::Disk { disk: i, index: (i * 16) as usize });
        let again = chars_of(name.as_str());
        add_path(
            v,
            string_of(again.as_slice()),
            NodeKind::Disk { disk: i, index: i * 16 },
            false,
        );
        assert(nodes_of(v@) =~= before + (first + seq![one]));
        add_parts(v, name.as_str(), disks[i].parts.as_slice(), i);
        assert(nodes_of(v@) =~= before + disk_nodes(disks@, i + 1));
    }
}

/// What the boot does with the machine.
pub struct BootPlan {
    /// What to put under `/dev`.
    pub nodes: Vec<DeviceNode>,
    /// Whether to look for an installed root; else the boot medium stays the root.
    pub pivot: bool,
}

/// Plans the boot: the nodes under `/dev`, and whether an installed root is looked for.
pub fn create_root_fs(inv: &Inventory, cmdline: &str) -> (p: BootPlan)
    requires
        countable(*inv),
    ensures
        nodes_of(p.nodes@) == device_nodes(*inv),
        p.pivot == !stays(cmdline@),
{
    let mut v: Vec<DeviceNode> = Vec::new();
    assert(nodes_of(v@) =~= Seq::empty());
    add_common(&mut v);
    assert(nodes_of(v@) =~= common_nodes());
    add_vts(&mut v, inv.vts);
    let ghost before = nodes_of(v@);
    add_node(&mut v, "ptmx", NodeKind::Ptmx, false);
    add_node(&mut v, "pts", NodeKind::Directory, false);
    assert(nodes_of(v@) =~= before + pty_nodes());
    let ghost before = nodes_of(v@);
    if inv.display {
        add_node(&mut v, "fb0", NodeKind::Framebuffer, false);
    }
    assert(nodes_of(v@) =~= before + display_nodes(inv.display));
    add_inputs(&mut v, inv.inputs.as_slice());
    let ghost before = nodes_of(v@);
    if inv.gpus > 0 || inv.display {
        add_node(&mut v, "dri", NodeKind::Directory, false);
        add_node(&mut v, "dri/card0", NodeKind::Card(0), false);
        add_node(&mut v, "dri/renderD128", NodeKind::Card(128), false);
    }
    assert(nodes_of(v@) =~= before + card_nodes(inv.gpus > 0 || inv.display));
    add_uarts(&mut v, inv.uarts);
    add_disks(&mut v, inv.disks.as_slice());
    let keep: bool = keep_boot_medium(cmdline);
    BootPlan { nodes: v, pivot: !keep }
}

/// Whether a node is a disk or a partition.
pub open spec fn is_block(k: NodeKind) -> bool {
    k is Disk || k is Partition
}

/// The disks and partitions among the first `n` nodes that could be made.
pub open spec fn made_blocks(nodes: Seq<NodeModel>, made: Seq<bool>, n: int) -> Seq<Seq<char>>
    decreases n,
{
    if n <= 0 {
        Seq::empty()
    } else if made[n - 1] && is_block(nodes[n - 1].kind) {
        made_blocks(nodes, made, n - 1).push(nodes[n - 1].path)
    } else {
        made_blocks(nodes, made, n - 1)
    }
}

/// The devices that a root can be on: the disks and partitions whose nodes could be made.
pub fn block_candidates(nodes: &[DeviceNode], made: &[bool]) -> (v: Vec<String>)
    requires
        made@.len() == nodes@.len(),
    ensures
        names_of(v@) == made_blocks(nodes_of(nodes@), made@, nodes@.len() as int),
{
    let ghost m = nodes_of(nodes@);
    let mut v: Vec<String> = Vec::new();
    assert(names_of(v@) =~= Seq::empty());
    for i in 0..nodes.len()
        invariant
            m == nodes_of(nodes@),
            made@.len() == nodes@.len(),
            names_of(v@) == made_blocks(m, made@, i as int),
    {
        assert(m[i as int] == nodes@[i as int]@);
        let block: bool = match nodes[i].kind {
            NodeKind::Disk { .. } => true,
            NodeKind::Partition { .. } => true,
            _ => false,
        };
        if made[i] && block {
            let cs = chars_of(nodes[i].path.as_str());
            let ghost before = v@;
            v.push(string_of(cs.as_slice()));
            assert(names_of(v@) =~= names_of(before).push(nodes@[i as int].path@));
        }
    }
    v
}

/// Where a mount directory comes from.
#[derive(Clone, Copy, PartialEq, Eq, Structural, Debug)]
pub enum MountDir {
    /// The root's own file system has it.
    Backing,
    /// It is there.
    Existing,
    /// It is to be made.
    Make,
}

/// Finds the directory of a mount: on an installed root straight in its file system, else along
/// the mounts.
pub fn resolve_mount_dir(root_fstype: &str, on_backing: bool, in_root: bool) -> (d: MountDir)
    ensures
        d == dir_resolved(root_fstype@, on_backing, in_root),
{
    let cs = chars_of(root_fstype);
    if text_is(cs.as_slice(), "btrfs") {
        if on_backing {
            MountDir::Backing
        } else {
            MountDir::Make
        }
    } else if in_root {
        MountDir::Existing
    } else {
        MountDir::Make
    }
}

/// The directories from the root down to a path, each of them made where it is missing.
pub fn resolve_or_create_dir(path: &str) -> (v: Vec<String>)
    ensures
        names_of(v@) == words(path@, Sep::Is('/')),
{
    let cs = chars_of(path);
    let parts = split_words(cs.as_slice(), Sep::Is('/'));
    let mut v: Vec<String> = Vec::new();
    for i in 0..parts.len()
        invariant
            v@.len() == i,
            forall|j: int| 0 <= j < i ==> (#[trigger] v@[j])@ == parts@[j]@,
    {
        v.push(string_of(parts[i].as_slice()));
    }
    assert(names_of(v@) =~= texts(parts@));
    v
}

/// Every machine has the nodes that the boot needs, whatever else it has.
pub proof fn law_needed_nodes_first(inv: Inventory, i: int)
    requires
        0 <= i < common_nodes().len(),
    ensures
        device_nodes(inv)[i] == common_nodes()[i],
{
    lemma_head(inv);
}

proof fn lemma_head(inv: Inventory)
    ensures
        device_nodes(inv).len() >= common_nodes().len(),
        device_nodes(inv).take(common_nodes().len() as int) == common_nodes(),
{
    assert(device_nodes(inv).take(common_nodes().len() as int) =~= common_nodes());
}

/// A root is looked for only on disks and partitions that have a node.
pub proof fn law_candidates_have_nodes(nodes: Seq<NodeModel>, made: Seq<bool>, n: int, k: int)
    requires
        0 <= n <= nodes.len(),
        0 <= k < made_blocks(nodes, made, n).len(),
    ensures
        exists|i: int|
            0 <= i < n && made[i] && is_block(nodes[i].kind) && (#[trigger] nodes[i]).path
                == made_blocks(nodes, made, n)[k],
    decreases n,
{
    if n > 0 {
        if made[n - 1] && is_block(nodes[n - 1].kind) && k == made_blocks(nodes, made, n - 1).len() {
            assert(nodes[n - 1].path == made_blocks(nodes, made, n)[k]);
        } else {
            law_candidates_have_nodes(nodes, made, n - 1, k);
        }
    }
}

/// Where a directory to mount on is.
pub open spec fn dir_resolved(root_fstype: Seq<char>, on_backing: bool, in_root: bool) -> MountDir {
    if root_fstype == "btrfs"@ {
        if on_backing {
            MountDir::Backing
        } else {
            MountDir::Make
        }
    } else if in_root {
        MountDir::Existing
    } else {
        MountDir::Make
    }
}

/// A directory is made only where it is not yet there: on the file system behind the root where that is
/// looked at, and in the root otherwise.
pub proof fn law_directory_resolved(root_fstype: Seq<char>, on_backing: bool, in_root: bool)
    ensures
        dir_resolved(root_fstype, on_backing, in_root) is Backing <==> root_fstype == "btrfs"@
            && on_backing,
        dir_resolved(root_fstype, on_backing, in_root) is Existing <==> root_fstype != "btrfs"@
            && in_root,
{
}

/// How many nodes there are: the common ones, two for terminals made by programs, and what each device
/// adds; the graphics card has its nodes where there is a driver or a display.
pub proof fn law_nodes_counted(inv: Inventory)
    ensures
        device_nodes(inv).len() == 10 + inv.vts + inv.uarts + (if inv.display {
            1int
        } else {
            0
        }) + (if inv.gpus > 0 || inv.display {
            3int
        } else {
            0
        }) + (if inv.inputs@.len() > 0 {
            1 + inv.inputs@.len() + nodes_for(mice_among(inv.inputs@)).len()
        } else {
            0
        }) + disk_nodes(inv.disks@, inv.disks@.len() as int).len(),
{
}

/// The terminals, event devices and serial lines are numbered: the terminals from 1, the others from 0,
/// each with its own device.
pub proof fn law_nodes_numbered(n: int, i: int)
    requires
        0 <= i < n,
    ensures
        vt_nodes(n)[i].path == "tty"@ + decimal_text((i + 1) as nat),
        vt_nodes(n)[i].kind == NodeKind::Vt(i as usize),
        event_nodes(n)[i].path == "input/event"@ + decimal_text(i as nat),
        event_nodes(n)[i].kind == NodeKind::Event(i as usize),
        uart_nodes(n)[i].path == "ttyS"@ + decimal_text(i as nat),
        uart_nodes(n)[i].kind == NodeKind::Uart(i as usize),
        !vt_nodes(n)[i].needed && !event_nodes(n)[i].needed && !uart_nodes(n)[i].needed,
{
}

/// A disk comes behind those before it: its own node, then one for each partition, with sixteen numbers
/// for each disk.
pub proof fn law_disk_and_partitions(disks: Seq<Disk>, i: int, k: int)
    requires
        0 <= i < disks.len(),
        0 <= k < disks[i].parts@.len(),
        i * 16 + k + 1 <= usize::MAX,
    ensures
        ({
            let before = disk_nodes(disks, i).len() as int;
            let all = disk_nodes(disks, i + 1);
            let name = disk_node(drivers_of(disks), i);
            &&& all.len() == before + 1 + disks[i].parts@.len()
            &&& all.take(before) == disk_nodes(disks, i)
            &&& all[before].path == name
            &&& all[before].kind == NodeKind::Disk { disk: i as usize, index: (16 * i) as usize }
            &&& all[before + 1 + k].path == partition_node(name, (k + 1) as nat)
            &&& all[before + 1 + k].kind == NodeKind::Partition {
                disk: i as usize,
                index: (16 * i + k + 1) as usize,
                start_block: disks[i].parts@[k].0,
                block_count: disks[i].parts@[k].1,
            }
        }),
{
    let before = disk_nodes(disks, i);
    assert(disk_nodes(disks, i + 1).take(before.len() as int) =~= before);
}

/// The candidates for a root are the disks and partitions whose nodes were made, and each of them.
pub proof fn law_made_blocks_exact(nodes: Seq<NodeModel>, made: Seq<bool>, n: int)
    requires
        0 <= n < nodes.len(),
    ensures
        made[n] && (nodes[n].kind is Disk || nodes[n].kind is Partition) ==> made_blocks(
            nodes,
            made,
            n + 1,
        ) == made_blocks(nodes, made, n).push(nodes[n].path),
        !made[n] || !(nodes[n].kind is Disk || nodes[n].kind is Partition) ==> made_blocks(
            nodes,
            made,
            n + 1,
        ) == made_blocks(nodes, made, n),
        made_blocks(nodes, made, 0).len() == 0,
{
}

} // verus!
