//! What is taken from a flattened device tree while the machine starts: how numbers are written in
//! it, the command line, the memory, and the memory that is not to be used.

use vstd::array::array_as_slice;
use vstd::prelude::*;
use vstd::slice::slice_subrange;
use vstd::utf8;
use crate::error::SystemError;
use crate::open_firmware::blob::{
    self, check, check_header, check_reserved, is_utf8, read_be32, read_be64,
};

verus! {

/// The size of a page.
pub const PAGE_SIZE: usize = 4096;

/// A property of a node.
#[derive(Debug)]
pub struct FdtProperty {
    pub name: String,
    pub value: Vec<u8>,
}

/// A node with its properties, up to the first that cannot be read.
#[derive(Debug)]
pub struct FdtNode {
    pub name: String,
    pub properties: Vec<FdtProperty>,
    /// All properties can be read.
    pub complete: bool,
}

/// A property as its name and its value.
pub type PropertyView = (Seq<char>, Seq<u8>);

/// A node as its name and its properties, and whether those are all.
pub type NodeView = (Seq<char>, Seq<PropertyView>, bool);

impl FdtProperty {
    pub open spec fn view(self) -> PropertyView {
        (self.name@, self.value@)
    }
}

impl FdtNode {
    pub open spec fn view(self) -> NodeView {
        (self.name@, self.properties@.map_values(|p: FdtProperty| p@), self.complete)
    }
}

/// The nodes of a list.
pub open spec fn nodes_view(nodes: Seq<FdtNode>) -> Seq<NodeView> {
    nodes.map_values(|n: FdtNode| n@)
}

/// A node that may be missing.
pub open spec fn option_view(node: Option<FdtNode>) -> Option<NodeView> {
    match node {
        Some(n) => Some(n@),
        None => None,
    }
}

/// A list of nodes that may be missing.
pub open spec fn option_nodes_view(nodes: Option<Vec<FdtNode>>) -> Option<Seq<NodeView>> {
    match nodes {
        Some(n) => Some(nodes_view(n@)),
        None => None,
    }
}

/// So much can be read of each of the nodes.
pub open spec fn limited(nodes: Seq<FdtNode>, limits: Seq<(usize, bool)>) -> bool {
    nodes.len() == limits.len() && forall|i: int|
        0 <= i < nodes.len() ==> (#[trigger] nodes[i]).complete == limits[i].1
}

/// The node of a tree at a path.
pub uninterp spec fn fdt_node(data: Seq<u8>, path: Seq<char>) -> Option<NodeView>;

/// All nodes of a tree.
pub uninterp spec fn fdt_all_nodes(data: Seq<u8>) -> Seq<NodeView>;

/// The nodes in the node of a tree at a path.
pub uninterp spec fn fdt_children(data: Seq<u8>, path: Seq<char>) -> Option<Seq<NodeView>>;

/// Calls `fdt::Fdt::new`, `fdt::Fdt::find_node` and `fdt::node::FdtNode::properties`, of which it takes
/// the first `limit.0`.
///
/// Claimed of the calls: where the search comes to an end and so many properties can be read they do
/// not panic, what they return depends on the bytes and the path alone, and there is a node exactly
/// if the search finds one. `limit.1` is noted in the node.
#[verifier::external_body]
pub(crate) fn find_node(data: &[u8], path: &str, limit: (usize, bool)) -> (r: Option<FdtNode>)
    requires
        blob::found(data@, utf8::encode_utf8(path@)) is Some,
        limit == blob::limit_at(data@, utf8::encode_utf8(path@)),
    ensures
        option_view(r) == fdt_node(data@, path@),
        r is Some == blob::has_node(data@, utf8::encode_utf8(path@)),
        r matches Some(node) ==> node.complete == limit.1,
{
    let tree = fdt::Fdt::new(data).ok()?;
    let node = tree.find_node(path)?;
    let convert = |p: fdt::node::NodeProperty| FdtProperty { name: p.name.to_string(), value: p.value.to_vec() };
    let properties = node.properties().take(limit.0).map(convert).collect();
    Some(FdtNode { name: node.name.to_string(), properties, complete: limit.1 })
}

/// Calls `fdt::Fdt::new`, `fdt::Fdt::all_nodes` and `fdt::node::FdtNode::properties`, of which it takes
/// as many as `limits` allows of each node.
///
/// Claimed of the calls: where all nodes can be gone through and so many properties of each can be
/// read they do not panic, what they return depends on the bytes alone, and there is one node for
/// each limit. The second part of the limit is noted in the node.
#[verifier::external_body]
pub(crate) fn all_nodes(data: &[u8], limits: &[(usize, bool)]) -> (r: Vec<FdtNode>)
    requires
        blob::all_limits(data@) == Some(limits@),
    ensures
        nodes_view(r@) == fdt_all_nodes(data@),
        limited(r@, limits@),
{
    let tree = match fdt::Fdt::new(data) {
        Ok(tree) => tree,
        Err(_) => return Vec::new(),
    };
    let convert = |p: fdt::node::NodeProperty| FdtProperty { name: p.name.to_string(), value: p.value.to_vec() };
    let nodes = tree.all_nodes().zip(limits).map(|(n, limit)| FdtNode {
        name: n.name.to_string(),
        properties: n.properties().take(limit.0).map(convert).collect(),
        complete: limit.1,
    });
    nodes.collect()
}

/// Calls `fdt::Fdt::new`, `fdt::Fdt::find_node`, `fdt::node::FdtNode::children` and
/// `fdt::node::FdtNode::properties`, of which it takes as many as `limits` allows of each node.
///
/// Claimed of the calls: where the nodes can be found and so many properties of each can be read they
/// do not panic, what they return depends on the bytes and the path alone, there is a list exactly if
/// the search finds a node, and it has one node for each limit. The second part of the limit is noted
/// in the node.
#[verifier::external_body]
pub(crate) fn children_of(data: &[u8], path: &str, limits: &[(usize, bool)]) -> (r: Option<
    Vec<FdtNode>,
>)
    requires
        blob::limits_in(data@, utf8::encode_utf8(path@)) == Some(limits@),
    ensures
        option_nodes_view(r) == fdt_children(data@, path@),
        r is Some == blob::has_node(data@, utf8::encode_utf8(path@)),
        r matches Some(nodes) ==> limited(nodes@, limits@),
{
    let tree = fdt::Fdt::new(data).ok()?;
    let convert = |p: fdt::node::NodeProperty| FdtProperty { name: p.name.to_string(), value: p.value.to_vec() };
    let children = tree.find_node(path)?.children().zip(limits).map(|(n, limit)| FdtNode {
        name: n.name.to_string(),
        properties: n.properties().take(limit.0).map(convert).collect(),
        complete: limit.1,
    });
    Some(children.collect())
}

/// The value of the first property with a name, from position `from` on.
pub open spec fn first_property(properties: Seq<PropertyView>, name: Seq<char>, from: int) -> Option<
    Seq<u8>,
>
    decreases properties.len() - from,
{
    if from < 0 || from >= properties.len() {
        None
    } else if properties[from].0 == name {
        Some(properties[from].1)
    } else {
        first_property(properties, name, from + 1)
    }
}

/// The value of a property of a node.
pub open spec fn property_of(node: NodeView, name: Seq<char>) -> Option<Seq<u8>> {
    first_property(node.1, name, 0)
}

/// Whether a node has a property with a name can be told: it has one, or all its properties are known.
pub open spec fn decided(node: NodeView, name: Seq<char>) -> bool {
    property_of(node, name) is Some || node.2
}

/// The text of a value, which ends where only zeros follow, is `text`.
pub open spec fn is_text(value: Seq<u8>, text: Seq<u8>) -> bool {
    &&& value.len() >= text.len()
    &&& value.take(text.len() as int) == text
    &&& forall|i: int| text.len() <= i < value.len() ==> value[i] == 0
}

/// The number that a value spells, of four or of eight bytes; of eight only the lower half counts.
pub open spec fn cells_in(value: Seq<u8>) -> Option<u32> {
    if value.len() == 4 {
        Some(blob::be32(value, 0))
    } else if value.len() == 8 {
        Some(blob::be32(value, 4))
    } else {
        None
    }
}

/// Whether the text of a value is `text`, which does not end with a zero.
fn has_text(value: &Vec<u8>, text: &[u8]) -> (r: bool)
    ensures
        r == is_text(value@, text@),
{
    let count: usize = value.len();
    let length: usize = text.len();
    if count < length {
        return false;
    }
    let mut i: usize = 0;
    while i < length
        invariant
            0 <= i <= length <= count,
            count == value@.len(),
            length == text@.len(),
            forall|j: int| 0 <= j < i ==> value@[j] == text@[j],
        decreases length - i,
    {
        if value[i] != text[i] {
            assert(value@.take(length as int)[i as int] != text@[i as int]);
            return false;
        }
        i = i + 1;
    }
    assert(value@.take(length as int) =~= text@);
    while i < count
        invariant
            length <= i <= count,
            count == value@.len(),
            length == text@.len(),
            value@.take(length as int) == text@,
            forall|j: int| length <= j < i ==> value@[j] == 0,
        decreases count - i,
    {
        if value[i] != 0 {
            return false;
        }
        i = i + 1;
    }
    true
}

/// A copy of the text of a value.
fn trimmed(value: &Vec<u8>) -> (r: Vec<u8>)
    ensures
        r@ == blob::text_of(value@),
{
    let mut text: Vec<u8> = Vec::new();
    text.extend_from_slice(blob::trim(value.as_slice()));
    assert(text@ =~= blob::text_of(value@));
    text
}

/// The number that a value spells.
fn read_cells(value: &Vec<u8>) -> (r: Option<u32>)
    ensures
        r == cells_in(value@),
{
    if value.len() == 4 {
        Some(read_be32(value.as_slice(), 0))
    } else if value.len() == 8 {
        Some(read_be32(value.as_slice(), 4))
    } else {
        None
    }
}

impl FdtNode {
    /// Whether it can be told if the node has a property with a name.
    pub fn is_decided(&self, name: &str) -> (r: bool)
        ensures
            r == decided(self@, name@),
    {
        self.complete || self.property(name).is_some()
    }

    /// The value of a property.
    pub fn property(&self, name: &str) -> (r: Option<&Vec<u8>>)
        ensures
            match r {
                Some(value) => property_of(self@, name@) == Some(value@),
                None => property_of(self@, name@) is None,
            },
    {
        let wanted: String = name.to_owned();
        let ghost all = self@.1;
        let mut i: usize = 0;
        while i < self.properties.len()
            invariant
                0 <= i <= self.properties@.len(),
                wanted@ == name@,
                all == self@.1,
                first_property(all, name@, 0) == first_property(all, name@, i as int),
            decreases self.properties@.len() - i,
        {
            assert(all[i as int] == self.properties@[i as int]@);
            if self.properties[i].name == wanted {
                return Some(&self.properties[i].value);
            }
            i = i + 1;
        }
        None
    }
}

/// The words `okay` and `ok`, as bytes.
pub open spec fn okay_text() -> Seq<u8> {
    seq![0x6f, 0x6b, 0x61, 0x79]
}

pub open spec fn ok_text() -> Seq<u8> {
    seq![0x6f, 0x6b]
}

/// The word `memory`, as bytes.
pub open spec fn memory_text() -> Seq<u8> {
    seq![0x6d, 0x65, 0x6d, 0x6f, 0x72, 0x79]
}

/// The device of a node can be used: it does not say otherwise.
pub open spec fn available(node: NodeView) -> bool {
    match property_of(node, "status"@) {
        None => true,
        Some(status) => is_text(status, okay_text()) || is_text(status, ok_text()),
    }
}

/// The regions of a node for memory that can be used.
pub open spec fn memory_reg(node: NodeView) -> Option<Seq<u8>> {
    match property_of(node, "device_type"@) {
        None => None,
        Some(kind) => if is_text(kind, memory_text()) && available(node) {
            property_of(node, "reg"@)
        } else {
            None
        },
    }
}

/// The number at `at` that has so many cells.
pub open spec fn cell_at(reg: Seq<u8>, at: int, cells: int) -> u64 {
    if cells == 1 {
        blob::be32(reg, at) as u64
    } else {
        blob::be64(reg, at)
    }
}

/// The number with so many cells of a property, and where the next one starts. There are numbers of
/// one and of two cells.
pub fn read_cell(reg_value: &[u8], base_index: usize, cells: usize) -> (r: (u64, usize))
    requires
        cells == 1 || cells == 2,
        base_index + cells * 4 <= reg_value@.len(),
    ensures
        r.0 == cell_at(reg_value@, base_index as int, cells as int),
        r.1 == base_index + cells * 4,
        r.0 == number_in(reg_value@.subrange(base_index as int, r.1 as int)),
{
    proof {
        law_cell_number(reg_value@, base_index as int, cells as int);
    }
    let count: usize = reg_value.len();
    assert(base_index + cells * 4 <= count);
    let next_base_index: usize = base_index + cells * 4;
    if cells == 1 {
        (read_be32(reg_value, base_index) as u64, next_base_index)
    } else {
        (read_be64(reg_value, base_index), next_base_index)
    }
}

/// The numbers of cells are such that regions can be read.
pub open spec fn readable(addr_cells: int, size_cells: int) -> bool {
    1 <= addr_cells <= 2 && 1 <= size_cells <= 2
}

/// The region that is read at `at`.
pub open spec fn region_at(reg: Seq<u8>, at: int, addr_cells: int, size_cells: int) -> (u64, u64) {
    (cell_at(reg, at, addr_cells), cell_at(reg, at + addr_cells * 4, size_cells))
}

/// The regions that are read at the first `count` steps of so many bytes and are not empty.
pub open spec fn regions(
    reg: Seq<u8>,
    addr_cells: int,
    size_cells: int,
    step: int,
    count: nat,
) -> Seq<(u64, u64)>
    decreases count,
{
    if count == 0 {
        Seq::empty()
    } else {
        let before = regions(reg, addr_cells, size_cells, step, (count - 1) as nat);
        let last = region_at(reg, (count - 1) * step, addr_cells, size_cells);
        if last.1 == 0 {
            before
        } else {
            before.push(last)
        }
    }
}

/// How many regions a property holds.
pub open spec fn region_count(reg: Seq<u8>, addr_cells: int, size_cells: int) -> nat {
    (reg.len() as int / ((addr_cells + size_cells) * 4)) as nat
}

/// The memory that a node for memory describes, region by region.
pub open spec fn node_memory(node: NodeView, addr_cells: int, size_cells: int) -> Seq<(u64, u64)> {
    match memory_reg(node) {
        None => Seq::empty(),
        Some(reg) => regions(
            reg,
            addr_cells,
            size_cells,
            (addr_cells + size_cells) * 4,
            region_count(reg, addr_cells, size_cells),
        ),
    }
}

/// The memory that all nodes describe.
pub open spec fn all_memory(nodes: Seq<NodeView>, addr_cells: int, size_cells: int) -> Seq<
    (u64, u64),
>
    decreases nodes.len(),
{
    if nodes.len() == 0 {
        Seq::empty()
    } else {
        all_memory(nodes.drop_last(), addr_cells, size_cells) + node_memory(
            nodes.last(),
            addr_cells,
            size_cells,
        )
    }
}

/// Whether a node is one for memory that can be used, and its regions, can be told.
pub open spec fn memory_decided(node: NodeView) -> bool {
    &&& decided(node, "device_type"@)
    &&& property_of(node, "device_type"@) matches Some(kind) ==> is_text(kind, memory_text()) ==> {
        &&& decided(node, "status"@)
        &&& available(node) ==> decided(node, "reg"@)
    }
}

/// The regions of a node for memory can be read.
pub open spec fn memory_readable(node: NodeView, addr_cells: int, size_cells: int) -> bool {
    memory_decided(node) && match memory_reg(node) {
        None => true,
        Some(reg) => addr_cells + size_cells > 0 && (region_count(reg, addr_cells, size_cells) > 0
            ==> readable(addr_cells, size_cells)),
    }
}

/// Memory that is not to be used.
#[derive(Clone, Copy, Debug, PartialEq, Eq, Structural)]
pub struct ReservedRange {
    pub base: u64,
    pub size: u64,
    /// It is not even to be mapped.
    pub nomap: bool,
}

/// How memory is kept from being used.
#[derive(Clone, Copy, Debug, PartialEq, Eq, Structural)]
pub enum ReserveStep {
    /// Not at all: it is in use.
    Refuse(SystemError),
    /// It is marked as not to be mapped.
    MarkNomap,
    /// It is reserved.
    Reserve,
}

/// What is known of the tree as a whole.
#[derive(Clone, Copy, Debug)]
pub struct FdtGlobalData {
    /// How many cells sizes have.
    pub root_size_cells: u32,
    /// How many cells addresses have.
    pub root_addr_cells: u32,
    /// The path of the node for what was chosen.
    pub chosen_node_name: Option<&'static str>,
}

impl FdtGlobalData {
    /// Nothing is known: numbers have one cell.
    pub fn new() -> (r: Self)
        ensures
            r.root_size_cells == 1,
            r.root_addr_cells == 1,
            r.chosen_node_name is None,
    {
        FdtGlobalData { root_size_cells: 1, root_addr_cells: 1, chosen_node_name: None }
    }
}

/// Everything that is looked at in a tree.
#[derive(Debug)]
pub struct FdtTree {
    pub root: Option<FdtNode>,
    /// The node for what was chosen, under its first and under its second path.
    pub chosen: Option<FdtNode>,
    pub chosen_at_0: Option<FdtNode>,
    pub nodes: Vec<FdtNode>,
    /// The nodes for memory that is not to be used.
    pub reserved: Option<Vec<FdtNode>>,
    /// The memory that is not to be used, as pairs of address and size.
    pub reservations: Vec<(u64, u64)>,
    pub total_size: usize,
}

impl FdtTree {
    /// The tree is the one that the bytes hold, as far as it can be read.
    pub open spec fn is_of(self, data: Seq<u8>) -> bool {
        &&& self.total_size == blob::be32(data, 4)
        &&& if blob::sound(data) {
            &&& node_at(self.root, data, "/"@)
            &&& self.root is Some
            &&& node_at(self.chosen, data, "/chosen"@)
            &&& if self.chosen is Some {
                self.chosen_at_0 is None
            } else {
                node_at(self.chosen_at_0, data, "/chosen@0"@)
            }
            &&& nodes_view(self.nodes@) == fdt_all_nodes(data)
            &&& limited(self.nodes@, blob::all_limits(data)->0)
        } else {
            &&& self.root is None
            &&& self.chosen is None
            &&& self.chosen_at_0 is None
            &&& self.nodes@.len() == 0
        }
        &&& if blob::reserved_sound(data) {
            &&& option_nodes_view(self.reserved) == fdt_children(data, "/reserved-memory"@)
            &&& self.reserved is Some == blob::has_node(
                data,
                utf8::encode_utf8("/reserved-memory"@),
            )
            &&& self.reserved matches Some(nodes) ==> limited(
                nodes@,
                blob::limits_in(data, utf8::encode_utf8("/reserved-memory"@))->0,
            )
            &&& self.reservations@ == blob::reservations_from(data, blob::be32(data, 16) as int)
        } else {
            &&& self.reserved is None
            &&& self.reservations@.len() == 0
        }
    }
}

/// The node is the one that the tree has at a path. It may be missing.
pub open spec fn node_at(node: Option<FdtNode>, data: Seq<u8>, path: Seq<char>) -> bool {
    &&& option_view(node) == fdt_node(data, path)
    &&& node is Some == blob::has_node(data, utf8::encode_utf8(path))
    &&& node matches Some(n) ==> n.complete == blob::limit_at(data, utf8::encode_utf8(path)).1
}

/// Looks for the node at a path.
fn read_node(data: &[u8], path: &str) -> (r: Option<FdtNode>)
    requires
        blob::found(data@, utf8::encode_utf8(path@)) is Some,
    ensures
        node_at(r, data@, path@),
{
    let limit: (usize, bool) = blob::limit(data, path);
    find_node(data, path, limit)
}

/// Reads a tree. What cannot be read of it is missing.
pub fn read_tree(data: &[u8]) -> (r: Option<FdtTree>)
    ensures
        match r {
            Some(tree) => blob::header_ok(data@) && tree.is_of(data@),
            None => !blob::header_ok(data@),
        },
{
    if !check_header(data) {
        return None;
    }
    let mut root: Option<FdtNode> = None;
    let mut chosen: Option<FdtNode> = None;
    let mut chosen_at_0: Option<FdtNode> = None;
    let mut nodes: Vec<FdtNode> = Vec::new();
    if check(data) {
        root = read_node(data, "/");
        chosen = read_node(data, "/chosen");
        if chosen.is_none() {
            chosen_at_0 = read_node(data, "/chosen@0");
        }
        if let Some(limits) = blob::read_all_limits(data) {
            nodes = all_nodes(data, limits.as_slice());
        }
    }
    let mut reserved: Option<Vec<FdtNode>> = None;
    let mut reservations: Vec<(u64, u64)> = Vec::new();
    if check_reserved(data) {
        if let Some(limits) = blob::read_limits_in(data, "/reserved-memory") {
            reserved = children_of(data, "/reserved-memory", limits.as_slice());
        }
        reservations = blob::memory_reservations(data);
    }
    let total_size: usize = blob::total_size(data);
    Some(FdtTree { root, chosen, chosen_at_0, nodes, reserved, reservations, total_size })
}

/// What was found in a tree while the machine starts.
#[derive(Debug)]
pub struct FdtScan {
    /// What is appended to the command line.
    pub bootargs: Option<Vec<u8>>,
    /// The memory, as pairs of address and size.
    pub memory: Vec<(u64, u64)>,
}

/// The memory that is kept from being used while the machine starts, in the order in which it is.
#[derive(Debug)]
pub struct FdtReserved {
    /// What the tree itself takes.
    pub own: (usize, usize),
    /// What the tree lists.
    pub listed: Vec<(u64, u64)>,
    /// What the nodes for reserved memory name.
    pub named: Vec<ReservedRange>,
}

/// The pairs whose size is not zero.
pub open spec fn sized(entries: Seq<(u64, u64)>) -> Seq<(u64, u64)> {
    entries.filter(|entry: (u64, u64)| entry.1 != 0)
}

/// What a driver of trees keeps.
#[derive(Clone, Copy, Debug, PartialEq, Eq, Structural)]
pub struct InnerOpenFirmwareFdtDriver {
    /// Where the tree is mapped.
    pub fdt_map_guard: Option<usize>,
}

/// The driver of trees.
#[derive(Clone, Copy, Debug, PartialEq, Eq, Structural)]
pub struct OpenFirmwareFdtDriver {
    pub inner: InnerOpenFirmwareFdtDriver,
}

/// The driver of trees, before any tree is mapped.
pub fn open_firmware_fdt_driver() -> (r: OpenFirmwareFdtDriver)
    ensures
        r.inner.fdt_map_guard is None,
{
    OpenFirmwareFdtDriver { inner: InnerOpenFirmwareFdtDriver { fdt_map_guard: None } }
}

/// The number of cells that a node gives for something, or the one that was known before.
pub open spec fn cells_after(node: NodeView, name: Seq<char>, before: u32) -> u32 {
    match property_of(node, name) {
        Some(value) => cells_in(value)->0,
        None => before,
    }
}

/// What a node gives for something can be read as a number.
pub open spec fn cells_ok(node: NodeView, name: Seq<char>) -> bool {
    decided(node, name) && (property_of(node, name) is Some ==> cells_in(
        property_of(node, name)->0,
    ) is Some)
}

/// The command line that a node gives.
pub open spec fn bootargs_of(node: Option<NodeView>) -> Option<Seq<u8>> {
    match node {
        Some(n) => match property_of(n, "bootargs"@) {
            Some(value) => Some(blob::text_of(value)),
            None => None,
        },
        None => None,
    }
}

/// Where the first kind of chosen node is missing, the second counts.
pub open spec fn chosen_of(chosen: Option<NodeView>, chosen_at_0: Option<NodeView>) -> Option<
    NodeView,
> {
    if chosen is Some {
        chosen
    } else {
        chosen_at_0
    }
}

/// The command line that a node gives can be told, and is text.
pub open spec fn bootargs_ok(node: Option<NodeView>) -> bool {
    node matches Some(n) ==> decided(n, "bootargs"@) && (property_of(n, "bootargs"@) matches Some(
        value,
    ) ==> utf8::valid_utf8(value))
}

/// A tree can be looked at while the machine starts, where so much is known before: what it gives as
/// numbers and as text can be read as such, and so can the regions of all its nodes for memory.
pub open spec fn scannable(tree: FdtTree, known: FdtGlobalData) -> bool {
    &&& tree.root is Some
    &&& cells_ok((tree.root->0)@, "#size-cells"@)
    &&& cells_ok((tree.root->0)@, "#address-cells"@)
    &&& bootargs_ok(chosen_of(option_view(tree.chosen), option_view(tree.chosen_at_0)))
    &&& forall|i: int|
        #![trigger tree.nodes@[i]]
        0 <= i < tree.nodes@.len() ==> memory_readable(
            tree.nodes@[i]@,
            cells_after((tree.root->0)@, "#address-cells"@, known.root_addr_cells) as int,
            cells_after((tree.root->0)@, "#size-cells"@, known.root_size_cells) as int,
        )
}

/// What looking at a tree finds, where `before` was known before and `after` is known afterwards.
pub open spec fn scanned(
    tree: FdtTree,
    before: FdtGlobalData,
    after: FdtGlobalData,
    scan: FdtScan,
) -> bool {
    let chosen = chosen_of(option_view(tree.chosen), option_view(tree.chosen_at_0));
    &&& after.root_addr_cells == cells_after(
        (tree.root->0)@,
        "#address-cells"@,
        before.root_addr_cells,
    )
    &&& after.root_size_cells == cells_after(
        (tree.root->0)@,
        "#size-cells"@,
        before.root_size_cells,
    )
    &&& if tree.chosen is Some {
        after.chosen_node_name is Some && (after.chosen_node_name->0)@ == "/chosen"@
    } else if tree.chosen_at_0 is Some {
        after.chosen_node_name is Some && (after.chosen_node_name->0)@ == "/chosen@0"@
    } else {
        after.chosen_node_name == before.chosen_node_name
    }
    &&& match scan.bootargs {
        Some(text) => bootargs_of(chosen) == Some(text@),
        None => bootargs_of(chosen) is None,
    }
    &&& scan.memory@ == all_memory(
        nodes_view(tree.nodes@),
        after.root_addr_cells as int,
        after.root_size_cells as int,
    )
}

/// The memory that a tree at `fdt_paddr` keeps from being used can be read.
pub open spec fn reserved_scannable(tree: FdtTree, fdt_paddr: usize, known: FdtGlobalData) -> bool {
    &&& fdt_paddr % PAGE_SIZE + tree.total_size + (PAGE_SIZE - 1) <= usize::MAX
    &&& tree.reserved is Some
    &&& forall|i: int|
        #![trigger (tree.reserved->0)@[i]]
        0 <= i < (tree.reserved->0)@.len() ==> usable_readable(
            (tree.reserved->0)@[i]@,
            known.root_addr_cells as int,
            known.root_size_cells as int,
        )
}

/// Memory as it is given to the allocator: whole pages between the bounds.
pub open spec fn page_bounds(base: usize, size: usize) -> (int, int) {
    let off = base % 4096;
    let rest = if off == 0 {
        size as int
    } else {
        size - (4096 - off)
    };
    (base - off, rest - rest % 4096)
}

/// The size of memory at `base` that ends at `max` at the latest.
pub open spec fn capped(base: int, size: int, max: usize) -> int {
    if base + size - 1 > max {
        max - base + 1
    } else {
        size
    }
}

impl OpenFirmwareFdtDriver {
    /// Notes where the tree is mapped.
    pub fn set_fdt_map_guard(&mut self, guard: Option<usize>)
        ensures
            *final(self) == (OpenFirmwareFdtDriver {
                inner: InnerOpenFirmwareFdtDriver { fdt_map_guard: guard },
            }),
    {
        self.inner.fdt_map_guard = guard;
    }

    /// Reads the tree that firmware gave, if it gave one.
    pub fn fdt_ref(&self, data: Option<&[u8]>) -> (r: Result<FdtTree, SystemError>)
        ensures
            match r {
                Ok(tree) => data is Some && blob::header_ok((data->0)@) && tree.is_of(
                    (data->0)@,
                ),
                Err(e) => if data is None {
                    e == SystemError::ENODEV
                } else {
                    !blob::header_ok((data->0)@) && e == SystemError::EINVAL
                },
            },
    {
        match data {
            None => Err(SystemError::ENODEV),
            Some(bytes) => match read_tree(bytes) {
                Some(tree) => Ok(tree),
                None => Err(SystemError::EINVAL),
            },
        }
    }

    /// Takes from the root how many cells numbers have.
    pub fn early_init_scan_root(&self, root: &Option<FdtNode>, known: &mut FdtGlobalData) -> (r:
        Result<(), SystemError>)
        requires
            *root matches Some(node) ==> cells_ok(node@, "#size-cells"@) && cells_ok(
                node@,
                "#address-cells"@,
            ),
        ensures
            match *root {
                None => r == Err::<(), SystemError>(SystemError::ENODEV) && *final(known) == *old(
                    known,
                ),
                Some(node) => {
                    &&& r == Ok::<(), SystemError>(())
                    &&& *final(known) == (FdtGlobalData {
                        root_size_cells: cells_after(
                            node@,
                            "#size-cells"@,
                            old(known).root_size_cells,
                        ),
                        root_addr_cells: cells_after(
                            node@,
                            "#address-cells"@,
                            old(known).root_addr_cells,
                        ),
                        ..*old(known)
                    })
                },
            },
    {
        match root {
            None => Err(SystemError::ENODEV),
            Some(node) => {
                if let Some(value) = node.property("#size-cells") {
                    if let Some(cells) = read_cells(value) {
                        known.root_size_cells = cells;
                    }
                }
                if let Some(value) = node.property("#address-cells") {
                    if let Some(cells) = read_cells(value) {
                        known.root_addr_cells = cells;
                    }
                }
                Ok(())
            },
        }
    }

    /// Takes the command line from the node for what was chosen, which has one of two paths.
    pub fn early_init_scan_chosen(
        &self,
        chosen: &Option<FdtNode>,
        chosen_at_0: &Option<FdtNode>,
        known: &mut FdtGlobalData,
    ) -> (r: Option<Vec<u8>>)
        requires
            bootargs_ok(chosen_of(option_view(*chosen), option_view(*chosen_at_0))),
        ensures
            match r {
                Some(text) => bootargs_of(
                    chosen_of(option_view(*chosen), option_view(*chosen_at_0)),
                ) == Some(text@),
                None => bootargs_of(
                    chosen_of(option_view(*chosen), option_view(*chosen_at_0)),
                ) is None,
            },
            *final(known) == (FdtGlobalData {
                chosen_node_name: final(known).chosen_node_name,
                ..*old(known)
            }),
            if *chosen is Some {
                final(known).chosen_node_name is Some && (final(known).chosen_node_name->0)@
                    == "/chosen"@
            } else if *chosen_at_0 is Some {
                final(known).chosen_node_name is Some && (final(known).chosen_node_name->0)@
                    == "/chosen@0"@
            } else {
                final(known).chosen_node_name == old(known).chosen_node_name
            },
    {
        let node: &Option<FdtNode> = if chosen.is_some() {
            known.chosen_node_name = Some("/chosen");
            chosen
        } else {
            if chosen_at_0.is_some() {
                known.chosen_node_name = Some("/chosen@0");
            }
            chosen_at_0
        };
        match node {
            Some(node) => match node.property("bootargs") {
                Some(value) => Some(trimmed(value)),
                None => None,
            },
            None => None,
        }
    }

    /// Whether the device of a node can be used.
    pub fn is_device_avaliable(&self, node: &FdtNode) -> (r: bool)
        requires
            decided(node@, "status"@),
        ensures
            r == available(node@),
    {
        match node.property("status") {
            None => true,
            Some(status) => {
                let okay: [u8; 4] = [0x6f, 0x6b, 0x61, 0x79];
                let ok: [u8; 2] = [0x6f, 0x6b];
                assert(okay@ =~= okay_text());
                assert(ok@ =~= ok_text());
                has_text(status, array_as_slice(&okay)) || has_text(status, array_as_slice(&ok))
            },
        }
    }

    /// The regions of a node for memory that can be used.
    fn find_memory_reg<'a>(&self, node: &'a FdtNode) -> (r: Option<&'a Vec<u8>>)
        requires
            memory_decided(node@),
        ensures
            match r {
                Some(reg) => memory_reg(node@) == Some(reg@),
                None => memory_reg(node@) is None,
            },
    {
        match node.property("device_type") {
            None => None,
            Some(kind) => {
                let memory: [u8; 6] = [0x6d, 0x65, 0x6d, 0x6f, 0x72, 0x79];
                assert(memory@ =~= memory_text());
                if !has_text(kind, array_as_slice(&memory)) || !self.is_device_avaliable(node) {
                    return None;
                }
                node.property("reg")
            },
        }
    }

    /// The regions of a property that are not empty, at steps of so many bytes.
    fn read_regions(
        &self,
        reg: &Vec<u8>,
        addr_cells: usize,
        size_cells: usize,
        step: usize,
        count: usize,
    ) -> (r: Vec<(u64, u64)>)
        requires
            count > 0 ==> readable(addr_cells as int, size_cells as int) && (count - 1) * step + (
            addr_cells + size_cells) * 4 <= reg@.len(),
        ensures
            r@ == regions(
                reg@,
                addr_cells as int,
                size_cells as int,
                step as int,
                count as nat,
            ),
    {
        let mut found: Vec<(u64, u64)> = Vec::new();
        let length: usize = reg.len();
        let mut i: usize = 0;
        let mut base_index: usize = 0;
        while i < count
            invariant
                0 <= i <= count,
                length == reg@.len(),
                i < count ==> base_index == i * step,
                count > 0 ==> readable(addr_cells as int, size_cells as int) && (count - 1) * step
                    + (addr_cells + size_cells) * 4 <= reg@.len(),
                found@ == regions(
                    reg@,
                    addr_cells as int,
                    size_cells as int,
                    step as int,
                    i as nat,
                ),
            decreases count - i,
        {
            proof {
                assert(i * step <= (count - 1) * step) by (nonlinear_arith)
                    requires
                        i <= count - 1,
                ;
            }
            let (base, next): (u64, usize) = read_cell(reg.as_slice(), base_index, addr_cells);
            let (size, _): (u64, usize) = read_cell(reg.as_slice(), next, size_cells);
            if size != 0 {
                found.push((base, size));
            }
            proof {
                assert((i + 1) * step == i * step + step) by (nonlinear_arith);
                if i + 1 < count {
                    assert((i + 1) * step <= (count - 1) * step) by (nonlinear_arith)
                        requires
                            i + 1 <= count - 1,
                    ;
                }
            }
            i = i + 1;
            if i < count {
                base_index = base_index + step;
            }
        }
        found
    }

    /// The memory that all nodes for memory describe. There is none if the list is empty.
    pub fn early_init_scan_memory(&self, nodes: &Vec<FdtNode>, known: &FdtGlobalData) -> (r: Vec<
        (u64, u64),
    >)
        requires
            forall|i: int|
                #![trigger nodes@[i]]
                0 <= i < nodes@.len() ==> memory_readable(
                    nodes@[i]@,
                    known.root_addr_cells as int,
                    known.root_size_cells as int,
                ),
        ensures
            r@ == all_memory(
                nodes_view(nodes@),
                known.root_addr_cells as int,
                known.root_size_cells as int,
            ),
    {
        let mut found: Vec<(u64, u64)> = Vec::new();
        let ghost views = nodes_view(nodes@);
        let ghost a = known.root_addr_cells as int;
        let ghost s = known.root_size_cells as int;
        let mut i: usize = 0;
        while i < nodes.len()
            invariant
                0 <= i <= nodes@.len(),
                views == nodes_view(nodes@),
                a == known.root_addr_cells,
                s == known.root_size_cells,
                forall|j: int|
                    #![trigger nodes@[j]]
                    0 <= j < nodes@.len() ==> memory_readable(nodes@[j]@, a, s),
                found@ == all_memory(views.take(i as int), a, s),
            decreases nodes@.len() - i,
        {
            let node: &FdtNode = &nodes[i];
            proof {
                assert(views.take(i + 1).drop_last() =~= views.take(i as int));
                assert(views.take(i + 1).last() == node@);
            }
            match self.find_memory_reg(node) {
                Some(reg) => {
                    let step: u64 = (known.root_addr_cells as u64 + known.root_size_cells as u64)
                        * 4;
                    let total: u64 = reg.len() as u64 / step;
                    assert(total == region_count(reg@, a, s)) by {
                        assert(reg@.len() as int / ((a + s) * 4) >= 0);
                    }
                    if total > 0 {
                        proof {
                            let t = total as int;
                            let u = (a + s) * 4;
                            let n = reg@.len() as int;
                            assert(t * u <= n) by (nonlinear_arith)
                                requires
                                    t == n / u,
                                    u > 0,
                                    n >= 0,
                            ;
                            assert((t - 1) * u + u == t * u) by (nonlinear_arith);
                        }
                        let mut blocks: Vec<(u64, u64)> = self.read_regions(
                            reg,
                            known.root_addr_cells as usize,
                            known.root_size_cells as usize,
                            step as usize,
                            total as usize,
                        );
                        found.append(&mut blocks);
                    } else {
                        assert(found@ + node_memory(node@, a, s) =~= found@);
                    }
                },
                None => {
                    assert(found@ + node_memory(node@, a, s) =~= found@);
                },
            }
            i = i + 1;
        }
        assert(views.take(views.len() as int) =~= views);
        found
    }

    /// The number of cells that a node gives for something, or the one that was known before, unless
    /// what it gives is no number.
    fn cells_given(&self, node: &FdtNode, name: &str, before: u32) -> (r: Option<u32>)
        ensures
            r is Some <==> cells_ok(node@, name@),
            r matches Some(cells) ==> cells == cells_after(node@, name@, before),
    {
        match node.property(name) {
            Some(value) => read_cells(value),
            None => if node.complete {
                Some(before)
            } else {
                None
            },
        }
    }

    /// Whether it can be told if a node is one for memory that can be used, and what its regions are.
    fn is_memory_decided(&self, node: &FdtNode) -> (r: bool)
        ensures
            r == memory_decided(node@),
    {
        match node.property("device_type") {
            None => node.complete,
            Some(kind) => {
                let memory: [u8; 6] = [0x6d, 0x65, 0x6d, 0x6f, 0x72, 0x79];
                assert(memory@ =~= memory_text());
                !has_text(kind, array_as_slice(&memory)) || (node.is_decided("status") && (
                !self.is_device_avaliable(node) || node.is_decided("reg")))
            },
        }
    }

    /// Whether the regions of a node for memory can be read.
    fn is_memory_readable(&self, node: &FdtNode, addr_cells: u32, size_cells: u32) -> (r: bool)
        ensures
            r == memory_readable(node@, addr_cells as int, size_cells as int),
    {
        if !self.is_memory_decided(node) {
            return false;
        }
        match self.find_memory_reg(node) {
            None => true,
            Some(reg) => {
                let step: u64 = (addr_cells as u64 + size_cells as u64) * 4;
                step > 0 && (reg.len() as u64 / step == 0 || (1 <= addr_cells && addr_cells <= 2
                    && 1 <= size_cells && size_cells <= 2))
            },
        }
    }

    /// Whether the regions of a reserved node can be read.
    fn is_reserve_readable(&self, node: &FdtNode, addr_cells: u32, size_cells: u32) -> (r: bool)
        ensures
            r == reserve_readable(node@, addr_cells as int, size_cells as int),
    {
        match node.property("reg") {
            None => node.complete,
            Some(reg) => {
                let step: u64 = (addr_cells as u64 + size_cells as u64) * 4;
                step > 0 && (reg.len() as u64 % step != 0 || node.is_decided("no-map")) && (
                reg.len() as u64 / step == 0 || reg.len() as u64 % step != 0 || (1 <= addr_cells
                    && addr_cells <= 2 && 1 <= size_cells && size_cells <= 2))
            },
        }
    }

    /// Whether a reserved node can be used can be told, and its regions can then be read.
    fn is_usable_readable(&self, node: &FdtNode, addr_cells: u32, size_cells: u32) -> (r: bool)
        ensures
            r == usable_readable(node@, addr_cells as int, size_cells as int),
    {
        node.is_decided("status") && (!self.is_device_avaliable(node)
            || self.is_reserve_readable(node, addr_cells, size_cells))
    }

    /// Whether a tree can be looked at while the machine starts.
    pub fn can_scan(&self, tree: &FdtTree, known: &FdtGlobalData) -> (r: bool)
        ensures
            r == scannable(*tree, *known),
    {
        let root = match &tree.root {
            Some(root) => root,
            None => {
                return false;
            },
        };
        let size_cells: u32 = match self.cells_given(root, "#size-cells", known.root_size_cells) {
            Some(cells) => cells,
            None => {
                return false;
            },
        };
        let addr_cells: u32 = match self.cells_given(root, "#address-cells", known.root_addr_cells) {
            Some(cells) => cells,
            None => {
                return false;
            },
        };
        let chosen: &Option<FdtNode> = if tree.chosen.is_some() {
            &tree.chosen
        } else {
            &tree.chosen_at_0
        };
        if let Some(node) = chosen {
            let readable = match node.property("bootargs") {
                Some(value) => blob::is_utf8(value.as_slice()),
                None => node.complete,
            };
            if !readable {
                return false;
            }
        }
        let mut i: usize = 0;
        while i < tree.nodes.len()
            invariant
                0 <= i <= tree.nodes@.len(),
                tree.root is Some,
                addr_cells == cells_after(
                    (tree.root->0)@,
                    "#address-cells"@,
                    known.root_addr_cells,
                ),
                size_cells == cells_after((tree.root->0)@, "#size-cells"@, known.root_size_cells),
                forall|j: int|
                    #![trigger tree.nodes@[j]]
                    0 <= j < i ==> memory_readable(
                        tree.nodes@[j]@,
                        addr_cells as int,
                        size_cells as int,
                    ),
            decreases tree.nodes@.len() - i,
        {
            if !self.is_memory_readable(&tree.nodes[i], addr_cells, size_cells) {
                return false;
            }
            i = i + 1;
        }
        true
    }

    /// Whether the memory that a tree at `fdt_paddr` keeps from being used can be read.
    pub fn can_scan_reserved(&self, tree: &FdtTree, fdt_paddr: usize, known: &FdtGlobalData) -> (r:
        bool)
        ensures
            r == reserved_scannable(*tree, fdt_paddr, *known),
    {
        if tree.total_size > usize::MAX - (PAGE_SIZE - 1) - fdt_paddr % PAGE_SIZE {
            return false;
        }
        let nodes: &Vec<FdtNode> = match &tree.reserved {
            Some(nodes) => nodes,
            None => {
                return false;
            },
        };
        let mut i: usize = 0;
        while i < nodes.len()
            invariant
                0 <= i <= nodes@.len(),
                tree.reserved == Some(*nodes),
                fdt_paddr % PAGE_SIZE + tree.total_size + (PAGE_SIZE - 1) <= usize::MAX,
                forall|j: int|
                    #![trigger nodes@[j]]
                    0 <= j < i ==> usable_readable(
                        nodes@[j]@,
                        known.root_addr_cells as int,
                        known.root_size_cells as int,
                    ),
            decreases nodes@.len() - i,
        {
            if !self.is_usable_readable(
                &nodes[i],
                known.root_addr_cells,
                known.root_size_cells,
            ) {
                assert((tree.reserved->0)@[i as int] == nodes@[i as int]);
                return false;
            }
            i = i + 1;
        }
        true
    }

    /// Looks at a tree while the machine starts: how many cells numbers have, what is appended to
    /// the command line, and which memory there is.
    pub fn early_init_scan_nodes(&self, tree: &FdtTree, known: &mut FdtGlobalData) -> (r: FdtScan)
        requires
            scannable(*tree, *old(known)),
        ensures
            scanned(*tree, *old(known), *final(known), r),
    {
        let _root = self.early_init_scan_root(&tree.root, known);
        let bootargs = self.early_init_scan_chosen(&tree.chosen, &tree.chosen_at_0, known);
        let memory = self.early_init_scan_memory(&tree.nodes, known);
        FdtScan { bootargs, memory }
    }

    /// Looks at the tree that firmware gave, if it gave one, while the machine starts. `None` means
    /// that the tree cannot be looked at, so that the machine cannot start with it.
    pub fn early_scan_device_tree(&self, data: Option<&[u8]>, known: &mut FdtGlobalData) -> (r:
        Result<Option<FdtScan>, SystemError>)
        ensures
            r == Err::<Option<FdtScan>, SystemError>(SystemError::ENODEV) <==> data is None,
            r == Err::<Option<FdtScan>, SystemError>(SystemError::EINVAL) <==> data is Some
                && !blob::header_ok((data->0)@),
            r matches Err(e) ==> (e == SystemError::ENODEV || e == SystemError::EINVAL)
                && *final(known) == *old(known),
            r matches Ok(found) ==> exists|tree: FdtTree| #[trigger]
                tree.is_of((data->0)@) && match found {
                    Some(scan) => scannable(tree, *old(known)) && scanned(
                        tree,
                        *old(known),
                        *final(known),
                        scan,
                    ),
                    None => !scannable(tree, *old(known)) && *final(known) == *old(known),
                },
    {
        let tree = match self.fdt_ref(data) {
            Ok(tree) => tree,
            Err(error) => {
                return Err(error);
            },
        };
        assert(tree.is_of((data->0)@));
        if self.can_scan(&tree, known) {
            Ok(Some(self.early_init_scan_nodes(&tree, known)))
        } else {
            Ok(None)
        }
    }

    /// The memory that is given to the allocator of a region at `base`: whole pages that lie between
    /// `min` and `max`. There may be none.
    pub fn early_init_dt_add_memory(&self, base: usize, size: usize, min: usize, max: usize) -> (r:
        Option<(usize, usize)>)
        requires
            base % PAGE_SIZE != 0 ==> size >= PAGE_SIZE - base % PAGE_SIZE,
            ({
                let pages = page_bounds(base, size);
                &&& 1 <= pages.0 + pages.1 <= usize::MAX
                &&& pages.0 + pages.1 - 1 > max ==> pages.0 <= max
            }),
        ensures
            ({
                let pages = page_bounds(base, size);
                let size = capped(pages.0, pages.1, max);
                match r {
                    None => pages.0 + size < min,
                    Some(block) => {
                        &&& pages.0 + size >= min
                        &&& block.0 == (if pages.0 < min {
                            min as int
                        } else {
                            pages.0
                        })
                        &&& block.0 + block.1 == pages.0 + size
                    },
                }
            }),
            // What is given lies between the bounds and, but for the start of its first page, in the
            // region.
            r matches Some(block) ==> {
                &&& block.0 >= min
                &&& block.0 + block.1 <= max + 1
                &&& block.0 + base % PAGE_SIZE >= base
                &&& block.0 + block.1 <= base + size
                &&& block.0 > min ==> block.0 % PAGE_SIZE == 0 && block.0 <= base
            },
    {
        let off: usize = base % PAGE_SIZE;
        let mut base: usize = base;
        let mut size: usize = size;
        if off != 0 {
            size = size - (PAGE_SIZE - off);
            base = base - off;
        }
        size = size - size % PAGE_SIZE;
        if base + size - 1 > max {
            size = max - base + 1;
        }
        if base + size < min {
            return None;
        }
        if base < min {
            size = size - (min - base);
            base = min;
        }
        Some((base, size))
    }

    /// The memory that the tree itself takes, in whole pages, where it is at `fdt_paddr`.
    pub fn early_reserve_fdt_itself(&self, fdt_paddr: usize, total_size: usize) -> (r: (
        usize,
        usize,
    ))
        requires
            fdt_paddr % PAGE_SIZE + total_size + (PAGE_SIZE - 1) <= usize::MAX,
        ensures
            r.0 == fdt_paddr - fdt_paddr % PAGE_SIZE,
            r.1 == (fdt_paddr % PAGE_SIZE + total_size + (PAGE_SIZE - 1)) / PAGE_SIZE as int
                * PAGE_SIZE,
            // The pages are whole, they hold the tree, and no page could be left out.
            r.0 % PAGE_SIZE == 0,
            r.1 % PAGE_SIZE == 0,
            r.0 <= fdt_paddr < r.0 + PAGE_SIZE,
            fdt_paddr + total_size <= r.0 + r.1 < fdt_paddr + total_size + PAGE_SIZE,
    {
        let off: usize = fdt_paddr % PAGE_SIZE;
        let start: usize = fdt_paddr - off;
        let end: usize = off + total_size + (PAGE_SIZE - 1);
        (start, end / PAGE_SIZE * PAGE_SIZE)
    }

    /// The memory that a tree keeps from being used, where the tree is at `fdt_paddr`. A machine
    /// without a tree keeps none.
    pub fn early_init_fdt_scan_reserved_mem(
        &self,
        tree: &Option<FdtTree>,
        fdt_paddr: usize,
        known: &FdtGlobalData,
    ) -> (r: Option<FdtReserved>)
        requires
            *tree matches Some(tree) ==> reserved_scannable(tree, fdt_paddr, *known),
        ensures
            r is Some <==> *tree is Some,
            r matches Some(kept) ==> {
                let tree = tree->0;
                &&& kept.own.0 == fdt_paddr - fdt_paddr % PAGE_SIZE
                &&& kept.own.1 == (fdt_paddr % PAGE_SIZE + tree.total_size + (PAGE_SIZE - 1))
                    / PAGE_SIZE as int * PAGE_SIZE
                &&& kept.listed@ == sized(tree.reservations@)
                &&& kept.named@ == all_reserved(
                    nodes_view((tree.reserved->0)@),
                    known.root_addr_cells as int,
                    known.root_size_cells as int,
                )
            },
    {
        let tree = match tree {
            Some(tree) => tree,
            None => {
                return None;
            },
        };
        let own = self.early_reserve_fdt_itself(fdt_paddr, tree.total_size);
        let mut listed: Vec<(u64, u64)> = Vec::new();
        let ghost has_size = |entry: (u64, u64)| entry.1 != 0;
        let ghost all = tree.reservations@;
        let mut i: usize = 0;
        proof {
            reveal(Seq::filter);
            assert(all.take(0).filter(has_size) =~= Seq::empty());
        }
        while i < tree.reservations.len()
            invariant
                i <= all.len(),
                all == tree.reservations@,
                has_size == (|entry: (u64, u64)| entry.1 != 0),
                listed@ == all.take(i as int).filter(has_size),
            decreases all.len() - i,
        {
            let entry: (u64, u64) = tree.reservations[i];
            proof {
                reveal(Seq::filter);
                assert(all.take(i + 1).drop_last() =~= all.take(i as int));
            }
            if entry.1 != 0 {
                listed.push(entry);
            }
            i = i + 1;
        }
        proof {
            assert(all.take(all.len() as int) =~= all);
        }
        match self.fdt_scan_reserved_mem(&tree.reserved, known) {
            Ok(named) => Some(FdtReserved { own, listed, named }),
            Err(_) => None,
        }
    }

    /// How memory is kept from being used. Memory that is used and kept already must not be made
    /// impossible to map; what is no memory may be.
    pub fn early_init_dt_reserve_memory(
        &self,
        nomap: bool,
        overlapped: bool,
        overlapped_with_reserved: bool,
    ) -> (r: ReserveStep)
        ensures
            r == (if !nomap {
                ReserveStep::Reserve
            } else if overlapped && overlapped_with_reserved {
                ReserveStep::Refuse(SystemError::EBUSY)
            } else {
                ReserveStep::MarkNomap
            }),
    {
        if nomap {
            if overlapped && overlapped_with_reserved {
                return ReserveStep::Refuse(SystemError::EBUSY);
            }
            return ReserveStep::MarkNomap;
        }
        ReserveStep::Reserve
    }

    /// The memory that the reserved nodes of a tree name, as far as they can be used and read.
    pub fn fdt_scan_reserved_mem(
        &self,
        children: &Option<Vec<FdtNode>>,
        known: &FdtGlobalData,
    ) -> (r: Result<Vec<ReservedRange>, SystemError>)
        requires
            *children matches Some(nodes) ==> forall|i: int|
                #![trigger nodes@[i]]
                0 <= i < nodes@.len() ==> usable_readable(
                    nodes@[i]@,
                    known.root_addr_cells as int,
                    known.root_size_cells as int,
                ),
        ensures
            match *children {
                None => r == Err::<Vec<ReservedRange>, SystemError>(SystemError::ENODEV),
                Some(nodes) => r is Ok && (r->Ok_0)@ == all_reserved(
                    nodes_view(nodes@),
                    known.root_addr_cells as int,
                    known.root_size_cells as int,
                ),
            },
    {
        let nodes: &Vec<FdtNode> = match children {
            None => return Err(SystemError::ENODEV),
            Some(nodes) => nodes,
        };
        let mut found: Vec<ReservedRange> = Vec::new();
        let ghost views = nodes_view(nodes@);
        let ghost a = known.root_addr_cells as int;
        let ghost s = known.root_size_cells as int;
        let mut i: usize = 0;
        while i < nodes.len()
            invariant
                0 <= i <= nodes@.len(),
                views == nodes_view(nodes@),
                a == known.root_addr_cells,
                s == known.root_size_cells,
                forall|j: int|
                    #![trigger nodes@[j]]
                    0 <= j < nodes@.len() ==> usable_readable(nodes@[j]@, a, s),
                found@ == all_reserved(views.take(i as int), a, s),
            decreases nodes@.len() - i,
        {
            let node: &FdtNode = &nodes[i];
            let ghost before = found@;
            proof {
                assert(views.take(i + 1).drop_last() =~= views.take(i as int));
                assert(views.take(i + 1).last() == node@);
            }
            if self.is_device_avaliable(node) {
                if let Ok(ranges) = reserved_mem_reserve_reg(node, known) {
                    let mut ranges: Vec<ReservedRange> = ranges;
                    found.append(&mut ranges);
                }
            }
            i = i + 1;
            assert(found@ =~= all_reserved(views.take(i as int), a, s));
        }
        assert(views.take(views.len() as int) =~= views);
        Ok(found)
    }

    /// The positions of the nodes that are compatible with something.
    pub fn find_node_by_compatible(&self, nodes: &Vec<FdtNode>, compatible: &Vec<u8>) -> (r: Vec<
        usize,
    >)
        requires
            forall|i: int| 0 <= i < nodes@.len() ==> (#[trigger] nodes@[i]).complete,
        ensures
            forall|i: int, j: int| 0 <= i < j < r@.len() ==> r@[i] < r@[j],
            forall|i: int|
                0 <= i < r@.len() ==> #[trigger] r@[i] < nodes@.len() && is_compatible(
                    nodes@[r@[i] as int]@,
                    compatible@,
                ),
            forall|k: int|
                #![trigger nodes@[k]]
                0 <= k < nodes@.len() && is_compatible(nodes@[k]@, compatible@) ==> r@.contains(
                    k as usize,
                ),
    {
        let mut found: Vec<usize> = Vec::new();
        let mut i: usize = 0;
        while i < nodes.len()
            invariant
                0 <= i <= nodes@.len(),
                forall|k: int| 0 <= k < nodes@.len() ==> (#[trigger] nodes@[k]).complete,
                forall|a: int, b: int| 0 <= a < b < found@.len() ==> found@[a] < found@[b],
                forall|a: int|
                    0 <= a < found@.len() ==> #[trigger] found@[a] < i && is_compatible(
                        nodes@[found@[a] as int]@,
                        compatible@,
                    ),
                forall|k: int|
                    #![trigger nodes@[k]]
                    0 <= k < i && is_compatible(nodes@[k]@, compatible@) ==> found@.contains(
                        k as usize,
                    ),
            decreases nodes@.len() - i,
        {
            let ghost before = found@;
            if node_is_compatible(&nodes[i], compatible) {
                found.push(i);
                proof {
                    assert(found@[before.len() as int] == i);
                    assert forall|k: int|
                        #![trigger nodes@[k]]
                        0 <= k < i + 1 && is_compatible(
                            nodes@[k]@,
                            compatible@,
                        ) implies found@.contains(k as usize) by {
                        if k < i {
                            let at = choose|at: int|
                                0 <= at < before.len() && before[at] == k as usize;
                            assert(found@[at] == k as usize);
                        }
                    }
                }
            }
            i = i + 1;
        }
        found
    }
}

/// The memory that a property names, with how it is kept.
pub open spec fn ranges_of(entries: Seq<(u64, u64)>, nomap: bool) -> Seq<ReservedRange> {
    entries.map_values(|e: (u64, u64)| ReservedRange { base: e.0, size: e.1, nomap })
}

/// The memory that a reserved node names. It must name whole regions.
pub open spec fn node_reserved(node: NodeView, addr_cells: int, size_cells: int) -> Result<
    Seq<ReservedRange>,
    SystemError,
> {
    let step = (addr_cells + size_cells) * 4;
    match property_of(node, "reg"@) {
        None => Err(SystemError::ENOENT),
        Some(reg) => if reg.len() > 0 && reg.len() as int % step != 0 {
            Err(SystemError::EINVAL)
        } else {
            Ok(
                ranges_of(
                    regions(
                        reg,
                        addr_cells,
                        size_cells,
                        step,
                        region_count(reg, addr_cells, size_cells),
                    ),
                    property_of(node, "no-map"@) is Some,
                ),
            )
        },
    }
}

/// The regions of a reserved node can be told, and read.
pub open spec fn reserve_readable(node: NodeView, addr_cells: int, size_cells: int) -> bool {
    &&& decided(node, "reg"@)
    &&& property_of(node, "reg"@) matches Some(reg) ==> {
        let whole = reg.len() as int % ((addr_cells + size_cells) * 4) == 0;
        &&& addr_cells + size_cells > 0
        &&& whole ==> decided(node, "no-map"@)
        &&& whole && region_count(reg, addr_cells, size_cells) > 0 ==> readable(
            addr_cells,
            size_cells,
        )
    }
}

/// Whether a reserved node can be used can be told, and its regions can then be read.
pub open spec fn usable_readable(node: NodeView, addr_cells: int, size_cells: int) -> bool {
    decided(node, "status"@) && (available(node) ==> reserve_readable(
        node,
        addr_cells,
        size_cells,
    ))
}

/// The memory that all reserved nodes name.
pub open spec fn all_reserved(nodes: Seq<NodeView>, addr_cells: int, size_cells: int) -> Seq<
    ReservedRange,
>
    decreases nodes.len(),
{
    if nodes.len() == 0 {
        Seq::empty()
    } else {
        let before = all_reserved(nodes.drop_last(), addr_cells, size_cells);
        let node = nodes.last();
        if available(node) && node_reserved(node, addr_cells, size_cells) is Ok {
            before + node_reserved(node, addr_cells, size_cells)->Ok_0
        } else {
            before
        }
    }
}

/// The memory that a reserved node names, as far as it is not empty.
pub fn reserved_mem_reserve_reg(node: &FdtNode, known: &FdtGlobalData) -> (r: Result<
    Vec<ReservedRange>,
    SystemError,
>)
    requires
        reserve_readable(node@, known.root_addr_cells as int, known.root_size_cells as int),
    ensures
        match r {
            Ok(ranges) => node_reserved(
                node@,
                known.root_addr_cells as int,
                known.root_size_cells as int,
            ) == Ok::<Seq<ReservedRange>, SystemError>(ranges@),
            Err(e) => node_reserved(
                node@,
                known.root_addr_cells as int,
                known.root_size_cells as int,
            ) == Err::<Seq<ReservedRange>, SystemError>(e),
        },
        // Memory is kept from being mapped exactly if the node has a property that says so.
        r matches Ok(ranges) ==> forall|i: int|
            0 <= i < ranges@.len() ==> (#[trigger] ranges@[i]).nomap == has_property(
                node@,
                "no-map"@,
            ) && ranges@[i].size != 0,
{
    proof {
        law_reserved_ranges(node@, known.root_addr_cells as int, known.root_size_cells as int);
    }
    let reg: &Vec<u8> = match node.property("reg") {
        Some(reg) => reg,
        None => return Err(SystemError::ENOENT),
    };
    let ghost a = known.root_addr_cells as int;
    let ghost s = known.root_size_cells as int;
    let step: u64 = (known.root_addr_cells as u64 + known.root_size_cells as u64) * 4;
    let length: u64 = reg.len() as u64;
    if length > 0 && length % step != 0 {
        return Err(SystemError::EINVAL);
    }
    let nomap: bool = node.property("no-map").is_some();
    let total: u64 = length / step;
    let mut ranges: Vec<ReservedRange> = Vec::new();
    let driver = open_firmware_fdt_driver();
    if total > 0 {
        proof {
            let t = total as int;
            let u = step as int;
            let n = length as int;
            assert(t * u <= n) by (nonlinear_arith)
                requires
                    t == n / u,
                    u > 0,
                    n >= 0,
            ;
            assert((t - 1) * u + u == t * u) by (nonlinear_arith);
            assert(n % u == 0);
        }
        let entries: Vec<(u64, u64)> = driver.read_regions(
            reg,
            known.root_addr_cells as usize,
            known.root_size_cells as usize,
            step as usize,
            total as usize,
        );
        let mut i: usize = 0;
        while i < entries.len()
            invariant
                0 <= i <= entries@.len(),
                ranges@ == ranges_of(entries@.take(i as int), nomap),
            decreases entries@.len() - i,
        {
            let entry: (u64, u64) = entries[i];
            ranges.push(ReservedRange { base: entry.0, size: entry.1, nomap });
            i = i + 1;
            assert(ranges@ =~= ranges_of(entries@.take(i as int), nomap));
        }
        assert(entries@.take(entries@.len() as int) =~= entries@);
    } else {
        assert(ranges@ =~= ranges_of(Seq::empty(), nomap));
    }
    proof {
        let named = node_reserved(node@, a, s);
        assert(named == Ok::<Seq<ReservedRange>, SystemError>(ranges@));
        assert(named->Ok_0 == ranges@);
        assert forall|i: int| 0 <= i < ranges@.len() implies (#[trigger] ranges@[i]).nomap
            == has_property(node@, "no-map"@) && ranges@[i].size != 0 by {
            assert((named->Ok_0)[i] == ranges@[i]);
        }
    }
    Ok(ranges)
}

/// The value of the last property with a name.
pub open spec fn last_property(properties: Seq<PropertyView>, name: Seq<char>) -> Option<Seq<u8>>
    decreases properties.len(),
{
    if properties.len() == 0 {
        None
    } else if properties.last().0 == name {
        Some(properties.last().1)
    } else {
        last_property(properties.drop_last(), name)
    }
}

/// One of the texts of a value, which zeros end, is the wanted one. Behind one that is no text,
/// nothing counts.
pub open spec fn lists(value: Seq<u8>, wanted: Seq<u8>) -> bool
    decreases value.len(),
{
    if value.len() == 0 {
        false
    } else {
        match blob::text_end(value, 0) {
            Some(end) => if 0 <= end < value.len() {
                utf8::valid_utf8(value.take(end)) && (value.take(end) == wanted || lists(
                    value.skip(end + 1),
                    wanted,
                ))
            } else {
                false
            },
            None => utf8::valid_utf8(value) && value == wanted,
        }
    }
}

/// The node says that it is compatible with something.
pub open spec fn is_compatible(node: NodeView, wanted: Seq<u8>) -> bool {
    match last_property(node.1, "compatible"@) {
        Some(value) => lists(value, wanted),
        None => false,
    }
}

fn same_bytes(s: &[u8], wanted: &Vec<u8>) -> (r: bool)
    ensures
        r == (s@ == wanted@),
{
    if s.len() != wanted.len() {
        return false;
    }
    let mut i: usize = 0;
    while i < s.len()
        invariant
            0 <= i <= s@.len(),
            s@.len() == wanted@.len(),
            forall|j: int| 0 <= j < i ==> s@[j] == wanted@[j],
        decreases s@.len() - i,
    {
        if s[i] != wanted[i] {
            return false;
        }
        i = i + 1;
    }
    assert(s@ =~= wanted@);
    true
}

proof fn lemma_text_end(s: Seq<u8>, from: int, at: int)
    requires
        0 <= from <= at <= s.len(),
        forall|j: int| from <= j < at ==> s[j] != 0,
    ensures
        blob::text_end(s, from) == blob::text_end(s, at),
    decreases at - from,
{
    if from < at {
        lemma_text_end(s, from + 1, at);
    }
}

fn list_has(value: &Vec<u8>, wanted: &Vec<u8>) -> (r: bool)
    ensures
        r == lists(value@, wanted@),
{
    let mut rest: &[u8] = value.as_slice();
    loop
        invariant
            lists(value@, wanted@) == lists(rest@, wanted@),
        decreases rest@.len(),
    {
        let count: usize = rest.len();
        if count == 0 {
            return false;
        }
        let mut end: usize = 0;
        while end < count && rest[end] != 0
            invariant
                0 <= end <= count,
                count == rest@.len(),
                forall|j: int| 0 <= j < end ==> rest@[j] != 0,
            decreases count - end,
        {
            end = end + 1;
        }
        proof {
            lemma_text_end(rest@, 0, end as int);
        }
        if end == count {
            return is_utf8(rest) && same_bytes(rest, wanted);
        }
        let text: &[u8] = slice_subrange(rest, 0, end);
        assert(text@ =~= rest@.take(end as int));
        if !is_utf8(text) {
            return false;
        }
        if same_bytes(text, wanted) {
            return true;
        }
        let next: &[u8] = slice_subrange(rest, end + 1, count);
        assert(next@ =~= rest@.skip(end + 1));
        rest = next;
    }
}

/// Whether a node says that it is compatible with something.
pub fn node_is_compatible(node: &FdtNode, wanted: &Vec<u8>) -> (r: bool)
    requires
        node.complete,
    ensures
        r == is_compatible(node@, wanted@),
{
    let name: String = "compatible".to_owned();
    let ghost all = node@.1;
    let mut i: usize = node.properties.len();
    assert(all.take(i as int) =~= all);
    while i > 0
        invariant
            0 <= i <= node.properties@.len(),
            name@ == "compatible"@,
            all == node@.1,
            last_property(all, name@) == last_property(all.take(i as int), name@),
        decreases i,
    {
        i = i - 1;
        proof {
            assert(all.take(i + 1).last() == node.properties@[i as int]@);
            assert(all.take(i + 1).drop_last() =~= all.take(i as int));
        }
        if node.properties[i].name == name {
            return list_has(&node.properties[i].value, wanted);
        }
    }
    false
}

/// The node has a property with this name.
pub open spec fn has_property(node: NodeView, name: Seq<char>) -> bool {
    exists|i: int| 0 <= i < node.1.len() && (#[trigger] node.1[i]).0 == name
}

proof fn lemma_first_property(properties: Seq<PropertyView>, name: Seq<char>, from: int)
    requires
        0 <= from <= properties.len(),
    ensures
        match first_property(properties, name, from) {
            Some(value) => exists|i: int|
                from <= i < properties.len() && (#[trigger] properties[i]) == (name, value)
                    && forall|j: int| from <= j < i ==> (#[trigger] properties[j]).0 != name,
            None => forall|j: int|
                from <= j < properties.len() ==> (#[trigger] properties[j]).0 != name,
        },
    decreases properties.len() - from,
{
    if from < properties.len() {
        if properties[from].0 == name {
            assert(properties[from] == (name, properties[from].1));
        } else {
            lemma_first_property(properties, name, from + 1);
            if let Some(value) = first_property(properties, name, from + 1) {
                let i = choose|i: int|
                    from + 1 <= i < properties.len() && (#[trigger] properties[i]) == (name, value)
                        && forall|j: int| from + 1 <= j < i ==> (#[trigger] properties[j]).0 != name;
                assert(properties[i] == (name, value));
            }
        }
    }
}

/// A lookup finds the first property with a name, and fails exactly if there is none.
pub proof fn law_property(node: NodeView, name: Seq<char>)
    ensures
        match property_of(node, name) {
            Some(value) => exists|i: int|
                0 <= i < node.1.len() && (#[trigger] node.1[i]) == (name, value) && forall|j: int|
                    0 <= j < i ==> (#[trigger] node.1[j]).0 != name,
            None => forall|j: int| 0 <= j < node.1.len() ==> (#[trigger] node.1[j]).0 != name,
        },
        property_of(node, name) is Some <==> has_property(node, name),
{
    lemma_first_property(node.1, name, 0);
    if let Some(value) = property_of(node, name) {
        let i = choose|i: int|
            0 <= i < node.1.len() && (#[trigger] node.1[i]) == (name, value) && forall|j: int|
                0 <= j < i ==> (#[trigger] node.1[j]).0 != name;
        assert(node.1[i].0 == name);
    }
}

/// The number that bytes spell, the highest first.
pub open spec fn number_in(bytes: Seq<u8>) -> int
    decreases bytes.len(),
{
    if bytes.len() == 0 {
        0
    } else {
        number_in(bytes.drop_last()) * 256 + bytes.last()
    }
}

proof fn lemma_number_of_four(b: Seq<u8>)
    requires
        b.len() == 4,
    ensures
        number_in(b) == b[0] * 0x100_0000 + b[1] * 0x1_0000 + b[2] * 0x100 + b[3],
{
    reveal_with_fuel(number_in, 5);
    let b3 = b.drop_last();
    let b2 = b3.drop_last();
    let b1 = b2.drop_last();
    assert(b1.drop_last() =~= Seq::<u8>::empty());
}

proof fn lemma_number_join(a: Seq<u8>, b: Seq<u8>)
    requires
        b.len() == 4,
    ensures
        number_in(a + b) == number_in(a) * 0x1_0000_0000 + number_in(b),
{
    reveal_with_fuel(number_in, 5);
    let c = a + b;
    assert(c.drop_last() =~= a + b.take(3));
    assert(c.drop_last().drop_last() =~= a + b.take(2));
    assert(c.drop_last().drop_last().drop_last() =~= a + b.take(1));
    assert(c.drop_last().drop_last().drop_last().drop_last() =~= a);
    lemma_number_of_four(b);
}

/// A number of one or two cells is the one that its bytes spell, the highest first.
pub proof fn law_cell_number(reg: Seq<u8>, at: int, cells: int)
    requires
        cells == 1 || cells == 2,
        0 <= at,
        at + cells * 4 <= reg.len(),
    ensures
        cell_at(reg, at, cells) == number_in(reg.subrange(at, at + cells * 4)),
{
    let a = reg.subrange(at, at + 4);
    lemma_number_of_four(a);
    if cells == 2 {
        let b = reg.subrange(at + 4, at + 8);
        lemma_number_of_four(b);
        lemma_number_join(a, b);
        assert(a + b =~= reg.subrange(at, at + 8));
    }
}

/// What a node gives as a number of cells has four or eight bytes, of which the last four spell it.
pub proof fn law_cells_given(value: Seq<u8>)
    ensures
        cells_in(value) is Some <==> value.len() == 4 || value.len() == 8,
        cells_in(value) matches Some(n) ==> n == number_in(value.skip(value.len() - 4)) && n
            == number_in(value) % 0x1_0000_0000,
{
    if value.len() == 4 || value.len() == 8 {
        let b = value.skip(value.len() - 4);
        lemma_number_of_four(b);
        lemma_number_join(value.take(value.len() - 4), b);
        assert(value.take(value.len() - 4) + b =~= value);
    }
}

/// A step of bytes that lies in the bytes.
pub open spec fn is_region(
    reg: Seq<u8>,
    addr_cells: int,
    size_cells: int,
    step: int,
    k: int,
    region: (u64, u64),
) -> bool {
    let at = k * step;
    &&& region.0 == number_in(reg.subrange(at, at + addr_cells * 4))
    &&& region.1 == number_in(reg.subrange(at + addr_cells * 4, at + (addr_cells + size_cells) * 4))
}

/// The regions of a property are the ones that its bytes spell, address before size and one right
/// behind the other, without those of size zero: every one of them stands in the bytes, and every one
/// in the bytes that is not empty is among them.
pub proof fn law_regions(reg: Seq<u8>, addr_cells: int, size_cells: int, count: nat)
    requires
        readable(addr_cells, size_cells),
        count * ((addr_cells + size_cells) * 4) <= reg.len(),
    ensures
        ({
            let step = (addr_cells + size_cells) * 4;
            let found = regions(reg, addr_cells, size_cells, step, count);
            &&& found.len() <= count
            &&& forall|i: int|
                0 <= i < found.len() ==> (#[trigger] found[i]).1 != 0 && exists|k: int|
                    0 <= k < count && #[trigger] is_region(
                        reg,
                        addr_cells,
                        size_cells,
                        step,
                        k,
                        found[i],
                    )
            &&& forall|k: int, region: (u64, u64)|
                0 <= k < count && region.1 != 0 && #[trigger] is_region(
                    reg,
                    addr_cells,
                    size_cells,
                    step,
                    k,
                    region,
                ) ==> found.contains(region)
        }),
    decreases count,
{
    let step = (addr_cells + size_cells) * 4;
    let found = regions(reg, addr_cells, size_cells, step, count);
    if count > 0 {
        let n = (count - 1) as nat;
        let before = regions(reg, addr_cells, size_cells, step, n);
        let at = n * step;
        let last = region_at(reg, at, addr_cells, size_cells);
        assert(count * step == at + step) by (nonlinear_arith)
            requires
                at == n * step,
                count == n + 1,
        ;
        assert(at >= 0) by (nonlinear_arith)
            requires
                at == n * step,
                n >= 0,
                step >= 0,
        ;
        law_regions(reg, addr_cells, size_cells, n);
        law_cell_number(reg, at, addr_cells);
        law_cell_number(reg, at + addr_cells * 4, size_cells);
        assert(is_region(reg, addr_cells, size_cells, step, n as int, last));
        assert forall|i: int| 0 <= i < found.len() implies (#[trigger] found[i]).1 != 0 && exists|k: int|
            0 <= k < count && #[trigger] is_region(reg, addr_cells, size_cells, step, k, found[i]) by {
            if i < before.len() {
                assert(found[i] == before[i]);
            } else {
                assert(found[i] == last);
            }
        }
        assert forall|k: int, region: (u64, u64)|
            0 <= k < count && region.1 != 0 && #[trigger] is_region(
                reg,
                addr_cells,
                size_cells,
                step,
                k,
                region,
            ) implies found.contains(region) by {
            if k < n {
                assert(before.contains(region));
                let i = choose|i: int| 0 <= i < before.len() && before[i] == region;
                assert(found[i] == region);
            } else {
                assert(region == last);
                assert(found[found.len() - 1] == last);
            }
        }
    }
}

/// Memory that a reserved node names is not even mapped exactly if the node has a property `no-map`,
/// and the node names it only if it has a property `reg` of whole regions.
pub proof fn law_reserved_ranges(node: NodeView, addr_cells: int, size_cells: int)
    requires
        reserve_readable(node, addr_cells, size_cells),
    ensures
        match node_reserved(node, addr_cells, size_cells) {
            Ok(ranges) => {
                &&& has_property(node, "reg"@)
                &&& forall|i: int|
                    0 <= i < ranges.len() ==> (#[trigger] ranges[i]).nomap == (exists|p: int|
                        0 <= p < node.1.len() && (#[trigger] node.1[p]).0 == "no-map"@)
                &&& forall|i: int|
                    0 <= i < ranges.len() ==> (#[trigger] ranges[i]).nomap == has_property(
                        node,
                        "no-map"@,
                    )
                &&& forall|i: int| 0 <= i < ranges.len() ==> (#[trigger] ranges[i]).size != 0
            },
            Err(e) => if has_property(node, "reg"@) {
                e == SystemError::EINVAL
            } else {
                e == SystemError::ENOENT
            },
        },
{
    law_property(node, "reg"@);
    law_property(node, "no-map"@);
    assert(has_property(node, "no-map"@) == (exists|p: int|
        0 <= p < node.1.len() && (#[trigger] node.1[p]).0 == "no-map"@));
    if let Ok(ranges) = node_reserved(node, addr_cells, size_cells) {
        let reg = property_of(node, "reg"@)->0;
        let n = region_count(reg, addr_cells, size_cells);
        if n > 0 {
            let u = (addr_cells + size_cells) * 4;
            let t = n as int;
            let l = reg.len() as int;
            assert(t * u <= l) by (nonlinear_arith)
                requires
                    t == l / u,
                    u > 0,
                    l >= 0,
            ;
            law_regions(reg, addr_cells, size_cells, n);
        }
    }
}

/// The memory of a list of nodes is that of its parts, in order.
pub proof fn law_memory_joins(a: Seq<NodeView>, b: Seq<NodeView>, addr_cells: int, size_cells: int)
    ensures
        all_memory(a + b, addr_cells, size_cells) == all_memory(a, addr_cells, size_cells)
            + all_memory(b, addr_cells, size_cells),
    decreases b.len(),
{
    if b.len() == 0 {
        assert(a + b =~= a);
        assert(all_memory(a, addr_cells, size_cells) + Seq::<(u64, u64)>::empty() =~= all_memory(
            a,
            addr_cells,
            size_cells,
        ));
    } else {
        assert((a + b).drop_last() =~= a + b.drop_last());
        law_memory_joins(a, b.drop_last(), addr_cells, size_cells);
        let last = node_memory(b.last(), addr_cells, size_cells);
        assert(all_memory(a, addr_cells, size_cells) + (all_memory(
            b.drop_last(),
            addr_cells,
            size_cells,
        ) + last) =~= (all_memory(a, addr_cells, size_cells) + all_memory(
            b.drop_last(),
            addr_cells,
            size_cells,
        )) + last);
    }
}

/// The text of a value is what stands in front of the zeros at its end.
pub proof fn law_text(value: Seq<u8>)
    ensures
        ({
            let text = blob::text_of(value);
            &&& text.len() <= value.len()
            &&& text == value.take(text.len() as int)
            &&& text.len() > 0 ==> text.last() != 0
            &&& forall|i: int| text.len() <= i < value.len() ==> #[trigger] value[i] == 0
        }),
    decreases value.len(),
{
    if value.len() > 0 && value.last() == 0 {
        let v = value.drop_last();
        law_text(v);
        let text = blob::text_of(v);
        assert(text =~= value.take(text.len() as int));
        assert forall|i: int| text.len() <= i < value.len() implies #[trigger] value[i] == 0 by {
            if i < value.len() - 1 {
                assert(v[i] == value[i]);
            }
        }
    } else {
        assert(value =~= value.take(value.len() as int));
    }
}

/// A value has a text exactly if that is what stands in front of the zeros at its end.
pub proof fn law_is_text(value: Seq<u8>, text: Seq<u8>)
    requires
        text.len() > 0,
        text.last() != 0,
    ensures
        is_text(value, text) <==> blob::text_of(value) == text,
{
    law_text(value);
    let own = blob::text_of(value);
    if is_text(value, text) {
        if own.len() < text.len() {
            assert(value[text.len() - 1] == 0);
            assert(value.take(text.len() as int)[text.len() - 1] == text.last());
        } else if own.len() > text.len() {
            assert(value[own.len() - 1] == 0);
            assert(own.last() == value[own.len() - 1]);
        }
        assert(own =~= text);
    }
}

/// The words that are looked for are what they are called.
pub proof fn law_words()
    ensures
        okay_text() == utf8::encode_utf8("okay"@),
        ok_text() == utf8::encode_utf8("ok"@),
        memory_text() == utf8::encode_utf8("memory"@),
{
    reveal_strlit("okay");
    reveal_strlit("ok");
    reveal_strlit("memory");
    utf8::is_ascii_chars_encode_utf8("okay"@);
    utf8::is_ascii_chars_encode_utf8("ok"@);
    utf8::is_ascii_chars_encode_utf8("memory"@);
    assert(okay_text() =~= utf8::encode_utf8("okay"@));
    assert(ok_text() =~= utf8::encode_utf8("ok"@));
    assert(memory_text() =~= utf8::encode_utf8("memory"@));
}

/// A node counts as memory exactly if it is of type `memory`, does not say by its status that it
/// cannot be used, and has regions. The status of one that can be used is `okay` or `ok`.
pub proof fn law_memory_nodes(node: NodeView)
    ensures
        memory_reg(node) is Some <==> {
            &&& property_of(node, "device_type"@) matches Some(kind) && blob::text_of(kind)
                == utf8::encode_utf8("memory"@)
            &&& property_of(node, "status"@) matches Some(status) ==> blob::text_of(status)
                == utf8::encode_utf8("okay"@) || blob::text_of(status) == utf8::encode_utf8("ok"@)
            &&& has_property(node, "reg"@)
        },
        memory_reg(node) is Some ==> memory_reg(node) == property_of(node, "reg"@),
{
    law_words();
    law_property(node, "reg"@);
    if let Some(kind) = property_of(node, "device_type"@) {
        law_is_text(kind, memory_text());
    }
    if let Some(status) = property_of(node, "status"@) {
        law_is_text(status, okay_text());
        law_is_text(status, ok_text());
    }
}

/// A node is compatible with a text exactly if its list of texts, each ended by a zero, has it.
pub proof fn law_lists(text: Seq<u8>, rest: Seq<u8>, wanted: Seq<u8>)
    requires
        forall|i: int| 0 <= i < text.len() ==> #[trigger] text[i] != 0,
        utf8::valid_utf8(text),
    ensures
        lists(text.push(0) + rest, wanted) <==> text == wanted || lists(rest, wanted),
{
    let value = text.push(0) + rest;
    let n = text.len() as int;
    assert forall|j: int| 0 <= j < n implies value[j] != 0 by {
        assert(value[j] == text[j]);
    }
    lemma_text_end(value, 0, n);
    assert(value[n] == 0);
    assert(blob::text_end(value, 0) == Some(n));
    assert(value.take(n) =~= text);
    assert(value.skip(n + 1) =~= rest);
}

/// Of several properties with a name the last is the one that counts for what a node is compatible
/// with.
pub proof fn law_last_property(properties: Seq<PropertyView>, name: Seq<char>)
    ensures
        match last_property(properties, name) {
            Some(value) => exists|i: int|
                0 <= i < properties.len() && (#[trigger] properties[i]) == (name, value)
                    && forall|j: int| i < j < properties.len() ==> (#[trigger] properties[j]).0 != name,
            None => forall|j: int|
                0 <= j < properties.len() ==> (#[trigger] properties[j]).0 != name,
        },
    decreases properties.len(),
{
    if properties.len() > 0 {
        let n = properties.len() - 1;
        if properties.last().0 == name {
            assert(properties[n] == (name, properties[n].1));
        } else {
            let front = properties.drop_last();
            law_last_property(front, name);
            if let Some(value) = last_property(front, name) {
                let i = choose|i: int|
                    0 <= i < front.len() && (#[trigger] front[i]) == (name, value) && forall|j: int|
                        i < j < front.len() ==> (#[trigger] front[j]).0 != name;
                assert(properties[i] == (name, value));
                assert forall|j: int| i < j < properties.len() implies (
                #[trigger] properties[j]).0 != name by {
                    if j < n {
                        assert(front[j] == properties[j]);
                    }
                }
            } else {
                assert forall|j: int| 0 <= j < properties.len() implies (
                #[trigger] properties[j]).0 != name by {
                    if j < n {
                        assert(front[j] == properties[j]);
                    }
                }
            }
        }
    }
}

/// What reserved nodes name adds up node by node, and a node that cannot be used names nothing.
pub proof fn law_reserved_joins(
    nodes: Seq<NodeView>,
    node: NodeView,
    addr_cells: int,
    size_cells: int,
)
    ensures
        ({
            let before = all_reserved(nodes, addr_cells, size_cells);
            let after = all_reserved(nodes.push(node), addr_cells, size_cells);
            let own = node_reserved(node, addr_cells, size_cells);
            let usable = match property_of(node, "status"@) {
                None => true,
                Some(status) => blob::text_of(status) == utf8::encode_utf8("okay"@)
                    || blob::text_of(status) == utf8::encode_utf8("ok"@),
            };
            after == (if usable && own is Ok {
                before + own->Ok_0
            } else {
                before
            })
        }),
{
    assert(nodes.push(node).drop_last() =~= nodes);
    law_words();
    if let Some(status) = property_of(node, "status"@) {
        law_is_text(status, okay_text());
        law_is_text(status, ok_text());
    }
}

/// The line is the text of the property `bootargs` of a node, if it has one.
pub open spec fn is_line(line: Option<Seq<u8>>, node: NodeView) -> bool {
    match line {
        Some(text) => exists|i: int|
            0 <= i < node.1.len() && (#[trigger] node.1[i]).0 == "bootargs"@ && text
                == blob::text_of(node.1[i].1),
        None => !has_property(node, "bootargs"@),
    }
}

/// The command line is the text of the property `bootargs` of the node for what was chosen: of the one
/// under the first path if it is there, and else of the one under the second.
pub proof fn law_bootargs(chosen: Option<NodeView>, chosen_at_0: Option<NodeView>)
    ensures
        chosen matches Some(n) ==> is_line(bootargs_of(chosen_of(chosen, chosen_at_0)), n),
        chosen is None ==> (chosen_at_0 matches Some(n) ==> is_line(
            bootargs_of(chosen_of(chosen, chosen_at_0)),
            n,
        )),
        chosen is None && chosen_at_0 is None ==> bootargs_of(
            chosen_of(chosen, chosen_at_0),
        ) is None,
{
    if let Some(n) = chosen_of(chosen, chosen_at_0) {
        law_property(n, "bootargs"@);
        if let Some(value) = property_of(n, "bootargs"@) {
            let i = choose|i: int|
                0 <= i < n.1.len() && (#[trigger] n.1[i]) == ("bootargs"@, value) && forall|j: int|
                    0 <= j < i ==> (#[trigger] n.1[j]).0 != "bootargs"@;
            assert(n.1[i].0 == "bootargs"@ && n.1[i].1 == value);
        }
    }
}

/// A device can be used if nothing is said of its state, or if what is said is `okay` or `ok`; whatever
/// else is said, it cannot.
pub proof fn law_available(node: NodeView)
    ensures
        !has_property(node, "status"@) ==> available(node),
        property_of(node, "status"@) matches Some(status) ==> (available(node) <==> blob::text_of(
            status,
        ) == utf8::encode_utf8("okay"@) || blob::text_of(status) == utf8::encode_utf8("ok"@)),
{
    law_words();
    law_property(node, "status"@);
    if let Some(status) = property_of(node, "status"@) {
        law_is_text(status, okay_text());
        law_is_text(status, ok_text());
    }
}

/// Of the memory that must not be used, exactly the entries with a size count, in their order.
pub proof fn law_sized(entries: Seq<(u64, u64)>, entry: (u64, u64))
    ensures
        sized(entries).contains(entry) <==> entries.contains(entry) && entry.1 != 0,
        sized(entries).len() <= entries.len(),
        (forall|i: int| 0 <= i < entries.len() ==> (#[trigger] entries[i]).1 != 0) ==> sized(entries)
            == entries,
{
    lemma_sized(entries);
    if sized(entries).contains(entry) {
        let i = choose|i: int| 0 <= i < sized(entries).len() && sized(entries)[i] == entry;
        assert(sized(entries)[i].1 != 0);
    }
}

proof fn lemma_sized(entries: Seq<(u64, u64)>)
    ensures
        sized(entries).len() <= entries.len(),
        forall|i: int|
            0 <= i < sized(entries).len() ==> (#[trigger] sized(entries)[i]).1 != 0
                && entries.contains(sized(entries)[i]),
        forall|i: int|
            0 <= i < entries.len() && (#[trigger] entries[i]).1 != 0 ==> sized(entries).contains(
                entries[i],
            ),
        (forall|i: int| 0 <= i < entries.len() ==> (#[trigger] entries[i]).1 != 0) ==> sized(entries)
            == entries,
    decreases entries.len(),
{
    reveal(Seq::filter);
    if entries.len() > 0 {
        let front = entries.drop_last();
        lemma_sized(front);
        let last = entries.last();
        let all = sized(entries);
        let shorter = sized(front);
        assert(all == if last.1 != 0 {
            shorter.push(last)
        } else {
            shorter
        });
        assert forall|i: int| 0 <= i < all.len() implies (#[trigger] all[i]).1 != 0 && entries.contains(
            all[i],
        ) by {
            if i < shorter.len() {
                assert(all[i] == shorter[i]);
                let j = choose|j: int| 0 <= j < front.len() && front[j] == shorter[i];
                assert(entries[j] == all[i]);
            } else {
                assert(entries[entries.len() - 1] == last);
            }
        }
        assert forall|i: int| 0 <= i < entries.len() && (#[trigger] entries[i]).1 != 0 implies all.contains(
            entries[i],
        ) by {
            if i < front.len() {
                assert(front[i] == entries[i]);
                let j = choose|j: int| 0 <= j < shorter.len() && shorter[j] == front[i];
                assert(all[j] == entries[i]);
            } else {
                assert(all[shorter.len() as int] == last);
            }
        }
        if forall|i: int| 0 <= i < entries.len() ==> (#[trigger] entries[i]).1 != 0 {
            assert forall|i: int| 0 <= i < front.len() implies (#[trigger] front[i]).1 != 0 by {
                assert(front[i] == entries[i]);
            }
            assert(entries[entries.len() - 1] == last);
            assert(all =~= entries);
        }
    } else {
        assert(sized(entries) =~= entries);
    }
}

/// A node is compatible with a name exactly if the last property that tells lists it; a node without such
/// a property is compatible with nothing.
pub proof fn law_compatible(node: NodeView, wanted: Seq<u8>)
    ensures
        is_compatible(node, wanted) ==> exists|i: int|
            0 <= i < node.1.len() && (#[trigger] node.1[i]).0 == "compatible"@ && lists(
                node.1[i].1,
                wanted,
            ),
        !has_property(node, "compatible"@) ==> !is_compatible(node, wanted),
        node.1.len() > 0 && node.1.last().0 == "compatible"@ ==> is_compatible(node, wanted) == lists(
            node.1.last().1,
            wanted,
        ),
{
    law_last_property(node.1, "compatible"@);
    if let Some(value) = last_property(node.1, "compatible"@) {
        let i = choose|i: int|
            0 <= i < node.1.len() && (#[trigger] node.1[i]) == ("compatible"@, value);
        assert(node.1[i].0 == "compatible"@ && node.1[i].1 == value);
    }
}

/// What is known after a tree was looked at: how many cells addresses and sizes have is what the root
/// says, the last four bytes of what it gives spelling the number, and what was known before if it says
/// nothing. The name of the node for what was chosen is the path under which it is.
pub proof fn law_scanned(
    tree: FdtTree,
    before: FdtGlobalData,
    after: FdtGlobalData,
    scan: FdtScan,
)
    requires
        scannable(tree, before),
        scanned(tree, before, after, scan),
    ensures
        ({
            let root = (tree.root->0)@;
            &&& match property_of(root, "#address-cells"@) {
                Some(value) => after.root_addr_cells == number_in(value) % 0x1_0000_0000,
                None => after.root_addr_cells == before.root_addr_cells,
            }
            &&& match property_of(root, "#size-cells"@) {
                Some(value) => after.root_size_cells == number_in(value) % 0x1_0000_0000,
                None => after.root_size_cells == before.root_size_cells,
            }
            &&& tree.chosen is Some ==> after.chosen_node_name is Some && (
            after.chosen_node_name->0)@ == "/chosen"@
            &&& tree.chosen is None && tree.chosen_at_0 is Some ==> after.chosen_node_name is Some && (
            after.chosen_node_name->0)@ == "/chosen@0"@
            &&& tree.chosen matches Some(node) ==> is_line(
                match scan.bootargs {
                    Some(text) => Some(text@),
                    None => None,
                },
                node@,
            )
            &&& tree.chosen is None && tree.chosen_at_0 is None ==> scan.bootargs is None
        }),
{
    let root = (tree.root->0)@;
    if let Some(value) = property_of(root, "#address-cells"@) {
        law_cells_given(value);
    }
    if let Some(value) = property_of(root, "#size-cells"@) {
        law_cells_given(value);
    }
    law_bootargs(option_view(tree.chosen), option_view(tree.chosen_at_0));
}

/// The pages of a region start at the page that its first byte lies in. There are as many as fit whole
/// into what is left of the region behind the rest of that page, or into all of it if it starts with a
/// page. What lies beyond the highest address is cut off, and nothing else.
pub proof fn law_page_bounds(base: usize, size: usize, max: usize)
    requires
        base % 4096 != 0 ==> size >= 4096 - base % 4096,
    ensures
        ({
            let (start, length) = page_bounds(base, size);
            &&& start % 4096 == 0
            &&& start <= base < start + 4096
            &&& length % 4096 == 0
            &&& base == start ==> length <= size < length + 4096
            &&& base > start ==> length <= size - (start + 4096 - base) < length + 4096
            &&& start + length <= max + 1 ==> capped(start, length, max) == length
            &&& start + length > max + 1 ==> start + capped(start, length, max) == max + 1
        }),
{
}

} // verus!
