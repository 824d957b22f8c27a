//! Device discovery: which hidraw nodes are Ninjutso config interfaces, and
//! which of them to open.

use vstd::prelude::*;
use vstd::string::*;
use vstd::utf8::*;

use crate::device::{Device, DeviceView};
use crate::error::{Error, ErrorView};
use crate::text::{
    halves, hex_word, lemma_first_piece, lemma_halves, lemma_last_piece, lemma_long_hex_reads_back,
    lemma_pieces, lemma_pieces_some, lines, number, pieces, read_number, same, split, split_once,
    text_lines, texts,
};
use crate::transport::Transport;

verus! {

/// The config channel is the vendor collection declaring report 6:
/// `06 01 ff  09 01  a1 01  85 06`
pub const CONFIG_COLLECTION: [u8; 9] = [0x06, 0x01, 0xFF, 0x09, 0x01, 0xA1, 0x01, 0x85, 0x06];

/// What a node is called that does not say its name.
pub const DEFAULT_NAME: &'static str = "Ninjutso device";

/// One Ninjutso config interface as found in sysfs.
#[derive(Debug, Clone)]
pub struct Node {
    pub path: String,
    pub product_id: u16,
    pub name: String,
}

/// A [`Node`] as contracts see it.
pub struct NodeView {
    pub path: Seq<char>,
    pub product_id: u16,
    pub name: Seq<char>,
}

impl View for Node {
    type V = NodeView;

    open spec fn view(&self) -> NodeView {
        NodeView { path: self.path@, product_id: self.product_id, name: self.name@ }
    }
}

/// One entry of `/sys/class/hidraw`: its name, its device's uevent file, and its
/// device's report descriptor where that can be read.
pub struct Entry {
    pub name: String,
    pub uevent: String,
    pub descriptor: Option<Vec<u8>>,
}

/// An [`Entry`] as contracts see it.
pub struct EntryView {
    pub name: Seq<char>,
    pub uevent: Seq<char>,
    pub descriptor: Option<Seq<u8>>,
}

impl View for Entry {
    type V = EntryView;

    open spec fn view(&self) -> EntryView {
        EntryView {
            name: self.name@,
            uevent: self.uevent@,
            descriptor: match self.descriptor {
                Some(descriptor) => Some(descriptor@),
                None => None,
            },
        }
    }
}

// -- uevent files -------------------------------------------------------------

/// A field of a uevent file, as contracts see it.
pub open spec fn field_view(field: (String, String)) -> (Seq<char>, Seq<char>) {
    (field.0@, field.1@)
}

/// Fields, as contracts see them.
pub open spec fn fields_view(fields: Seq<(String, String)>) -> Seq<(Seq<char>, Seq<char>)> {
    fields.map_values(|field: (String, String)| field_view(field))
}

/// The fields that lines hold: those with an equals sign, split at the first.
pub open spec fn fields_of(lines: Seq<Seq<char>>) -> Seq<(Seq<char>, Seq<char>)>
    decreases lines.len(),
{
    if lines.len() == 0 {
        Seq::empty()
    } else {
        let before = fields_of(lines.drop_last());
        match halves(lines.last(), '=') {
            Some(field) => before.push(field),
            None => before,
        }
    }
}

/// The value of the first field called `key`.
pub open spec fn lookup_of(fields: Seq<(Seq<char>, Seq<char>)>, key: Seq<char>) -> Option<
    Seq<char>,
>
    decreases fields.len(),
{
    if fields.len() == 0 {
        None
    } else if fields[0].0 == key {
        Some(fields[0].1)
    } else {
        lookup_of(fields.skip(1), key)
    }
}

/// The fields of a uevent file; lines that are not fields are passed over.
pub fn uevent(text: &str) -> (fields: Vec<(String, String)>)
    ensures
        fields_view(fields@) == fields_of(text_lines(text@)),
{
    let all = lines(text);
    let mut fields: Vec<(String, String)> = Vec::new();
    let mut i: usize = 0;
    assert(fields_view(fields@) =~= fields_of(texts(all@).take(0)));
    while i < all.len()
        invariant
            i <= all@.len(),
            fields_view(fields@) == fields_of(texts(all@).take(i as int)),
        decreases all.len() - i,
    {
        let ghost longer = texts(all@).take(i + 1);
        let ghost before = fields@;
        assert(longer.drop_last() =~= texts(all@).take(i as int));
        if let Some((key, value)) = split_once(all[i], '=') {
            fields.push((key.to_owned(), value.to_owned()));
            assert(fields_view(fields@) =~= fields_view(before).push((key@, value@)));
        }
        i += 1;
    }
    assert(texts(all@).take(i as int) =~= texts(all@));
    fields
}

/// The value of the first field called `key`.
pub fn lookup<'a>(fields: &'a [(String, String)], key: &str) -> (value: Option<&'a str>)
    ensures
        match value {
            Some(value) => lookup_of(fields_view(fields@), key@) == Some(value@),
            None => lookup_of(fields_view(fields@), key@) is None,
        },
{
    let mut i: usize = 0;
    assert(fields_view(fields@).skip(0) =~= fields_view(fields@));
    while i < fields.len()
        invariant
            i <= fields@.len(),
            lookup_of(fields_view(fields@).skip(i as int), key@) == lookup_of(
                fields_view(fields@),
                key@,
            ),
        decreases fields.len() - i,
    {
        assert(fields_view(fields@).skip(i as int).skip(1) =~= fields_view(fields@).skip(i + 1));
        if same(fields[i].0.as_str(), key) {
            return Some(fields[i].1.as_str());
        }
        i += 1;
    }
    None
}

// -- one entry ----------------------------------------------------------------

/// The config collection stands in a report descriptor at `i`.
pub open spec fn collection_at(descriptor: Seq<u8>, i: int) -> bool {
    &&& 0 <= i
    &&& i + CONFIG_COLLECTION@.len() <= descriptor.len()
    &&& descriptor.subrange(i, i + CONFIG_COLLECTION@.len()) == CONFIG_COLLECTION@
}

/// Whether a report descriptor carries the config collection.
pub open spec fn declares_config(descriptor: Seq<u8>) -> bool {
    exists|i: int| collection_at(descriptor, i)
}

fn has_config(descriptor: &[u8]) -> (answer: bool)
    ensures
        answer == declares_config(descriptor@),
{
    let length: usize = descriptor.len();
    let mut i: usize = 0;
    while i < length && length - i >= 9
        invariant
            i <= length == descriptor@.len(),
            forall|j: int| 0 <= j < i ==> !collection_at(descriptor@, j),
        decreases length - i,
    {
        let mut k: usize = 0;
        while k < 9 && descriptor[i + k] == CONFIG_COLLECTION[k]
            invariant
                k <= 9,
                i + 9 <= length == descriptor@.len(),
                forall|j: int| 0 <= j < k ==> descriptor@[i + j] == CONFIG_COLLECTION@[j],
            decreases 9 - k,
        {
            k += 1;
        }
        if k == 9 {
            assert(descriptor@.subrange(i as int, i + 9) =~= CONFIG_COLLECTION@);
            assert(collection_at(descriptor@, i as int));
            return true;
        }
        assert(!collection_at(descriptor@, i as int)) by {
            if collection_at(descriptor@, i as int) {
                assert(
                    descriptor@.subrange(i as int, i + 9)[k as int] == CONFIG_COLLECTION@[k as int]
                );
            }
        }
        i += 1;
    }
    false
}

/// The vendor and the product that a `HID_ID` names: "bus:vendor:product", all
/// hex, e.g. `0003:0000093A:0000EB01`.
pub open spec fn hid_id(text: Seq<char>) -> Option<(nat, nat)> {
    let parts = pieces(text, ':');
    if parts.len() != 3 {
        None
    } else {
        match (number(parts[1], 16, u32::MAX as nat), number(parts[2], 16, u32::MAX as nat)) {
            (Some(vendor), Some(product)) => Some((vendor, product)),
            _ => None,
        }
    }
}

fn parse_hid_id(text: &str) -> (ids: Option<(u32, u32)>)
    ensures
        match ids {
            Some((vendor, product)) => hid_id(text@) == Some((vendor as nat, product as nat)),
            None => hid_id(text@) is None,
        },
{
    let parts = split(text, ':');
    assert(texts(parts@).len() == parts@.len());
    if parts.len() != 3 {
        return None;
    }
    match (
        read_number(parts[1], 16, u32::MAX as u64),
        read_number(parts[2], 16, u32::MAX as u64),
    ) {
        (Some(vendor), Some(product)) => Some((vendor as u32, product as u32)),
        _ => None,
    }
}

impl EntryView {
    /// The config interface that this entry is, if it is one of `vendor_id`'s.
    ///
    /// Only the low 16 bits of the ids count.
    pub open spec fn node(self, vendor_id: u16) -> Option<NodeView> {
        let fields = fields_of(text_lines(self.uevent));
        match lookup_of(fields, "HID_ID"@) {
            None => None,
            Some(id) => match (hid_id(id), self.descriptor) {
                (Some((vendor, product)), Some(descriptor)) => if vendor % 0x1_0000 == vendor_id
                    && declares_config(descriptor) {
                    Some(
                        NodeView {
                            path: "/dev/"@ + self.name,
                            product_id: (product % 0x1_0000) as u16,
                            name: match lookup_of(fields, "HID_NAME"@) {
                                Some(name) => name,
                                None => DEFAULT_NAME@,
                            },
                        },
                    )
                } else {
                    None
                },
                _ => None,
            },
        }
    }
}

fn node_of(entry: &Entry, vendor_id: u16) -> (node: Option<Node>)
    ensures
        match node {
            Some(node) => entry@.node(vendor_id) == Some(node@),
            None => entry@.node(vendor_id) is None,
        },
{
    let fields = uevent(entry.uevent.as_str());
    let (vendor, product) = match lookup(fields.as_slice(), "HID_ID") {
        Some(id) => match parse_hid_id(id) {
            Some(ids) => ids,
            None => {
                return None;
            },
        },
        None => {
            return None;
        },
    };
    if vendor % 0x1_0000 != vendor_id as u32 {
        return None;
    }
    match &entry.descriptor {
        Some(descriptor) => if !has_config(descriptor.as_slice()) {
            return None;
        },
        None => {
            return None;
        },
    }
    let mut path = "/dev/".to_owned();
    path.append(entry.name.as_str());
    let name = match lookup(fields.as_slice(), "HID_NAME") {
        Some(name) => name.to_owned(),
        None => DEFAULT_NAME.to_owned(),
    };
    Some(Node { path, product_id: (product % 0x1_0000) as u16, name })
}

// -- every entry --------------------------------------------------------------

/// Bytes in dictionary order.
pub open spec fn bytes_in_order(a: Seq<u8>, b: Seq<u8>) -> bool
    decreases a.len(),
{
    if a.len() == 0 {
        true
    } else if b.len() == 0 {
        false
    } else if a[0] != b[0] {
        a[0] < b[0]
    } else {
        bytes_in_order(a.skip(1), b.skip(1))
    }
}

/// Two paths in the order of their bytes.
pub open spec fn paths_in_order(a: Seq<char>, b: Seq<char>) -> bool {
    bytes_in_order(encode_utf8(a), encode_utf8(b))
}

/// Nodes with one more among them, behind all that do not come after it.
pub open spec fn with_node(nodes: Seq<NodeView>, node: NodeView) -> Seq<NodeView>
    decreases nodes.len(),
{
    if nodes.len() == 0 || paths_in_order(nodes.last().path, node.path) {
        nodes.push(node)
    } else {
        with_node(nodes.drop_last(), node).push(nodes.last())
    }
}

/// The config interfaces among entries, by path.
pub open spec fn nodes_among(entries: Seq<EntryView>, vendor_id: u16) -> Seq<NodeView>
    decreases entries.len(),
{
    if entries.len() == 0 {
        Seq::empty()
    } else {
        let before = nodes_among(entries.drop_last(), vendor_id);
        match entries.last().node(vendor_id) {
            Some(node) => with_node(before, node),
            None => before,
        }
    }
}

/// Entries, as contracts see them.
pub open spec fn entries_view(entries: Seq<Entry>) -> Seq<EntryView> {
    entries.map_values(|entry: Entry| entry@)
}

/// Nodes, as contracts see them.
pub open spec fn nodes_view(nodes: Seq<Node>) -> Seq<NodeView> {
    nodes.map_values(|node: Node| node@)
}

fn in_order(a: &str, b: &str) -> (answer: bool)
    ensures
        answer == paths_in_order(a@, b@),
{
    let x = a.as_bytes();
    let y = b.as_bytes();
    let mut i: usize = 0;
    assert(x@.skip(0) =~= x@);
    assert(y@.skip(0) =~= y@);
    while i < x.len()
        invariant
            i <= x@.len(),
            i <= y@.len(),
            x@ == encode_utf8(a@),
            y@ == encode_utf8(b@),
            bytes_in_order(x@, y@) == bytes_in_order(x@.skip(i as int), y@.skip(i as int)),
        decreases x.len() - i,
    {
        if i >= y.len() {
            return false;
        }
        if x[i] != y[i] {
            return x[i] < y[i];
        }
        assert(x@.skip(i as int).skip(1) =~= x@.skip(i + 1));
        assert(y@.skip(i as int).skip(1) =~= y@.skip(i + 1));
        i += 1;
    }
    true
}

fn add_node(nodes: &mut Vec<Node>, node: Node)
    ensures
        nodes_view(final(nodes)@) == with_node(nodes_view(old(nodes)@), node@),
{
    let mut i: usize = nodes.len();
    let ghost all = nodes_view(nodes@);
    let ghost last = all.len() as int;
    assert(all.take(last) =~= all);
    assert(with_node(all.take(last), node@) + all.skip(last) =~= with_node(all, node@));
    while i > 0 && !in_order(nodes[i - 1].path.as_str(), node.path.as_str())
        invariant
            i <= nodes@.len(),
            all == nodes_view(nodes@),
            with_node(all.take(i as int), node@) + all.skip(i as int) == with_node(all, node@),
        decreases i,
    {
        let ghost part = all.take(i as int);
        assert(part.drop_last() =~= all.take(i - 1));
        assert(with_node(all.take(i - 1), node@) + all.skip(i - 1) =~= with_node(part, node@)
            + all.skip(i as int));
        i -= 1;
    }
    let ghost given = node@;
    nodes.insert(i, node);
    assert(nodes_view(nodes@) =~= all.take(i as int).push(given) + all.skip(i as int));
}

/// Every config interface of `vendor_id` among entries, by path.
///
/// A receiver exposes several hidraw nodes -- only the one whose report
/// descriptor carries [`CONFIG_COLLECTION`] answers config commands.
pub fn find_nodes(entries: &Vec<Entry>, vendor_id: u16) -> (nodes: Vec<Node>)
    ensures
        nodes_view(nodes@) == nodes_among(entries_view(entries@), vendor_id),
{
    let mut nodes: Vec<Node> = Vec::new();
    let mut i: usize = 0;
    assert(nodes_view(nodes@) =~= nodes_among(entries_view(entries@).take(0), vendor_id));
    while i < entries.len()
        invariant
            i <= entries@.len(),
            nodes_view(nodes@) == nodes_among(entries_view(entries@).take(i as int), vendor_id),
        decreases entries.len() - i,
    {
        let ghost longer = entries_view(entries@).take(i + 1);
        assert(longer.drop_last() =~= entries_view(entries@).take(i as int));
        if let Some(node) = node_of(&entries[i], vendor_id) {
            add_node(&mut nodes, node);
        }
        i += 1;
    }
    assert(entries_view(entries@).take(i as int) =~= entries_view(entries@));
    nodes
}

// -- opening ------------------------------------------------------------------

/// The first node there is.
pub fn first_node(nodes: Vec<Node>) -> (node: Result<Node, Error>)
    ensures
        match node {
            Ok(node) => nodes@.len() > 0 && node@ == nodes@[0]@,
            Err(error) => nodes@.len() == 0 && error@ == ErrorView::DeviceNotFound,
        },
{
    let mut found = nodes;
    if found.len() == 0 {
        Err(Error::DeviceNotFound)
    } else {
        Ok(found.remove(0))
    }
}

/// A part of a path that names something: neither empty nor `.`, which stands
/// for the directory it is in.
pub open spec fn is_name(part: Seq<char>) -> bool {
    part.len() > 0 && part != "."@
}

/// What a path leads through: the root where it starts there, the `.` that a
/// relative path starts with, and the names in it. How often a `/` is repeated,
/// a `/` at the end, and a `.` in the middle make no difference.
pub open spec fn components(path: Seq<char>) -> Seq<Seq<char>> {
    let parts = pieces(path, '/');
    let start = if path.len() > 0 && path[0] == '/' {
        seq!["/"@]
    } else if parts[0] == "."@ {
        seq!["."@]
    } else {
        Seq::empty()
    };
    start + parts.filter(|part: Seq<char>| is_name(part))
}

/// The node at a path: the first that was found there, or one that nothing is
/// known of. Paths are alike where they lead through the same components.
pub open spec fn node_at_path(nodes: Seq<NodeView>, path: Seq<char>) -> NodeView
    decreases nodes.len(),
{
    if nodes.len() == 0 {
        NodeView { path, product_id: 0, name: DEFAULT_NAME@ }
    } else if components(nodes[0].path) == components(path) {
        nodes[0]
    } else {
        node_at_path(nodes.skip(1), path)
    }
}

fn list_components<'a>(path: &'a str) -> (list: Vec<&'a str>)
    ensures
        texts(list@) == components(path@),
{
    let parts = split(path, '/');
    let ghost all = texts(parts@);
    let ghost named = |part: Seq<char>| is_name(part);
    proof {
        lemma_pieces_some(path@, '/');
    }
    assert(all.len() == parts@.len());
    assert(parts@[0]@ == all[0]);
    let mut list: Vec<&'a str> = Vec::new();
    if path.unicode_len() > 0 && path.get_char(0) == '/' {
        list.push("/");
    } else if same(parts[0], ".") {
        list.push(".");
    }
    let ghost start = texts(list@);
    assert(path@.len() > 0 && path@[0] == '/' ==> start =~= seq!["/"@]);
    assert(!(path@.len() > 0 && path@[0] == '/') && all[0] == "."@ ==> start =~= seq!["."@]);
    assert(!(path@.len() > 0 && path@[0] == '/') && all[0] != "."@ ==> start =~= Seq::empty());
    let mut i: usize = 0;
    reveal(Seq::filter);
    assert(texts(list@) =~= start + all.take(0).filter(named));
    while i < parts.len()
        invariant
            i <= parts@.len(),
            all == texts(parts@),
            named == |part: Seq<char>| is_name(part),
            texts(list@) == start + all.take(i as int).filter(named),
        decreases parts.len() - i,
    {
        let part = parts[i];
        let ghost so_far = list@;
        reveal(Seq::filter);
        assert(all.take(i + 1).drop_last() =~= all.take(i as int));
        assert(all.take(i + 1).last() == part@);
        if part.unicode_len() > 0 && !same(part, ".") {
            list.push(part);
            assert(texts(list@) =~= texts(so_far).push(part@));
        }
        assert(texts(list@) =~= start + all.take(i + 1).filter(named));
        i += 1;
    }
    assert(all.take(i as int) =~= all);
    list
}

fn same_path(a: &str, b: &str) -> (answer: bool)
    ensures
        answer == (components(a@) == components(b@)),
{
    let x = list_components(a);
    let y = list_components(b);
    assert(texts(x@).len() == x@.len() && texts(y@).len() == y@.len());
    if x.len() != y.len() {
        return false;
    }
    let mut i: usize = 0;
    while i < x.len()
        invariant
            i <= x@.len() == y@.len(),
            texts(x@) == components(a@),
            texts(y@) == components(b@),
            forall|k: int| 0 <= k < i ==> #[trigger] texts(x@)[k] == texts(y@)[k],
        decreases x.len() - i,
    {
        assert(texts(x@)[i as int] == x@[i as int]@);
        assert(texts(y@)[i as int] == y@[i as int]@);
        if !same(x[i], y[i]) {
            return false;
        }
        i += 1;
    }
    assert(texts(x@) =~= texts(y@));
    true
}

/// The node at a path that was given by hand.
///
/// It may be any hidraw node, so it is identified where it can be, rather than
/// taken to be the one that [`first_node`] would have picked.
pub fn node_at(nodes: Vec<Node>, path: String) -> (node: Node)
    ensures
        node@ == node_at_path(nodes_view(nodes@), path@),
{
    let ghost all = nodes_view(nodes@);
    let mut found = nodes;
    let mut i: usize = 0;
    assert(all.skip(0) =~= all);
    while i < found.len()
        invariant
            i <= found@.len(),
            found == nodes,
            all == nodes_view(nodes@),
            node_at_path(all, path@) == node_at_path(all.skip(i as int), path@),
        decreases found.len() - i,
    {
        assert(all.skip(i as int).skip(1) =~= all.skip(i + 1));
        if same_path(found[i].path.as_str(), path.as_str()) {
            return found.remove(i);
        }
        i += 1;
    }
    Node { path, product_id: 0, name: DEFAULT_NAME.to_owned() }
}

/// Why a node could not be opened: for want of permission, or for another
/// reason that the system put in words.
pub fn open_failure(path: String, denied: bool, reason: String) -> (error: Error)
    ensures
        error@ == if denied {
            ErrorView::PermissionDenied { path: path@ }
        } else {
            ErrorView::Io(reason@)
        },
{
    if denied {
        Error::PermissionDenied { path }
    } else {
        Error::Io(reason)
    }
}

impl<T: Transport> Device<T> {
    /// The device behind a node, once a channel to it is open.
    pub fn open_node(node: Node, transport: T) -> (device: Self)
        ensures
            device@ == (DeviceView {
                path: node@.path,
                product_id: node@.product_id,
                name: node@.name,
                profile: 1,
                effective_pid: None,
            }),
            device.inner() == transport,
            device.trace() == transport.history(),
    {
        Device::new(transport, node.path, node.product_id, node.name)
    }
}

// -- laws ---------------------------------------------------------------------

/// Dictionary order holds from first to last over any one between.
pub proof fn lemma_bytes_in_order_chains(a: Seq<u8>, b: Seq<u8>, c: Seq<u8>)
    requires
        bytes_in_order(a, b),
        bytes_in_order(b, c),
    ensures
        bytes_in_order(a, c),
    decreases a.len(),
{
    if a.len() > 0 && b.len() > 0 && c.len() > 0 && a[0] == b[0] && b[0] == c[0] {
        lemma_bytes_in_order_chains(a.skip(1), b.skip(1), c.skip(1));
    }
}

/// Of two rows of bytes, one comes first.
pub proof fn lemma_bytes_in_some_order(a: Seq<u8>, b: Seq<u8>)
    ensures
        bytes_in_order(a, b) || bytes_in_order(b, a),
    decreases a.len(),
{
    if a.len() > 0 && b.len() > 0 && a[0] == b[0] {
        lemma_bytes_in_some_order(a.skip(1), b.skip(1));
    }
}

/// Nodes stand by path.
pub open spec fn by_path(nodes: Seq<NodeView>) -> bool {
    forall|i: int, j: int|
        0 <= i < j < nodes.len() ==> #[trigger] paths_in_order(nodes[i].path, nodes[j].path)
}

proof fn lemma_with_node(nodes: Seq<NodeView>, node: NodeView)
    ensures
        forall|n: NodeView| #[trigger]
            with_node(nodes, node).contains(n) <==> nodes.contains(n) || n == node,
        with_node(nodes, node).len() == nodes.len() + 1,
        by_path(nodes) ==> by_path(with_node(nodes, node)),
    decreases nodes.len(),
{
    let result = with_node(nodes, node);
    if nodes.len() == 0 || paths_in_order(nodes.last().path, node.path) {
        assert forall|n: NodeView| #[trigger] result.contains(n) <==> nodes.contains(n) || n
            == node by {
            if nodes.contains(n) {
                assert(result[nodes.index_of(n)] == n);
            }
            if n == node {
                assert(result[nodes.len() as int] == n);
            }
        }
        if by_path(nodes) {
            assert forall|i: int, j: int| 0 <= i < j < result.len() implies #[trigger]
            paths_in_order(result[i].path, result[j].path) by {
                if j < nodes.len() {
                    assert(paths_in_order(nodes[i].path, nodes[j].path));
                } else if i < nodes.len() - 1 {
                    assert(paths_in_order(nodes[i].path, nodes[nodes.len() - 1].path));
                    lemma_bytes_in_order_chains(
                        encode_utf8(nodes[i].path),
                        encode_utf8(nodes.last().path),
                        encode_utf8(node.path),
                    );
                }
            }
        }
    } else {
        let front = nodes.drop_last();
        let part = with_node(front, node);
        lemma_with_node(front, node);
        assert(result == part.push(nodes.last()));
        assert forall|n: NodeView| #[trigger] result.contains(n) <==> nodes.contains(n) || n
            == node by {
            assert(part.contains(n) <==> front.contains(n) || n == node);
            if result.contains(n) {
                let i = result.index_of(n);
                if i < part.len() {
                    assert(part[i] == n);
                    if front.contains(n) {
                        assert(nodes[front.index_of(n)] == n);
                    }
                } else {
                    assert(nodes[nodes.len() - 1] == n);
                }
            }
            if nodes.contains(n) {
                let i = nodes.index_of(n);
                if i < front.len() {
                    assert(front[i] == n);
                    assert(result[part.index_of(n)] == n);
                } else {
                    assert(result[part.len() as int] == n);
                }
            }
            if n == node {
                assert(result[part.index_of(n)] == n);
            }
        }
        if by_path(nodes) {
            assert(by_path(front)) by {
                assert forall|i: int, j: int| 0 <= i < j < front.len() implies #[trigger]
                paths_in_order(front[i].path, front[j].path) by {
                    assert(paths_in_order(nodes[i].path, nodes[j].path));
                }
            }
            assert forall|i: int, j: int| 0 <= i < j < result.len() implies #[trigger]
            paths_in_order(result[i].path, result[j].path) by {
                if j < part.len() {
                    assert(paths_in_order(part[i].path, part[j].path));
                } else {
                    assert(part.contains(part[i]));
                    if part[i] == node {
                        lemma_bytes_in_some_order(
                            encode_utf8(node.path),
                            encode_utf8(nodes.last().path),
                        );
                    } else {
                        let k = front.index_of(part[i]);
                        assert(front[k] == part[i]);
                        assert(paths_in_order(nodes[k].path, nodes[nodes.len() - 1].path));
                    }
                }
            }
        }
    }
}

/// Discovery finds the entries that are config interfaces, all of them and
/// nothing else, and hands them out by path.
pub proof fn lemma_discovery(entries: Seq<EntryView>, vendor_id: u16)
    ensures
        by_path(nodes_among(entries, vendor_id)),
        forall|n: NodeView| #[trigger]
            nodes_among(entries, vendor_id).contains(n) <==> exists|i: int|
                0 <= i < entries.len() && #[trigger] entries[i].node(vendor_id) == Some(n),
        nodes_among(entries, vendor_id).len() == entries.filter(
            |entry: EntryView| entry.node(vendor_id) is Some,
        ).len(),
    decreases entries.len(),
{
    let nodes = nodes_among(entries, vendor_id);
    let found = |entry: EntryView| entry.node(vendor_id) is Some;
    reveal(Seq::filter);
    if entries.len() > 0 {
        let front = entries.drop_last();
        let before = nodes_among(front, vendor_id);
        lemma_discovery(front, vendor_id);
        if let Some(node) = entries.last().node(vendor_id) {
            lemma_with_node(before, node);
        }
        assert forall|n: NodeView| #[trigger] nodes.contains(n) <==> exists|i: int|
            0 <= i < entries.len() && #[trigger] entries[i].node(vendor_id) == Some(n) by {
            assert(before.contains(n) <==> exists|i: int|
                0 <= i < front.len() && #[trigger] front[i].node(vendor_id) == Some(n));
            if before.contains(n) {
                let i = choose|i: int|
                    0 <= i < front.len() && #[trigger] front[i].node(vendor_id) == Some(n);
                assert(entries[i].node(vendor_id) == Some(n));
            }
            if nodes.contains(n) && !before.contains(n) {
                assert(entries[entries.len() - 1].node(vendor_id) == Some(n));
            }
            if exists|i: int|
                0 <= i < entries.len() && #[trigger] entries[i].node(vendor_id) == Some(n) {
                let i = choose|i: int|
                    0 <= i < entries.len() && #[trigger] entries[i].node(vendor_id) == Some(n);
                if i < front.len() {
                    assert(front[i].node(vendor_id) == Some(n));
                }
            }
        }
    }
}

/// Looking up finds the first field of that name.
pub proof fn lemma_lookup(fields: Seq<(Seq<char>, Seq<char>)>, key: Seq<char>)
    ensures
        match lookup_of(fields, key) {
            Some(value) => exists|i: int|
                {
                    &&& 0 <= i < fields.len()
                    &&& #[trigger] fields[i] == (key, value)
                    &&& forall|j: int| 0 <= j < i ==> (#[trigger] fields[j]).0 != key
                },
            None => forall|i: int| 0 <= i < fields.len() ==> (#[trigger] fields[i]).0 != key,
        },
    decreases fields.len(),
{
    if fields.len() > 0 {
        let rest = fields.skip(1);
        if fields[0].0 == key {
            assert(fields[0] == (key, fields[0].1));
        } else {
            lemma_lookup(rest, key);
            if let Some(value) = lookup_of(fields, key) {
                let i = choose|i: int|
                    {
                        &&& 0 <= i < rest.len()
                        &&& #[trigger] rest[i] == (key, value)
                        &&& forall|j: int| 0 <= j < i ==> (#[trigger] rest[j]).0 != key
                    };
                assert(fields[i + 1] == (key, value));
                assert forall|j: int| 0 <= j < i + 1 implies (#[trigger] fields[j]).0 != key by {
                    if j > 0 {
                        assert(rest[j - 1] == fields[j]);
                    }
                }
            } else {
                assert forall|j: int| 0 <= j < fields.len() implies (#[trigger] fields[j]).0
                    != key by {
                    if j > 0 {
                        assert(rest[j - 1] == fields[j]);
                    }
                }
            }
        }
    }
}

/// A field is a line with an equals sign, split at the first; other lines are
/// passed over.
pub proof fn lemma_fields(lines: Seq<Seq<char>>, line: Seq<char>)
    ensures
        match halves(line, '=') {
            Some((key, value)) => {
                &&& fields_of(lines.push(line)) == fields_of(lines).push((key, value))
                &&& line == key.push('=') + value
                &&& !key.contains('=')
            },
            None => fields_of(lines.push(line)) == fields_of(lines) && !line.contains('='),
        },
{
    lemma_halves(line, '=');
    assert(lines.push(line).drop_last() =~= lines);
    assert(lines.push(line).last() == line);
}

/// A vendor page, a usage, a collection and report 6.
pub open spec fn config_bytes() -> Seq<u8> {
    seq![0x06u8, 0x01, 0xFF, 0x09, 0x01, 0xA1, 0x01, 0x85, 0x06]
}

/// A descriptor declares the config collection exactly where its bytes stand in it,
/// anywhere.
pub proof fn lemma_config_collection(descriptor: Seq<u8>)
    ensures
        declares_config(descriptor) <==> exists|before: Seq<u8>, after: Seq<u8>|
            descriptor == #[trigger] (before + config_bytes() + after),
{
    let wanted = config_bytes();
    assert(CONFIG_COLLECTION@ =~= wanted);
    if declares_config(descriptor) {
        let i = choose|i: int| collection_at(descriptor, i);
        let (before, after) = (descriptor.take(i), descriptor.skip(i + 9));
        assert forall|k: int| 0 <= k < 9 implies descriptor[i + k] == wanted[k] by {
            assert(descriptor.subrange(i, i + 9)[k] == wanted[k]);
        }
        assert(descriptor =~= before + config_bytes() + after);
    }
    if exists|before: Seq<u8>, after: Seq<u8>|
        descriptor == #[trigger] (before + config_bytes() + after) {
        let (before, after) = choose|before: Seq<u8>, after: Seq<u8>|
            descriptor == #[trigger] (before + config_bytes() + after);
        let n = before.len() as int;
        assert(descriptor.subrange(n, n + 9) =~= wanted);
        assert(collection_at(descriptor, n));
    }
}

/// An entry is a config interface exactly where its id names the vendor and its
/// descriptor declares the collection. It is then found under `/dev/` by its own
/// name, with the product that its id names and the name that it gives itself.
/// What stands in the upper half of an id makes no difference.
pub proof fn lemma_interface(
    entry: EntryView,
    bus: Seq<char>,
    vendor: u16,
    product: u16,
    above: (u16, u16),
    wanted: u16,
)
    requires
        !bus.contains(':'),
        lookup_of(fields_of(text_lines(entry.uevent)), "HID_ID"@) == Some(
            bus.push(':') + (hex_word(above.0) + hex_word(vendor)).push(':') + (hex_word(above.1)
                + hex_word(product)),
        ),
    ensures
        entry.node(wanted) is Some <==> vendor == wanted && entry.descriptor is Some
            && declares_config(entry.descriptor->0),
        entry.node(wanted) matches Some(node) ==> {
            &&& node.path == "/dev/"@ + entry.name
            &&& node.product_id == product
            &&& match lookup_of(fields_of(text_lines(entry.uevent)), "HID_NAME"@) {
                Some(name) => node.name == name,
                None => node.name == "Ninjutso device"@,
            }
        },
{
    let (one, two) = (hex_word(above.0) + hex_word(vendor), hex_word(above.1) + hex_word(product));
    let id = bus.push(':') + one.push(':') + two;
    assert(id =~= bus.push(':') + (one.push(':') + two));
    assert(!one.contains(':'));
    assert(!two.contains(':'));
    lemma_first_piece(bus, one.push(':') + two, ':');
    lemma_first_piece(one, two, ':');
    lemma_first_piece(two, Seq::empty(), ':');
    let parts = pieces(id, ':');
    assert(parts =~= seq![bus, one, two]);
    lemma_long_hex_reads_back(above.0, vendor);
    lemma_long_hex_reads_back(above.1, product);
}

/// A path given by hand is the path that is opened, and it is identified
/// wherever discovery found it.
pub proof fn lemma_node_at_path(nodes: Seq<NodeView>, path: Seq<char>)
    ensures
        components(node_at_path(nodes, path).path) == components(path),
        (exists|i: int|
            0 <= i < nodes.len() && #[trigger] components(nodes[i].path) == components(path))
            ==> nodes.contains(node_at_path(nodes, path)),
        (forall|i: int|
            0 <= i < nodes.len() ==> #[trigger] components(nodes[i].path) != components(path))
            ==> node_at_path(nodes, path) == (NodeView {
            path,
            product_id: 0,
            name: DEFAULT_NAME@,
        }),
    decreases nodes.len(),
{
    if nodes.len() > 0 && components(nodes[0].path) != components(path) {
        let rest = nodes.skip(1);
        lemma_node_at_path(rest, path);
        if exists|i: int|
            0 <= i < nodes.len() && #[trigger] components(nodes[i].path) == components(path) {
            let i = choose|i: int|
                0 <= i < nodes.len() && #[trigger] components(nodes[i].path) == components(path);
            assert(components(rest[i - 1].path) == components(path));
            let k = rest.index_of(node_at_path(rest, path));
            assert(nodes[k + 1] == node_at_path(nodes, path));
        } else {
            assert forall|i: int| 0 <= i < rest.len() implies #[trigger] components(rest[i].path)
                != components(path) by {
                assert(components(nodes[i + 1].path) != components(path));
            }
        }
    }
}

/// Bytes are ordered by the first of them that differ, and what another text only
/// goes on from comes before that text.
pub proof fn lemma_bytes_order(a: Seq<u8>, b: Seq<u8>, i: int)
    requires
        0 <= i <= a.len(),
        i <= b.len(),
        forall|j: int| 0 <= j < i ==> a[j] == b[j],
    ensures
        i < a.len() && i < b.len() && a[i] < b[i] ==> bytes_in_order(a, b) && !bytes_in_order(b, a),
        i == a.len() ==> bytes_in_order(a, b),
        i == a.len() && i < b.len() ==> !bytes_in_order(b, a),
    decreases i,
{
    if i > 0 {
        assert(a[0] == b[0]);
        assert forall|j: int| 0 <= j < i - 1 implies a.skip(1)[j] == b.skip(1)[j] by {
            assert(a[j + 1] == b[j + 1]);
        }
        lemma_bytes_order(a.skip(1), b.skip(1), i - 1);
    }
}

proof fn lemma_named_parts(parts: Seq<Seq<char>>, tail: Seq<char>)
    ensures
        parts.push(tail).filter(|part: Seq<char>| is_name(part)) == if is_name(tail) {
            parts.filter(|part: Seq<char>| is_name(part)).push(tail)
        } else {
            parts.filter(|part: Seq<char>| is_name(part))
        },
{
    reveal(Seq::filter);
    assert(parts.push(tail).drop_last() =~= parts);
}

/// A path with a name behind it leads through one more component, that name. A
/// `/` at its end, or a `.` behind one, makes no difference.
pub proof fn lemma_one_component_more(path: Seq<char>, name: Seq<char>)
    requires
        path.len() > 0,
        !name.contains('/'),
    ensures
        components(path.push('/') + name) == if name.len() == 0 || name == "."@ {
            components(path)
        } else {
            components(path).push(name)
        },
{
    let parts = pieces(path, '/');
    let longer = path.push('/') + name;
    lemma_pieces(path, '/');
    lemma_last_piece(path, name, '/');
    lemma_named_parts(parts, name);
    assert(longer[0] == path[0]);
    assert(parts.push(name)[0] == parts[0]);
    if is_name(name) {
        assert(components(longer) =~= components(path).push(name));
    }
}

/// A path that starts at the root leads through it first, and no other path does;
/// nor does a path that is one name lead through anything else.
pub proof fn lemma_from_the_root(path: Seq<char>)
    ensures
        path.len() > 0 && path[0] == '/' ==> components(path).len() > 0 && components(path)[0]
            == "/"@,
        path.len() == 0 || path[0] != '/' ==> !components(path).contains("/"@),
        path.len() > 0 && !path.contains('/') ==> components(path) == seq![path],
        path.len() == 0 ==> components(path).len() == 0,
{
    let parts = pieces(path, '/');
    let named = |part: Seq<char>| is_name(part);
    lemma_pieces(path, '/');
    reveal_strlit("/");
    reveal_strlit(".");
    assert("/"@.contains('/')) by {
        assert("/"@[0] == '/');
    }
    assert("."@[0] == '.');
    if path.len() == 0 || path[0] != '/' {
        if components(path).contains("/"@) {
            let k = choose|k: int| 0 <= k < components(path).len() && components(path)[k] == "/"@;
            let start = components(path).len() - parts.filter(named).len();
            if k >= start {
                assert(parts.filter(named)[k - start] == "/"@);
                parts.lemma_filter_contains_rev(named, "/"@);
                let i = choose|i: int| 0 <= i < parts.len() && parts[i] == "/"@;
                assert(!parts[i].contains('/'));
            }
            assert(false);
        }
    }
    if !path.contains('/') {
        lemma_first_piece(path, Seq::empty(), '/');
        lemma_named_parts(Seq::empty(), path);
        assert(parts =~= Seq::<Seq<char>>::empty().push(path));
        assert(Seq::<Seq<char>>::empty().filter(named) =~= Seq::<Seq<char>>::empty()) by {
            reveal(Seq::filter);
        }
        if path.len() > 0 {
            assert(path.contains(path[0]));
            assert(components(path) =~= seq![path]);
        }
    }
}

} // verus!
