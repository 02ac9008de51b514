//! Device paths as bytes: a run of nodes, each with its length in its header, up
//! to an end node.

use vstd::prelude::*;

use crate::bytes::joined;
use crate::bytes::law_le16s_adds_up;
use crate::bytes::le16;
use crate::bytes::le16s;
use crate::bytes::le_number;
use crate::bytes::lemma_joined_concat;
use crate::bytes::lemma_joined_first;
use crate::status::NOT_FOUND;
use crate::status::OUT_OF_RESOURCES;
use crate::status::Status;
use crate::ucs2::code_units;
use crate::ucs2::representable;
use crate::ucs2::to_ucs2;

verus! {

/// The next EFI image to chainload, searched for on every filesystem volume: the
/// removable-media path.
pub const NEXT_LOADER_PATH: &'static str = "\\EFI\\boot\\BOOTX64.efi";

/// The length that the header of the first node gives.
pub open spec fn node_len(bytes: Seq<u8>) -> int {
    le_number(bytes, 2, 2) as int
}

/// Whether the bytes start with a whole node.
pub open spec fn has_node(bytes: Seq<u8>) -> bool {
    bytes.len() >= 4 && 4 <= node_len(bytes) <= bytes.len()
}

/// Whether the first node ends the entire path.
pub open spec fn is_end_entire(bytes: Seq<u8>) -> bool {
    bytes[0] == 0x7f && bytes[1] == 0xff
}

/// The nodes of a device path before its end node, or `None` where the bytes end
/// before that.
pub open spec fn path_nodes(bytes: Seq<u8>) -> Option<Seq<Seq<u8>>>
    decreases bytes.len(),
{
    if !has_node(bytes) {
        None
    } else if is_end_entire(bytes) {
        Some(Seq::empty())
    } else {
        match path_nodes(bytes.skip(node_len(bytes))) {
            Some(rest) => Some(seq![bytes.take(node_len(bytes))] + rest),
            None => None,
        }
    }
}

/// The bytes of each vector of a list.
pub open spec fn byte_lists(lists: Seq<Vec<u8>>) -> Seq<Seq<u8>> {
    lists.map_values(|v: Vec<u8>| v@)
}

/// The node that ends a device path.
pub open spec fn end_node() -> Seq<u8> {
    seq![0x7f, 0xff, 0x04, 0x00]
}

/// A media file path node: header, then the NUL-terminated path.
pub open spec fn file_path_node(path: Seq<u16>) -> Seq<u8> {
    seq![0x04u8, 0x04u8] + le16((4 + 2 * path.len()) as u16) + le16s(path)
}

/// `DevicePath::node_iter` on the device path that `<&DevicePath>::try_from` finds
/// at the start of the bytes, each node as the bytes of its header and its data.
/// Bytes without a whole device path are refused.
#[verifier::external_body]
fn nodes_of(path: &[u8]) -> (r: Option<Vec<Vec<u8>>>)
    ensures
        r is Some <==> path_nodes(path@) is Some,
        r matches Some(nodes) ==> byte_lists(nodes@) == path_nodes(path@)->0,
{
    let path = <&uefi::proto::device_path::DevicePath>::try_from(path).ok()?;
    Some(
        path.node_iter()
            .map(|n| {
                let [low, high] = n.length().to_le_bytes();
                [&[n.device_type().0, n.sub_type().0, low, high], n.data()].concat()
            })
            .collect(),
    )
}

#[verifier::external_type_specification]
#[verifier::external_body]
pub struct ExDevicePathBuilder<'a>(uefi::proto::device_path::build::DevicePathBuilder<'a>);

#[verifier::external_type_specification]
#[verifier::external_body]
pub struct ExBuildError(uefi::proto::device_path::build::BuildError);

/// The bytes that the builder has written so far.
pub uninterp spec fn built(builder: uefi::proto::device_path::build::DevicePathBuilder<'_>) -> Seq<
    u8,
>;

/// Whether the builder was made with a vector, which grows as needed, rather than
/// with a buffer of fixed length.
pub uninterp spec fn grows(builder: uefi::proto::device_path::build::DevicePathBuilder<'_>) -> bool;

/// `DevicePathBuilder::with_vec` clears the vector and starts an empty path in it.
#[verifier::external_body]
fn path_builder<'a>(buffer: &'a mut Vec<u8>) -> (
    builder: uefi::proto::device_path::build::DevicePathBuilder<'a>)
    ensures
        built(builder) == Seq::<u8>::empty(),
        grows(builder),
{
    uefi::proto::device_path::build::DevicePathBuilder::with_vec(buffer)
}

/// `DevicePathBuilder::push` with an existing node, taken from the start of the
/// bytes: it copies the node as it is, and fails only for want of room.
#[verifier::external_body]
fn push_node<'a>(
    builder: uefi::proto::device_path::build::DevicePathBuilder<'a>,
    node: &[u8],
) -> (r: Result<
    uefi::proto::device_path::build::DevicePathBuilder<'a>,
    uefi::proto::device_path::build::BuildError,
>)
    requires
        has_node(node@),
        !is_end_entire(node@),
    ensures
        grows(builder) ==> r is Ok,
        r matches Ok(b) ==> built(b) == built(builder) + node@.take(node_len(node@)) && grows(b)
            == grows(builder),
{
    let node = <&uefi::proto::device_path::DevicePathNode>::try_from(node).unwrap();
    builder.push(&node)
}

/// `DevicePathBuilder::push` with a `build::media::FilePath` node for a path that
/// `CStr16::from_u16_with_nul` accepts: it fails if the node is longer than its
/// header can say, else only for want of room.
#[verifier::external_body]
fn push_file_path<'a>(
    builder: uefi::proto::device_path::build::DevicePathBuilder<'a>,
    path: &[u16],
) -> (r: Result<
    uefi::proto::device_path::build::DevicePathBuilder<'a>,
    uefi::proto::device_path::build::BuildError,
>)
    requires
        path@.len() > 0,
        path@.last() == 0,
        forall|i: int|
            0 <= i < path@.len() - 1 ==> path@[i] != 0 && !(0xd800 <= #[trigger] path@[i]
                <= 0xdfff),
    ensures
        r is Ok ==> 4 + 2 * path@.len() <= 0xffff,
        grows(builder) && 4 + 2 * path@.len() <= 0xffff ==> r is Ok,
        r matches Ok(b) ==> built(b) == built(builder) + file_path_node(path@) && grows(b)
            == grows(builder),
{
    let path_name = uefi::CStr16::from_u16_with_nul(path).unwrap();
    builder.push(&uefi::proto::device_path::build::media::FilePath { path_name })
}

/// `DevicePathBuilder::finalize` appends the end node, and fails only for want of
/// room. The device path is what was built.
#[verifier::external_body]
fn finish_path(builder: uefi::proto::device_path::build::DevicePathBuilder<'_>) -> (r: Result<
    Vec<u8>,
    uefi::proto::device_path::build::BuildError,
>)
    ensures
        grows(builder) ==> r is Ok,
        r matches Ok(path) ==> path@ == built(builder) + end_node(),
{
    builder.finalize().map(|path| path.as_bytes().to_vec())
}

/// Whether the bytes are one whole node that does not end the path.
pub open spec fn is_inner_node(node: Seq<u8>) -> bool {
    has_node(node) && node_len(node) == node.len() && !is_end_entire(node)
}

/// Whether all elements are nodes that do not end the path.
pub open spec fn inner_nodes(nodes: Seq<Seq<u8>>) -> bool {
    forall|i: int| 0 <= i < nodes.len() ==> is_inner_node(#[trigger] nodes[i])
}

/// A device path, as the bytes of each node before its end node.
pub struct NodeList {
    nodes: Vec<Vec<u8>>,
}

impl View for NodeList {
    type V = Seq<Seq<u8>>;

    closed spec fn view(&self) -> Seq<Seq<u8>> {
        byte_lists(self.nodes@)
    }
}

impl NodeList {
    /// Every element is a node, and none of them ends the path.
    pub open spec fn wf(self) -> bool {
        inner_nodes(self@)
    }

    /// The device path at the start of the bytes. `None` where there is none.
    pub fn parse(path: &[u8]) -> (r: Option<NodeList>)
        ensures
            r is Some <==> path_nodes(path@) is Some,
            r matches Some(list) ==> list.wf() && Some(list@) == path_nodes(path@),
    {
        match nodes_of(path) {
            Some(nodes) => {
                proof {
                    lemma_parsed_nodes_are_inner(path@);
                }
                Some(NodeList { nodes })
            },
            None => None,
        }
    }
}

proof fn lemma_parsed_nodes_are_inner(bytes: Seq<u8>)
    ensures
        path_nodes(bytes) matches Some(nodes) ==> inner_nodes(nodes),
    decreases bytes.len(),
{
    if has_node(bytes) && !is_end_entire(bytes) {
        lemma_parsed_nodes_are_inner(bytes.skip(node_len(bytes)));
        let first = bytes.take(node_len(bytes));
        assert(node_len(first) == node_len(bytes)) by {
            reveal_with_fuel(le_number, 3);
        }
        assert(is_inner_node(first));
        if let Some(rest) = path_nodes(bytes.skip(node_len(bytes))) {
            let all = seq![first] + rest;
            assert forall|i: int| 0 <= i < all.len() implies is_inner_node(#[trigger] all[i]) by {
                if i > 0 {
                    assert(all[i] == rest[i - 1]);
                }
            }
        }
    }
}

/// Copy all nodes of a device path to the builder.
fn push_all<'a>(
    builder: uefi::proto::device_path::build::DevicePathBuilder<'a>,
    list: &NodeList,
) -> (r: Result<
    uefi::proto::device_path::build::DevicePathBuilder<'a>,
    uefi::proto::device_path::build::BuildError,
>)
    requires
        list.wf(),
        grows(builder),
    ensures
        r matches Ok(b) && built(b) == built(builder) + joined(list@) && grows(b),
{
    let ghost before = built(builder);
    let mut b = builder;
    let mut i: usize = 0;
    assert(before + joined(list@.take(0)) =~= before);
    while i < list.nodes.len()
        invariant
            i <= list.nodes.len(),
            list.wf(),
            grows(b),
            built(b) == before + joined(list@.take(i as int)),
        decreases list.nodes.len() - i,
    {
        let node: &Vec<u8> = &list.nodes[i];
        assert(node@ == list@[i as int]);
        match push_node(b, node.as_slice()) {
            Ok(next) => {
                b = next;
            },
            Err(error) => {
                return Err(error);
            },
        }
        assert(node@.take(node_len(node@)) =~= node@);
        i = i + 1;
        assert(list@.take(i as int).drop_last() =~= list@.take(i - 1));
        assert(built(b) =~= before + joined(list@.take(i as int)));
    }
    assert(list@.take(i as int) =~= list@);
    Ok(b)
}

/// The device path that joins a device and a path on it, given as nodes.
pub open spec fn path_of(nodes: Seq<Seq<u8>>) -> Seq<u8> {
    joined(nodes) + end_node()
}

/// The NUL-terminated code units of the path of the next loader.
pub open spec fn next_loader_units() -> Seq<u16> {
    code_units(NEXT_LOADER_PATH@).push(0)
}

/// The full device path of `NEXT_LOADER_PATH` on the volume with the given device
/// path: its nodes, a file path node, and the end node.
pub fn loader_path(device: &NodeList) -> (r: Result<Vec<u8>, Status>)
    requires
        device.wf(),
    ensures
        r matches Ok(path) && path@ == path_of(device@.push(file_path_node(next_loader_units()))),
{
    let name: Vec<u16> = match to_ucs2(NEXT_LOADER_PATH) {
        Ok(units) => units,
        Err(_) => {
            proof {
                lemma_next_loader_path_is_representable();
            }
            return Err(Status(OUT_OF_RESOURCES));
        },
    };
    proof {
        lemma_next_loader_path_is_representable();
    }
    let mut buffer: Vec<u8> = Vec::new();
    let mut builder = path_builder(&mut buffer);
    match push_all(builder, device) {
        Ok(b) => {
            builder = b;
        },
        Err(_) => {
            return Err(Status(OUT_OF_RESOURCES));
        },
    }
    match push_file_path(builder, name.as_slice()) {
        Ok(b) => {
            builder = b;
        },
        Err(_) => {
            return Err(Status(OUT_OF_RESOURCES));
        },
    }
    proof {
        let nodes = device@.push(file_path_node(next_loader_units()));
        assert(nodes.drop_last() =~= device@);
        assert(built(builder) =~= joined(nodes));
    }
    match finish_path(builder) {
        Ok(path) => Ok(path),
        Err(_) => Err(Status(OUT_OF_RESOURCES)),
    }
}

proof fn lemma_next_loader_path_is_representable()
    ensures
        representable(NEXT_LOADER_PATH@),
        NEXT_LOADER_PATH@.len() == 21,
        forall|i: int|
            0 <= i < 21 ==> 0 < #[trigger] code_units(NEXT_LOADER_PATH@)[i] < 0x80,
{
    reveal_strlit("\\EFI\\boot\\BOOTX64.efi");
}

/// Join a device path and a path on that device: the nodes of the first, the nodes
/// of the second, and the end node.
pub fn join_device_path(device: &NodeList, file: &NodeList) -> (r: Result<Vec<u8>, Status>)
    requires
        device.wf(),
        file.wf(),
    ensures
        r matches Ok(path) && path@ == path_of(device@ + file@),
{
    let mut buffer: Vec<u8> = Vec::new();
    let mut builder = path_builder(&mut buffer);
    match push_all(builder, device) {
        Ok(b) => {
            builder = b;
        },
        Err(_) => {
            return Err(Status(OUT_OF_RESOURCES));
        },
    }
    match push_all(builder, file) {
        Ok(b) => {
            builder = b;
        },
        Err(_) => {
            return Err(Status(OUT_OF_RESOURCES));
        },
    }
    proof {
        lemma_joined_concat(device@, file@);
        assert(built(builder) =~= joined(device@ + file@));
    }
    match finish_path(builder) {
        Ok(path) => Ok(path),
        Err(_) => Err(Status(OUT_OF_RESOURCES)),
    }
}

/// The full device path that boots this image: the device it was loaded from
/// followed by the file path within that device. An image that was not loaded from
/// a file on a device has none.
pub fn own_boot_path(device: Option<&NodeList>, file: Option<&NodeList>) -> (r: Result<
    Vec<u8>,
    Status,
>)
    requires
        device matches Some(list) ==> list.wf(),
        file matches Some(list) ==> list.wf(),
    ensures
        match (device, file) {
            (Some(d), Some(f)) => r matches Ok(path) && path@ == path_of(d@ + f@),
            _ => r == Err::<Vec<u8>, Status>(Status(NOT_FOUND)),
        },
{
    match (device, file) {
        (Some(d), Some(f)) => join_device_path(d, f),
        _ => Err(Status(NOT_FOUND)),
    }
}

/// Reading a device path that was built gives back the nodes it was built from,
/// whatever bytes come behind it.
pub proof fn law_built_path_reads_back(nodes: Seq<Seq<u8>>, behind: Seq<u8>)
    requires
        inner_nodes(nodes),
    ensures
        path_nodes(path_of(nodes) + behind) == Some(nodes),
    decreases nodes.len(),
{
    let bytes = path_of(nodes) + behind;
    if nodes.len() == 0 {
        assert(bytes[0] == 0x7f && bytes[1] == 0xff && bytes[2] == 4 && bytes[3] == 0);
        assert(node_len(bytes) == 4) by {
            reveal_with_fuel(le_number, 3);
        }
        assert(nodes =~= Seq::<Seq<u8>>::empty());
    } else {
        let first = nodes[0];
        let rest = nodes.drop_first();
        assert(nodes =~= seq![first] + rest);
        lemma_joined_first(nodes);
        assert(is_inner_node(first));
        assert(bytes =~= first + (path_of(rest) + behind));
        assert(node_len(bytes) == node_len(first)) by {
            reveal_with_fuel(le_number, 3);
        }
        assert(bytes.take(node_len(bytes)) =~= first);
        assert(bytes.skip(node_len(bytes)) =~= path_of(rest) + behind);
        assert forall|i: int| 0 <= i < rest.len() implies is_inner_node(#[trigger] rest[i]) by {
            assert(rest[i] == nodes[i + 1]);
        }
        law_built_path_reads_back(rest, behind);
    }
}

/// A file path node is a whole node, so a path that ends in one reads back.
pub proof fn law_file_path_node_is_whole(path: Seq<u16>)
    requires
        4 + 2 * path.len() <= 0xffff,
    ensures
        is_inner_node(file_path_node(path)),
{
    let node = file_path_node(path);
    assert(node.len() == 4 + 2 * path.len());
    assert(node_len(node) == node.len()) by {
        reveal_with_fuel(le_number, 3);
    }
}

/// A device path is all its nodes, as they are and in order, and the end node.
pub proof fn law_path_is_all_its_nodes(nodes: Seq<Seq<u8>>)
    ensures
        ({
            let n = joined(nodes).len() as int;
            &&& path_of(nodes).len() == n + 4
            &&& path_of(nodes).take(n) == joined(nodes)
            &&& path_of(nodes).skip(n) == seq![0x7fu8, 0xffu8, 0x04u8, 0x00u8]
        }),
{
    let n = joined(nodes).len() as int;
    assert(path_of(nodes).take(n) =~= joined(nodes));
    assert(path_of(nodes).skip(n) =~= seq![0x7fu8, 0xffu8, 0x04u8, 0x00u8]);
}

/// A file path node has the type of one, its length, and every code unit of the path.
pub proof fn law_file_path_node_holds_the_path(path: Seq<u16>, i: int)
    requires
        4 + 2 * path.len() <= 0xffff,
        0 <= i < path.len(),
    ensures
        ({
            let node = file_path_node(path);
            &&& node.len() == 4 + 2 * path.len()
            &&& node[0] == 4 && node[1] == 4
            &&& node[2] + 256 * node[3] == node.len()
            &&& node[4 + 2 * i] + 256 * node[5 + 2 * i] == path[i]
        }),
{
    law_le16s_adds_up(path, i);
}

/// The next loader is named by its path, code unit by code unit, and a NUL.
pub proof fn law_next_loader_units_spell_the_path(i: int)
    requires
        0 <= i < 21,
    ensures
        next_loader_units().len() == 22,
        next_loader_units()[21] == 0,
        next_loader_units()[i] == "\\EFI\\boot\\BOOTX64.efi"@[i] as u16,
{
    lemma_next_loader_path_is_representable();
}

/// Reading a path takes it apart at the lengths that its nodes give: put together again
/// the nodes are the bytes up to the end node.
pub proof fn law_parsed_nodes_are_the_path(bytes: Seq<u8>)
    ensures
        path_nodes(bytes) matches Some(nodes) ==> ({
            let n = joined(nodes).len() as int;
            &&& inner_nodes(nodes)
            &&& n + 4 <= bytes.len()
            &&& joined(nodes) == bytes.take(n)
            &&& bytes[n] == 0x7f && bytes[n + 1] == 0xff
        }),
    decreases bytes.len(),
{
    lemma_parsed_nodes_are_inner(bytes);
    if has_node(bytes) {
        if is_end_entire(bytes) {
            assert(joined(Seq::empty()) =~= bytes.take(0));
        } else {
            let len = node_len(bytes);
            law_parsed_nodes_are_the_path(bytes.skip(len));
            if let Some(rest) = path_nodes(bytes.skip(len)) {
                let nodes = seq![bytes.take(len)] + rest;
                lemma_joined_first(nodes);
                assert(nodes.drop_first() =~= rest);
                let n = joined(nodes).len() as int;
                assert(joined(nodes) =~= bytes.take(n));
            }
        }
    }
}

/// Lists of bytes are seen element by element.
pub proof fn law_byte_lists_keep_everything(lists: Seq<Vec<u8>>)
    ensures
        byte_lists(lists).len() == lists.len(),
        forall|i: int| 0 <= i < lists.len() ==> #[trigger] byte_lists(lists)[i] == lists[i]@,
{
}

} // verus!
