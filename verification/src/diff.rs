//! The difference between a sandbox and its host.
use vstd::prelude::*;

use crate::encoding::{decode_exact, unified_diff, unified_text};
use crate::identity::{hex_encode, hex_text, sha256, sha256_digest};
use crate::model::{
    views, Change, ChangeKind, ChangeView, Duplicate, Environment, EnvironmentView, Origin,
    OriginView,
};
use crate::order::{
    bytes_before, bytes_less, lemma_bytes_order, lemma_sorted_members, pick, ranks, sort_positions,
    sorted_by, stable_sort, OrderedMap, Ranked,
};
use crate::path::{
    component_parts, components, is_safe_relative, is_under, joined, lemma_spelled, parts,
    path_texts, same_parts, spelled, with_spelling, Component, FsPath, PathPart,
};
use crate::text::{same_option, same_text};

verus! {

/// The longest file that is compared as text.
pub const MAX_TEXT_DIFF_BYTES: usize = 2_097_152;

/// What stands at a path.
#[derive(Debug, Clone, Copy, PartialEq, Eq, Structural)]
pub enum FileKind {
    File,
    Symlink,
    Directory,
    CharDevice,
    BlockDevice,
    Fifo,
    Socket,
    Unknown,
}

impl FileKind {
    pub open spec fn name(self) -> Seq<char> {
        match self {
            FileKind::File => "file"@,
            FileKind::Symlink => "symlink"@,
            FileKind::Directory => "directory"@,
            FileKind::CharDevice => "char_device"@,
            FileKind::BlockDevice => "block_device"@,
            FileKind::Fifo => "fifo"@,
            FileKind::Socket => "socket"@,
            FileKind::Unknown => "unknown"@,
        }
    }

    pub fn label(&self) -> (r: &'static str)
        ensures
            r@ == self.name(),
    {
        match self {
            FileKind::File => "file",
            FileKind::Symlink => "symlink",
            FileKind::Directory => "directory",
            FileKind::CharDevice => "char_device",
            FileKind::BlockDevice => "block_device",
            FileKind::Fifo => "fifo",
            FileKind::Socket => "socket",
            FileKind::Unknown => "unknown",
        }
    }
}

/// An extended attribute of a file. One that vanished while it was read has no value.
pub struct Attribute {
    pub name: Vec<u8>,
    pub value: Option<Vec<u8>>,
}

pub struct AttributeView {
    pub name: Seq<u8>,
    pub value: Option<Seq<u8>>,
}

impl View for Attribute {
    type V = AttributeView;

    open spec fn view(&self) -> AttributeView {
        AttributeView {
            name: self.name@,
            value: match self.value {
                Some(v) => Some(v@),
                None => None,
            },
        }
    }
}

pub(crate) fn copy_bytes(v: &Vec<u8>) -> (r: Vec<u8>)
    ensures
        r@ == v@,
{
    let mut r: Vec<u8> = Vec::new();
    r.extend_from_slice(v.as_slice());
    assert(r@ =~= v@);
    r
}

impl Duplicate for Attribute {
    fn duplicate(&self) -> (r: Attribute) {
        Attribute {
            name: copy_bytes(&self.name),
            value: match &self.value {
                Some(v) => Some(copy_bytes(v)),
                None => None,
            },
        }
    }
}

impl Ranked for Attribute {
    type Rank = Seq<u8>;

    open spec fn rank(&self) -> Seq<u8> {
        self.name@
    }

    open spec fn rank_before(a: Seq<u8>, b: Seq<u8>) -> bool {
        bytes_before(a, b)
    }

    proof fn rank_irreflexive(a: Seq<u8>) {
        lemma_bytes_order(a, a, a);
    }

    proof fn rank_total(a: Seq<u8>, b: Seq<u8>) {
        lemma_bytes_order(a, b, a);
    }

    proof fn rank_transitive(a: Seq<u8>, b: Seq<u8>, c: Seq<u8>) {
        lemma_bytes_order(a, b, c);
    }

    fn is_before(&self, other: &Self) -> (r: bool) {
        bytes_less(&self.name, &other.name)
    }
}

/// What was read of one path: its metadata, and for a file its content, for a link its target.
pub struct Node {
    pub kind: FileKind,
    pub mode: u32,
    pub uid: u32,
    pub gid: u32,
    pub device: u64,
    pub content: Vec<u8>,
    pub attributes: Vec<Attribute>,
}

#[verifier::ext_equal]
pub struct NodeView {
    pub kind: FileKind,
    pub mode: u32,
    pub uid: u32,
    pub gid: u32,
    pub device: u64,
    pub content: Seq<u8>,
    pub attributes: Seq<AttributeView>,
}

impl View for Node {
    type V = NodeView;

    open spec fn view(&self) -> NodeView {
        NodeView {
            kind: self.kind,
            mode: self.mode,
            uid: self.uid,
            gid: self.gid,
            device: self.device,
            content: self.content@,
            attributes: views(self.attributes@),
        }
    }
}

/// A 32-bit number as bytes, the lowest first.
pub open spec fn le_bytes(v: u32) -> Seq<u8> {
    seq![
        (v % 256) as u8,
        (v / 256 % 256) as u8,
        (v / 65_536 % 256) as u8,
        (v / 16_777_216) as u8,
    ]
}

fn push_le(bytes: &mut Vec<u8>, v: u32)
    ensures
        final(bytes)@ == old(bytes)@ + le_bytes(v),
{
    bytes.push((v % 256) as u8);
    bytes.push((v / 256 % 256) as u8);
    bytes.push((v / 65_536 % 256) as u8);
    bytes.push((v / 16_777_216) as u8);
    assert(bytes@ =~= old(bytes)@ + le_bytes(v));
}

/// The part of the digested bytes that stands for the content.
pub open spec fn content_bytes(node: NodeView) -> Seq<u8> {
    match node.kind {
        FileKind::Symlink => vstd::utf8::encode_utf8("symlink\0"@) + node.content,
        FileKind::File => vstd::utf8::encode_utf8("file\0"@) + node.content,
        kind => vstd::utf8::encode_utf8(kind.name()),
    }
}

/// The part of the digested bytes that stands for attributes: each name and each value, a zero
/// byte after both.
pub open spec fn attribute_bytes(attributes: Seq<AttributeView>) -> Seq<u8>
    decreases attributes.len(),
{
    if attributes.len() == 0 {
        Seq::empty()
    } else {
        let last = attributes.last();
        let value = match last.value {
            Some(v) => v,
            None => Seq::empty(),
        };
        attribute_bytes(attributes.drop_last()) + last.name.push(0u8) + value.push(0u8)
    }
}

pub open spec fn attribute_names(attributes: Seq<AttributeView>) -> Seq<Seq<u8>> {
    Seq::new(attributes.len(), |i: int| attributes[i].name)
}

/// The bytes that a node is digested as: mode and owner, content, then the attributes sorted by
/// name.
pub open spec fn node_encoding(node: NodeView) -> Seq<u8> {
    le_bytes(node.mode) + le_bytes(node.uid) + le_bytes(node.gid) + content_bytes(node)
        + attribute_bytes(
        sorted_by::<Attribute, AttributeView>(attribute_names(node.attributes), node.attributes),
    )
}

/// The digest of a node, in hexadecimal.
pub open spec fn node_digest(node: NodeView) -> Seq<char> {
    hex_text(sha256_digest(node_encoding(node)))
}

/// The digest of what stands at a path.
pub fn digest_path(node: &Node) -> (r: String)
    ensures
        r@ == node_digest(node@),
{
    let mut bytes: Vec<u8> = Vec::new();
    push_le(&mut bytes, node.mode);
    push_le(&mut bytes, node.uid);
    push_le(&mut bytes, node.gid);
    match node.kind {
        FileKind::Symlink => {
            bytes.extend_from_slice("symlink\0".as_bytes());
            bytes.extend_from_slice(node.content.as_slice());
        },
        FileKind::File => {
            bytes.extend_from_slice("file\0".as_bytes());
            bytes.extend_from_slice(node.content.as_slice());
        },
        kind => {
            bytes.extend_from_slice(kind.label().as_bytes());
        },
    }
    let ghost head = le_bytes(node.mode) + le_bytes(node.uid) + le_bytes(node.gid) + content_bytes(
        node@,
    );
    assert(bytes@ =~= head);
    let copies = crate::model::duplicate_all(&node.attributes);
    let sorted = stable_sort(copies);
    let ghost p = sort_positions::<Attribute>(ranks(copies@));
    let ghost picked = pick(node@.attributes, p);
    proof {
        assert forall|i: int| 0 <= i < copies@.len() implies #[trigger] copies@[i]@
            == node@.attributes[i] by {
            assert(views(copies@)[i] == views(node.attributes@)[i]);
        }
        assert(ranks(copies@) =~= attribute_names(node@.attributes)) by {
            assert forall|i: int| 0 <= i < copies@.len() implies #[trigger] ranks(copies@)[i]
                == attribute_names(node@.attributes)[i] by {
                assert(copies@[i]@ == node@.attributes[i]);
            }
        }
        assert(views(sorted@) =~= picked) by {
            assert forall|i: int| 0 <= i < sorted@.len() implies #[trigger] views(sorted@)[i]
                == picked[i] by {
                assert(copies@[p[i]]@ == node@.attributes[p[i]]);
            }
        }
    }
    let mut i: usize = 0;
    while i < sorted.len()
        invariant
            i <= sorted.len(),
            views(sorted@) == picked,
            bytes@ == head + attribute_bytes(picked.take(i as int)),
        decreases sorted.len() - i,
    {
        let attribute = &sorted[i];
        let ghost before = bytes@;
        proof {
            assert(picked.take(i + 1).drop_last() =~= picked.take(i as int));
            assert(picked.take(i + 1).last() == views(sorted@)[i as int]);
            assert(attribute@ == views(sorted@)[i as int]);
        }
        bytes.extend_from_slice(attribute.name.as_slice());
        bytes.push(0u8);
        if let Some(value) = &attribute.value {
            bytes.extend_from_slice(value.as_slice());
        }
        bytes.push(0u8);
        proof {
            let value = match attribute@.value {
                Some(v) => v,
                None => Seq::<u8>::empty(),
            };
            assert(bytes@ =~= before + attribute@.name.push(0u8) + value.push(0u8));
            assert(bytes@ =~= head + attribute_bytes(picked.take(i + 1)));
        }
        i += 1;
    }
    proof {
        assert(picked.take(sorted.len() as int) =~= picked);
    }
    hex_encode(&sha256(&bytes))
}

/// What was found at a path of the host.
pub enum HostNode {
    Missing,
    Present(Node),
    Unreadable(String),
}

pub enum HostNodeView {
    Missing,
    Present(NodeView),
    Unreadable(Seq<char>),
}

impl View for HostNode {
    type V = HostNodeView;

    open spec fn view(&self) -> HostNodeView {
        match self {
            HostNode::Missing => HostNodeView::Missing,
            HostNode::Present(node) => HostNodeView::Present(node@),
            HostNode::Unreadable(message) => HostNodeView::Unreadable(message@),
        }
    }
}

/// What stands on the host, by the path below the base root; paths that are not listed hold
/// nothing.
pub type HostTable = OrderedMap<FsPath, HostNode>;

/// What stands at a path of the host.
pub open spec fn host_at(
    hosts: Map<Seq<PathPart>, HostNodeView>,
    path: Seq<char>,
) -> HostNodeView {
    if hosts.dom().contains(parts(path)) {
        hosts[parts(path)]
    } else {
        HostNodeView::Missing
    }
}

/// What a path of the host is recorded as.
pub open spec fn origin_of(host: HostNodeView) -> Result<OriginView, Seq<char>> {
    match host {
        HostNodeView::Missing => Ok(Origin::nothing()),
        HostNodeView::Present(node) => Ok(
            OriginView {
                existed: true,
                kind: Some(node.kind.name()),
                digest: Some(node_digest(node)),
            },
        ),
        HostNodeView::Unreadable(message) => Err(message),
    }
}

/// Records what stands at a path of the host.
pub fn inspect_origin(host: &HostNode) -> (r: Result<Origin, String>)
    ensures
        match r {
            Ok(origin) => origin_of(host@) == Ok::<OriginView, Seq<char>>(origin@),
            Err(e) => origin_of(host@) == Err::<OriginView, Seq<char>>(e@),
        },
{
    match host {
        HostNode::Missing => Ok(Origin::absent()),
        HostNode::Present(node) => Ok(
            Origin {
                existed: true,
                kind: Some(node.kind.label().to_owned()),
                digest: Some(digest_path(node)),
            },
        ),
        HostNode::Unreadable(message) => Err(message.clone()),
    }
}

fn inspect_host(hosts: &HostTable, path: &FsPath) -> (r: Result<Origin, String>)
    ensures
        match r {
            Ok(origin) => origin_of(host_at(hosts@, path@)) == Ok::<OriginView, Seq<char>>(origin@),
            Err(e) => origin_of(host_at(hosts@, path@)) == Err::<OriginView, Seq<char>>(e@),
        },
{
    match hosts.get(path) {
        Some(host) => inspect_origin(host),
        None => inspect_origin(&HostNode::Missing),
    }
}

/// What an unsafe path is refused with.
pub open spec fn unsafe_path_message(path: Seq<char>) -> Seq<char> {
    "unsafe relative path '"@ + path + "'"@
}

/// Refuses a path that could lead out of the directory that it is taken from.
pub fn validate_relative_path(path: &FsPath) -> (r: Result<(), String>)
    ensures
        r is Ok <==> is_safe_relative(path@),
        r matches Err(e) ==> e@ == unsafe_path_message(path@),
{
    let list = components(path.text.as_str());
    let mut climbs = false;
    let mut i: usize = 0;
    while i < list.len()
        invariant
            i <= list.len(),
            climbs == exists|k: int|
                0 <= k < i && #[trigger] component_parts(list@)[k] == PathPart::Parent,
        decreases list.len() - i,
    {
        if let Component::Parent = &list[i] {
            climbs = true;
            assert(component_parts(list@)[i as int] == PathPart::Parent);
        }
        i += 1;
    }
    proof {
        if climbs {
            assert(parts(path@).contains(PathPart::Parent));
        }
    }
    if path.text.as_str().is_empty() || path.is_absolute() || climbs {
        Err("unsafe relative path '".to_owned().concat(path.text.as_str()).concat("'"))
    } else {
        Ok(())
    }
}

/// Whether a path lies under one of the ignored ones.
pub open spec fn ignores(ignored: Seq<Seq<char>>, path: Seq<char>) -> bool {
    exists|i: int| 0 <= i < ignored.len() && is_under(path, #[trigger] ignored[i])
}

pub fn is_ignored(ignored: &Vec<FsPath>, path: &FsPath) -> (r: bool)
    ensures
        r == ignores(path_texts(ignored@), path@),
{
    let mut i: usize = 0;
    while i < ignored.len()
        invariant
            i <= ignored.len(),
            forall|k: int|
                0 <= k < i ==> !is_under(path@, #[trigger] path_texts(ignored@)[k]),
        decreases ignored.len() - i,
    {
        if path.starts_with(&ignored[i]) {
            assert(is_under(path@, path_texts(ignored@)[i as int]));
            return true;
        }
        i += 1;
    }
    false
}

/// Whether a node of the layer marks a deletion.
pub open spec fn marks_deletion(node: NodeView) -> bool {
    node.kind == FileKind::CharDevice && node.device == 0
}

/// Whether content is compared as text: it is short, holds no zero byte, and is UTF-8.
pub open spec fn is_text(content: Seq<u8>) -> bool {
    content.len() <= MAX_TEXT_DIFF_BYTES && !content.contains(0u8) && vstd::utf8::valid_utf8(
        content,
    )
}

fn is_probably_text(content: &Vec<u8>) -> (r: bool)
    ensures
        r == is_text(content@),
{
    if content.len() > MAX_TEXT_DIFF_BYTES {
        return false;
    }
    let mut i: usize = 0;
    while i < content.len()
        invariant
            i <= content.len(),
            forall|k: int| 0 <= k < i ==> content@[k] != 0u8,
        decreases content.len() - i,
    {
        if content[i] == 0u8 {
            assert(content@.contains(0u8));
            return false;
        }
        i += 1;
    }
    decode_exact(content).is_some()
}

/// One path of the layer that holds the sandbox's own files.
pub struct LayerEntry {
    pub path: FsPath,
    pub node: Node,
}

pub struct LayerEntryView {
    pub path: Seq<char>,
    pub node: NodeView,
}

impl View for LayerEntry {
    type V = LayerEntryView;

    open spec fn view(&self) -> LayerEntryView {
        LayerEntryView { path: self.path@, node: self.node@ }
    }
}

/// How a path of the layer differs from what the host held.
pub open spec fn change_kind(origin: OriginView, node: NodeView) -> ChangeKind {
    if marks_deletion(node) {
        ChangeKind::Deleted
    } else if !origin.existed {
        ChangeKind::Added
    } else if origin.kind != Some(node.kind.name()) {
        ChangeKind::TypeChanged
    } else {
        ChangeKind::Modified
    }
}

/// The change that a path of the layer stands for.
pub open spec fn layer_change(origin: OriginView, entry: LayerEntryView) -> ChangeView {
    ChangeView {
        path: entry.path,
        kind: change_kind(origin, entry.node),
        original_digest: origin.digest,
        sandbox_digest: if marks_deletion(entry.node) {
            None
        } else {
            Some(node_digest(entry.node))
        },
        binary: entry.node.kind == FileKind::File && !is_text(entry.node.content),
    }
}

/// The change that a staged deletion stands for.
pub open spec fn deletion(origin: OriginView, path: Seq<char>) -> ChangeView {
    ChangeView {
        path,
        kind: ChangeKind::Deleted,
        original_digest: origin.digest,
        sandbox_digest: None,
        binary: false,
    }
}

/// How far a scan has come: what is recorded of the host, the changes found, and what stopped it.
#[verifier::ext_equal]
pub struct ScanState {
    pub origins: Map<Seq<PathPart>, OriginView>,
    /// How the recorded paths are written.
    pub paths: Map<Seq<PathPart>, Seq<char>>,
    pub changes: Seq<ChangeView>,
    pub failure: Option<Seq<char>>,
}

/// The record of a path: the one that is there, or else a new one.
pub open spec fn with_origin(
    origins: Map<Seq<PathPart>, OriginView>,
    path: Seq<char>,
    found: OriginView,
) -> Map<Seq<PathPart>, OriginView> {
    if origins.dom().contains(parts(path)) {
        origins
    } else {
        origins.insert(parts(path), found)
    }
}

/// A scan after one more path of the layer.
pub open spec fn scan_entry(
    ignored: Seq<Seq<char>>,
    hosts: Map<Seq<PathPart>, HostNodeView>,
    state: ScanState,
    entry: LayerEntryView,
) -> ScanState {
    if state.failure is Some {
        state
    } else if !is_safe_relative(entry.path) {
        ScanState { failure: Some(unsafe_path_message(entry.path)), ..state }
    } else if ignores(ignored, entry.path) || entry.node.kind == FileKind::Directory {
        state
    } else {
        let found = match origin_of(host_at(hosts, entry.path)) {
            Ok(origin) => origin,
            Err(_) => Origin::nothing(),
        };
        let origins = with_origin(state.origins, entry.path, found);
        ScanState {
            origins,
            paths: if state.origins.dom().contains(parts(entry.path)) {
                state.paths
            } else {
                with_spelling(state.paths, entry.path)
            },
            changes: state.changes.push(layer_change(origins[parts(entry.path)], entry)),
            failure: None,
        }
    }
}

/// A scan after the given paths of the layer.
pub open spec fn scan_layer(
    ignored: Seq<Seq<char>>,
    hosts: Map<Seq<PathPart>, HostNodeView>,
    origins: Map<Seq<PathPart>, OriginView>,
    paths: Map<Seq<PathPart>, Seq<char>>,
    entries: Seq<LayerEntryView>,
) -> ScanState
    decreases entries.len(),
{
    if entries.len() == 0 {
        ScanState { origins, paths, changes: Seq::empty(), failure: None }
    } else {
        scan_entry(
            ignored,
            hosts,
            scan_layer(ignored, hosts, origins, paths, entries.drop_last()),
            entries.last(),
        )
    }
}

/// Whether some change is about a path.
pub open spec fn changes_path(changes: Seq<ChangeView>, path: Seq<char>) -> bool {
    exists|i: int| 0 <= i < changes.len() && same_parts((#[trigger] changes[i]).path, path)
}

/// A scan after one more staged deletion.
pub open spec fn scan_deletion(
    ignored: Seq<Seq<char>>,
    hosts: Map<Seq<PathPart>, HostNodeView>,
    state: ScanState,
    path: Seq<char>,
) -> ScanState {
    if state.failure is Some {
        state
    } else if !is_safe_relative(path) {
        ScanState { failure: Some(unsafe_path_message(path)), ..state }
    } else if ignores(ignored, path) || changes_path(state.changes, path) {
        state
    } else {
        match origin_of(host_at(hosts, path)) {
            Err(message) => ScanState { failure: Some(message), ..state },
            Ok(found) => {
                let origins = with_origin(state.origins, path, found);
                let origin = origins[parts(path)];
                ScanState {
                    origins,
                    paths: if state.origins.dom().contains(parts(path)) {
                        state.paths
                    } else {
                        with_spelling(state.paths, path)
                    },
                    changes: if origin.existed {
                        state.changes.push(deletion(origin, path))
                    } else {
                        state.changes
                    },
                    failure: None,
                }
            },
        }
    }
}

/// A scan after the given staged deletions.
pub open spec fn scan_deletions(
    ignored: Seq<Seq<char>>,
    hosts: Map<Seq<PathPart>, HostNodeView>,
    start: ScanState,
    deleted: Seq<Seq<char>>,
) -> ScanState
    decreases deleted.len(),
{
    if deleted.len() == 0 {
        start
    } else {
        scan_deletion(
            ignored,
            hosts,
            scan_deletions(ignored, hosts, start, deleted.drop_last()),
            deleted.last(),
        )
    }
}

/// A whole scan: the layer, then the staged deletions. Without a layer there is no change.
pub open spec fn scan(
    environment: EnvironmentView,
    layer: Option<Seq<LayerEntryView>>,
    hosts: Map<Seq<PathPart>, HostNodeView>,
) -> ScanState {
    match layer {
        None => ScanState {
            origins: environment.origins,
            paths: environment.origin_paths,
            changes: Seq::empty(),
            failure: None,
        },
        Some(entries) => scan_deletions(
            environment.ignored_paths,
            hosts,
            scan_layer(
                environment.ignored_paths,
                hosts,
                environment.origins,
                environment.origin_paths,
                entries,
            ),
            environment.deleted_paths,
        ),
    }
}

/// The paths of changes, by which they are sorted.
pub open spec fn change_ranks(changes: Seq<ChangeView>) -> Seq<Seq<PathPart>> {
    Seq::new(changes.len(), |i: int| parts(changes[i].path))
}

/// Changes in the order of their paths.
pub open spec fn sorted_changes(changes: Seq<ChangeView>) -> Seq<ChangeView> {
    sorted_by::<Change, ChangeView>(change_ranks(changes), changes)
}

/// What an optional layer holds.
pub open spec fn layer_view(layer: Option<Vec<LayerEntry>>) -> Option<Seq<LayerEntryView>> {
    match layer {
        Some(entries) => Some(views(entries@)),
        None => None,
    }
}

/// Takes one path of the layer into a scan.
fn take_entry(
    ignored: &Vec<FsPath>,
    hosts: &HostTable,
    origins: &mut OrderedMap<FsPath, Origin>,
    changes: &mut Vec<Change>,
    entry: &LayerEntry,
) -> (r: Result<(), String>)
    ensures
        ({
            let before = ScanState {
                origins: old(origins)@,
                paths: spelled(old(origins).keys()),
                changes: views(old(changes)@),
                failure: None,
            };
            let after = scan_entry(path_texts(ignored@), hosts@, before, entry@);
            &&& after.origins == final(origins)@
            &&& after.paths == spelled(final(origins).keys())
            &&& after.changes == views(final(changes)@)
            &&& match r {
                Ok(()) => after.failure is None,
                Err(e) => after.failure == Some(e@),
            }
        }),
{
    let ghost before = views(changes@);
    match validate_relative_path(&entry.path) {
        Err(e) => return Err(e),
        Ok(()) => {},
    }
    if is_ignored(ignored, &entry.path) {
        return Ok(());
    }
    if entry.node.kind == FileKind::Directory {
        return Ok(());
    }
    proof {
        lemma_spelled(origins.keys());
    }
    if !origins.contains(&entry.path) {
        let found = match inspect_host(hosts, &entry.path) {
            Ok(origin) => origin,
            Err(_) => Origin::absent(),
        };
        origins.insert(entry.path.copy(), found);
    }
    let origin = match origins.get(&entry.path) {
        Some(origin) => origin.duplicate(),
        None => Origin::absent(),
    };
    let whiteout = entry.node.kind == FileKind::CharDevice && entry.node.device == 0;
    let sandbox_kind = Some(entry.node.kind.label().to_owned());
    let kind = if whiteout {
        ChangeKind::Deleted
    } else if !origin.existed {
        ChangeKind::Added
    } else if !same_option(&origin.kind, &sandbox_kind) {
        ChangeKind::TypeChanged
    } else {
        ChangeKind::Modified
    };
    let sandbox_digest = if whiteout {
        None
    } else {
        Some(digest_path(&entry.node))
    };
    let binary = if entry.node.kind == FileKind::File {
        !is_probably_text(&entry.node.content)
    } else {
        false
    };
    let change = Change {
        path: entry.path.copy(),
        kind,
        original_digest: origin.digest,
        sandbox_digest,
        binary,
    };
    assert(change@ == layer_change(origins@[parts(entry.path@)], entry@));
    changes.push(change);
    assert(views(changes@) =~= before.push(change@));
    Ok(())
}

fn has_change(changes: &Vec<Change>, path: &FsPath) -> (r: bool)
    ensures
        r == changes_path(views(changes@), path@),
{
    let mut i: usize = 0;
    while i < changes.len()
        invariant
            i <= changes.len(),
            forall|k: int|
                0 <= k < i ==> !same_parts((#[trigger] views(changes@)[k]).path, path@),
        decreases changes.len() - i,
    {
        if changes[i].path.same(path) {
            assert(same_parts(views(changes@)[i as int].path, path@));
            return true;
        }
        i += 1;
    }
    false
}

/// Takes one staged deletion into a scan.
fn take_deletion(
    ignored: &Vec<FsPath>,
    hosts: &HostTable,
    origins: &mut OrderedMap<FsPath, Origin>,
    changes: &mut Vec<Change>,
    path: &FsPath,
) -> (r: Result<(), String>)
    ensures
        ({
            let before = ScanState {
                origins: old(origins)@,
                paths: spelled(old(origins).keys()),
                changes: views(old(changes)@),
                failure: None,
            };
            let after = scan_deletion(path_texts(ignored@), hosts@, before, path@);
            &&& after.origins == final(origins)@
            &&& after.paths == spelled(final(origins).keys())
            &&& after.changes == views(final(changes)@)
            &&& match r {
                Ok(()) => after.failure is None,
                Err(e) => after.failure == Some(e@),
            }
        }),
{
    let ghost before = views(changes@);
    match validate_relative_path(path) {
        Err(e) => return Err(e),
        Ok(()) => {},
    }
    if is_ignored(ignored, path) || has_change(changes, path) {
        return Ok(());
    }
    let found = match inspect_host(hosts, path) {
        Ok(origin) => origin,
        Err(e) => return Err(e),
    };
    proof {
        lemma_spelled(origins.keys());
    }
    if !origins.contains(path) {
        origins.insert(path.copy(), found);
    }
    let origin = match origins.get(path) {
        Some(origin) => origin.duplicate(),
        None => Origin::absent(),
    };
    if origin.existed {
        let change = Change {
            path: path.copy(),
            kind: ChangeKind::Deleted,
            original_digest: origin.digest,
            sandbox_digest: None,
            binary: false,
        };
        assert(change@ == deletion(origins@[parts(path@)], path@));
        changes.push(change);
        assert(views(changes@) =~= before.push(change@));
    }
    Ok(())
}

/// Finds the changes of a sandbox, in the order of their paths, and records what the host held at
/// each of them. A failed scan keeps the records that it made before it failed.
pub fn scan_changes(
    environment: &mut Environment,
    layer: &Option<Vec<LayerEntry>>,
    hosts: &HostTable,
) -> (r: Result<Vec<Change>, String>)
    ensures
        ({
            let state = scan(old(environment)@, layer_view(*layer), hosts@);
            &&& final(environment)@ == EnvironmentView {
                origins: state.origins,
                origin_paths: state.paths,
                ..old(environment)@
            }
            &&& match r {
                Ok(changes) => state.failure is None && views(changes@) == sorted_changes(
                    state.changes,
                ),
                Err(e) => state.failure == Some(e@),
            }
        }),
{
    let mut changes: Vec<Change> = Vec::new();
    let ghost ignored = path_texts(environment.ignored_paths@);
    let ghost origins = environment.origins@;
    let ghost paths = spelled(environment.origins.keys());
    let entries = match layer {
        Some(entries) => entries,
        None => {
            assert(sorted_changes(Seq::empty()) =~= Seq::empty()) by {
                lemma_sort_nothing();
            }
            assert(views(changes@) =~= Seq::empty());
            return Ok(changes);
        },
    };
    let ghost all = views(entries@);
    let mut i: usize = 0;
    assert(views(changes@) =~= Seq::empty());
    while i < entries.len()
        invariant
            i <= entries.len(),
            all == views(entries@),
            ignored == path_texts(environment.ignored_paths@),
            environment@ == (EnvironmentView {
                origins: environment.origins@,
                origin_paths: spelled(environment.origins.keys()),
                ..old(environment)@
            }),
            (ScanState {
                origins: environment.origins@,
                paths: spelled(environment.origins.keys()),
                changes: views(changes@),
                failure: None,
            }) == scan_layer(ignored, hosts@, origins, paths, all.take(i as int)),
            layer_view(*layer) == Some(all),
            origins == old(environment)@.origins,
            paths == old(environment)@.origin_paths,
            ignored == old(environment)@.ignored_paths,
        decreases entries.len() - i,
    {
        proof {
            assert(all.take(i + 1).drop_last() =~= all.take(i as int));
            assert(all.take(i + 1).last() == entries@[i as int]@);
        }
        let taken = take_entry(
            &environment.ignored_paths,
            hosts,
            &mut environment.origins,
            &mut changes,
            &entries[i],
        );
        match taken {
            Err(e) => {
                proof {
                    lemma_layer_fails(ignored, hosts@, origins, paths, all, i + 1);
                    lemma_deletions_keep_failure(
                        ignored,
                        hosts@,
                        scan_layer(ignored, hosts@, origins, paths, all),
                        old(environment)@.deleted_paths,
                    );
                }
                return Err(e);
            },
            Ok(()) => {},
        }
        i += 1;
    }
    assert(all.take(entries.len() as int) =~= all);
    let ghost start = scan_layer(ignored, hosts@, origins, paths, all);
    let deleted = crate::path::copy_paths(&environment.deleted_paths);
    let ghost gone = path_texts(deleted@);
    let mut k: usize = 0;
    assert(scan_deletions(ignored, hosts@, start, gone.take(0)) == start);
    while k < deleted.len()
        invariant
            k <= deleted.len(),
            gone == path_texts(deleted@),
            gone == old(environment)@.deleted_paths,
            ignored == path_texts(environment.ignored_paths@),
            environment@ == (EnvironmentView {
                origins: environment.origins@,
                origin_paths: spelled(environment.origins.keys()),
                ..old(environment)@
            }),
            (ScanState {
                origins: environment.origins@,
                paths: spelled(environment.origins.keys()),
                changes: views(changes@),
                failure: None,
            }) == scan_deletions(ignored, hosts@, start, gone.take(k as int)),
            layer_view(*layer) == Some(all),
            origins == old(environment)@.origins,
            paths == old(environment)@.origin_paths,
            ignored == old(environment)@.ignored_paths,
            start == scan_layer(ignored, hosts@, origins, paths, all),
        decreases deleted.len() - k,
    {
        proof {
            assert(gone.take(k + 1).drop_last() =~= gone.take(k as int));
            assert(gone.take(k + 1).last() == deleted@[k as int]@);
        }
        let taken = take_deletion(
            &environment.ignored_paths,
            hosts,
            &mut environment.origins,
            &mut changes,
            &deleted[k],
        );
        match taken {
            Err(e) => {
                proof {
                    assert(gone.take(k + 1) + gone.skip(k + 1) =~= gone);
                    lemma_later_deletions(ignored, hosts@, start, gone, k + 1);
                }
                return Err(e);
            },
            Ok(()) => {},
        }
        k += 1;
    }
    assert(gone.take(deleted.len() as int) =~= gone);
    let ghost unsorted = views(changes@);
    proof {
        assert(ranks(changes@) =~= change_ranks(unsorted)) by {
            assert forall|j: int| 0 <= j < changes@.len() implies #[trigger] ranks(changes@)[j]
                == change_ranks(unsorted)[j] by {
                assert(unsorted[j] == changes@[j]@);
            }
        }
    }
    Ok(crate::model::sort_shown(changes))
}

proof fn lemma_sort_nothing()
    ensures
        sorted_changes(Seq::empty()) == Seq::<ChangeView>::empty(),
{
    let nothing = change_ranks(Seq::empty());
    let p = Seq::<int>::empty();
    assert(crate::order::stable_order::<Change>(nothing, p));
    crate::order::lemma_stable_order_unique::<Change>(nothing, p, sort_positions::<Change>(nothing));
    assert(sorted_changes(Seq::empty()) =~= Seq::<ChangeView>::empty());
}

/// Once a scan of the layer has failed, the rest of the layer changes nothing.
proof fn lemma_layer_fails(
    ignored: Seq<Seq<char>>,
    hosts: Map<Seq<PathPart>, HostNodeView>,
    origins: Map<Seq<PathPart>, OriginView>,
    paths: Map<Seq<PathPart>, Seq<char>>,
    entries: Seq<LayerEntryView>,
    n: int,
)
    requires
        0 <= n <= entries.len(),
        scan_layer(ignored, hosts, origins, paths, entries.take(n)).failure is Some,
    ensures
        scan_layer(ignored, hosts, origins, paths, entries) == scan_layer(
            ignored,
            hosts,
            origins,
            paths,
            entries.take(n),
        ),
    decreases entries.len() - n,
{
    if n == entries.len() {
        assert(entries.take(n) =~= entries);
    } else {
        assert(entries.take(n + 1).drop_last() =~= entries.take(n));
        lemma_layer_fails(ignored, hosts, origins, paths, entries, n + 1);
    }
}

proof fn lemma_deletions_keep_failure(
    ignored: Seq<Seq<char>>,
    hosts: Map<Seq<PathPart>, HostNodeView>,
    start: ScanState,
    deleted: Seq<Seq<char>>,
)
    requires
        start.failure is Some,
    ensures
        scan_deletions(ignored, hosts, start, deleted) == start,
    decreases deleted.len(),
{
    if deleted.len() > 0 {
        lemma_deletions_keep_failure(ignored, hosts, start, deleted.drop_last());
    }
}

proof fn lemma_later_deletions(
    ignored: Seq<Seq<char>>,
    hosts: Map<Seq<PathPart>, HostNodeView>,
    start: ScanState,
    deleted: Seq<Seq<char>>,
    n: int,
)
    requires
        0 <= n <= deleted.len(),
        scan_deletions(ignored, hosts, start, deleted.take(n)).failure is Some,
    ensures
        scan_deletions(ignored, hosts, start, deleted) == scan_deletions(
            ignored,
            hosts,
            start,
            deleted.take(n),
        ),
    decreases deleted.len() - n,
{
    if n == deleted.len() {
        assert(deleted.take(n) =~= deleted);
    } else {
        assert(deleted.take(n + 1).drop_last() =~= deleted.take(n));
        lemma_later_deletions(ignored, hosts, start, deleted, n + 1);
    }
}

/// Whether the host no longer holds what was recorded for a change.
pub open spec fn is_conflict(
    origins: Map<Seq<PathPart>, OriginView>,
    hosts: Map<Seq<PathPart>, HostNodeView>,
    path: Seq<char>,
) -> bool {
    match origin_of(host_at(hosts, path)) {
        Ok(current) => origins.dom().contains(parts(path)) && current != origins[parts(path)],
        Err(_) => false,
    }
}

/// The paths of the changes at which the host no longer holds what was recorded.
pub open spec fn conflict_paths(
    origins: Map<Seq<PathPart>, OriginView>,
    hosts: Map<Seq<PathPart>, HostNodeView>,
    changes: Seq<ChangeView>,
) -> Seq<Seq<char>>
    decreases changes.len(),
{
    if changes.len() == 0 {
        Seq::empty()
    } else {
        let before = conflict_paths(origins, hosts, changes.drop_last());
        if is_conflict(origins, hosts, changes.last().path) {
            before.push(changes.last().path)
        } else {
            before
        }
    }
}

/// The paths of the changes at which the host no longer holds what was recorded.
pub fn conflicts(
    environment: &Environment,
    changes: &Vec<Change>,
    hosts: &HostTable,
) -> (r: Vec<FsPath>)
    ensures
        path_texts(r@) == conflict_paths(environment@.origins, hosts@, views(changes@)),
{
    let mut r: Vec<FsPath> = Vec::new();
    let ghost all = views(changes@);
    let mut i: usize = 0;
    assert(path_texts(r@) =~= Seq::empty());
    while i < changes.len()
        invariant
            i <= changes.len(),
            all == views(changes@),
            path_texts(r@) == conflict_paths(environment@.origins, hosts@, all.take(i as int)),
        decreases changes.len() - i,
    {
        let ghost before = path_texts(r@);
        proof {
            assert(all.take(i + 1).drop_last() =~= all.take(i as int));
            assert(all.take(i + 1).last() == changes@[i as int]@);
        }
        let path = &changes[i].path;
        if let Ok(current) = inspect_host(hosts, path) {
            if let Some(recorded) = environment.origins.get(path) {
                if !current.same(recorded) {
                    r.push(path.copy());
                    assert(path_texts(r@) =~= before.push(path@));
                }
            }
        }
        i += 1;
    }
    assert(all.take(changes.len() as int) =~= all);
    r
}

/// Whether records are all still there, as they were.
pub open spec fn keeps_records(
    before: Map<Seq<PathPart>, OriginView>,
    origins: Map<Seq<PathPart>, OriginView>,
) -> bool {
    forall|key: Seq<PathPart>| #[trigger]
        before.dom().contains(key) ==> origins.dom().contains(key) && origins[key] == before[key]
}

/// Whether the records that are new say what the host holds.
pub open spec fn records_hosts(
    hosts: Map<Seq<PathPart>, HostNodeView>,
    before: Map<Seq<PathPart>, OriginView>,
    origins: Map<Seq<PathPart>, OriginView>,
) -> bool {
    forall|path: Seq<char>|
        origins.dom().contains(#[trigger] parts(path)) && !before.dom().contains(parts(path)) ==> (
        origin_of(host_at(hosts, path)) matches Ok(origin) ==> origins[parts(path)] == origin)
}

/// Whether a change stays where it may and has what the host held on record.
pub open spec fn is_sound_change(
    ignored: Seq<Seq<char>>,
    origins: Map<Seq<PathPart>, OriginView>,
    change: ChangeView,
) -> bool {
    &&& is_safe_relative(change.path)
    &&& !ignores(ignored, change.path)
    &&& origins.dom().contains(parts(change.path))
    &&& change.original_digest == origins[parts(change.path)].digest
}

/// Whether changes all stay where they may and have what the host held on record.
pub open spec fn are_sound_changes(
    ignored: Seq<Seq<char>>,
    origins: Map<Seq<PathPart>, OriginView>,
    changes: Seq<ChangeView>,
) -> bool {
    forall|i: int|
        0 <= i < changes.len() ==> is_sound_change(ignored, origins, #[trigger] changes[i])
}

/// What holds of a scan that started from the records `before`, however far it has come.
pub open spec fn scan_sound(
    ignored: Seq<Seq<char>>,
    hosts: Map<Seq<PathPart>, HostNodeView>,
    before: Map<Seq<PathPart>, OriginView>,
    state: ScanState,
) -> bool {
    &&& keeps_records(before, state.origins)
    &&& records_hosts(hosts, before, state.origins)
    &&& are_sound_changes(ignored, state.origins, state.changes)
}

/// One more record keeps what holds of the others.
proof fn lemma_more_records(
    ignored: Seq<Seq<char>>,
    hosts: Map<Seq<PathPart>, HostNodeView>,
    before: Map<Seq<PathPart>, OriginView>,
    state: ScanState,
    path: Seq<char>,
    found: OriginView,
)
    requires
        scan_sound(ignored, hosts, before, state),
        origin_of(host_at(hosts, path)) matches Ok(origin) ==> found == origin,
    ensures
        keeps_records(before, with_origin(state.origins, path, found)),
        records_hosts(hosts, before, with_origin(state.origins, path, found)),
        are_sound_changes(ignored, with_origin(state.origins, path, found), state.changes),
{
    let origins = with_origin(state.origins, path, found);
    assert forall|other: Seq<char>|
        origins.dom().contains(#[trigger] parts(other)) && !before.dom().contains(
            parts(other),
        ) implies (origin_of(host_at(hosts, other)) matches Ok(origin) ==> origins[parts(other)]
        == origin) by {
        if !state.origins.dom().contains(parts(other)) {
            assert(parts(other) == parts(path));
        }
    }
    assert forall|i: int| 0 <= i < state.changes.len() implies is_sound_change(
        ignored,
        origins,
        #[trigger] state.changes[i],
    ) by {
        assert(is_sound_change(ignored, state.origins, state.changes[i]));
    }
}

proof fn lemma_entry_is_sound(
    ignored: Seq<Seq<char>>,
    hosts: Map<Seq<PathPart>, HostNodeView>,
    before: Map<Seq<PathPart>, OriginView>,
    state: ScanState,
    entry: LayerEntryView,
)
    requires
        scan_sound(ignored, hosts, before, state),
    ensures
        scan_sound(ignored, hosts, before, scan_entry(ignored, hosts, state, entry)),
{
    let found = match origin_of(host_at(hosts, entry.path)) {
        Ok(origin) => origin,
        Err(_) => Origin::nothing(),
    };
    lemma_more_records(ignored, hosts, before, state, entry.path, found);
}

proof fn lemma_deletion_is_sound(
    ignored: Seq<Seq<char>>,
    hosts: Map<Seq<PathPart>, HostNodeView>,
    before: Map<Seq<PathPart>, OriginView>,
    state: ScanState,
    path: Seq<char>,
)
    requires
        scan_sound(ignored, hosts, before, state),
    ensures
        scan_sound(ignored, hosts, before, scan_deletion(ignored, hosts, state, path)),
{
    if let Ok(found) = origin_of(host_at(hosts, path)) {
        lemma_more_records(ignored, hosts, before, state, path, found);
    }
}

proof fn lemma_layer_is_sound(
    ignored: Seq<Seq<char>>,
    hosts: Map<Seq<PathPart>, HostNodeView>,
    before: Map<Seq<PathPart>, OriginView>,
    paths: Map<Seq<PathPart>, Seq<char>>,
    entries: Seq<LayerEntryView>,
)
    ensures
        scan_sound(ignored, hosts, before, scan_layer(ignored, hosts, before, paths, entries)),
    decreases entries.len(),
{
    if entries.len() > 0 {
        lemma_layer_is_sound(ignored, hosts, before, paths, entries.drop_last());
        lemma_entry_is_sound(
            ignored,
            hosts,
            before,
            scan_layer(ignored, hosts, before, paths, entries.drop_last()),
            entries.last(),
        );
    }
}

proof fn lemma_deletions_are_sound(
    ignored: Seq<Seq<char>>,
    hosts: Map<Seq<PathPart>, HostNodeView>,
    before: Map<Seq<PathPart>, OriginView>,
    start: ScanState,
    deleted: Seq<Seq<char>>,
)
    requires
        scan_sound(ignored, hosts, before, start),
    ensures
        scan_sound(ignored, hosts, before, scan_deletions(ignored, hosts, start, deleted)),
    decreases deleted.len(),
{
    if deleted.len() > 0 {
        lemma_deletions_are_sound(ignored, hosts, before, start, deleted.drop_last());
        lemma_deletion_is_sound(
            ignored,
            hosts,
            before,
            scan_deletions(ignored, hosts, start, deleted.drop_last()),
            deleted.last(),
        );
    }
}

proof fn lemma_scan_is_sound(
    environment: EnvironmentView,
    layer: Option<Seq<LayerEntryView>>,
    hosts: Map<Seq<PathPart>, HostNodeView>,
)
    ensures
        scan_sound(
            environment.ignored_paths,
            hosts,
            environment.origins,
            scan(environment, layer, hosts),
        ),
{
    if let Some(entries) = layer {
        lemma_layer_is_sound(
            environment.ignored_paths,
            hosts,
            environment.origins,
            environment.origin_paths,
            entries,
        );
        lemma_deletions_are_sound(
            environment.ignored_paths,
            hosts,
            environment.origins,
            scan_layer(
                environment.ignored_paths,
                hosts,
                environment.origins,
                environment.origin_paths,
                entries,
            ),
            environment.deleted_paths,
        );
    }
}

/// Every change that a scan finds stays below the base root, lies under none of the ignored paths,
/// and has what the host held at its path on record.
pub proof fn law_changes_are_safe_and_recorded(
    environment: EnvironmentView,
    layer: Option<Seq<LayerEntryView>>,
    hosts: Map<Seq<PathPart>, HostNodeView>,
    i: int,
)
    requires
        0 <= i < scan(environment, layer, hosts).changes.len(),
    ensures
        ({
            let state = scan(environment, layer, hosts);
            let change = sorted_changes(state.changes)[i];
            &&& sorted_changes(state.changes).len() == state.changes.len()
            &&& is_safe_relative(change.path)
            &&& !ignores(environment.ignored_paths, change.path)
            &&& state.origins.dom().contains(parts(change.path))
            &&& change.original_digest == state.origins[parts(change.path)].digest
        }),
{
    lemma_scan_is_sound(environment, layer, hosts);
    let state = scan(environment, layer, hosts);
    lemma_sorted_members::<Change, ChangeView>(change_ranks(state.changes), state.changes);
    let change = sorted_changes(state.changes)[i];
    assert(state.changes.contains(change));
    let k = choose|k: int| 0 <= k < state.changes.len() && state.changes[k] == change;
    assert(is_sound_change(environment.ignored_paths, state.origins, state.changes[k]));
}

/// A scan never overwrites a record of what the host held: it only adds records.
pub proof fn law_scans_keep_records(
    environment: EnvironmentView,
    layer: Option<Seq<LayerEntryView>>,
    hosts: Map<Seq<PathPart>, HostNodeView>,
    key: Seq<PathPart>,
)
    requires
        environment.origins.dom().contains(key),
    ensures
        scan(environment, layer, hosts).origins.dom().contains(key),
        scan(environment, layer, hosts).origins[key] == environment.origins[key],
{
    lemma_scan_is_sound(environment, layer, hosts);
}

proof fn lemma_no_conflicts(
    origins: Map<Seq<PathPart>, OriginView>,
    hosts: Map<Seq<PathPart>, HostNodeView>,
    changes: Seq<ChangeView>,
)
    requires
        forall|i: int|
            0 <= i < changes.len() ==> !is_conflict(origins, hosts, (#[trigger] changes[i]).path),
    ensures
        conflict_paths(origins, hosts, changes).len() == 0,
    decreases changes.len(),
{
    if changes.len() > 0 {
        let shorter = changes.drop_last();
        assert forall|i: int| 0 <= i < shorter.len() implies !is_conflict(
            origins,
            hosts,
            (#[trigger] shorter[i]).path,
        ) by {
            assert(shorter[i] == changes[i]);
        }
        lemma_no_conflicts(origins, hosts, shorter);
        assert(!is_conflict(origins, hosts, changes[changes.len() - 1].path));
    }
}

/// What a scan records conflicts with nothing: where nothing was on record before, the host holds
/// what the scan recorded, so none of the changes is a conflict until the host changes.
pub proof fn law_fresh_records_do_not_conflict(
    environment: EnvironmentView,
    layer: Option<Seq<LayerEntryView>>,
    hosts: Map<Seq<PathPart>, HostNodeView>,
)
    requires
        environment.origins == Map::<Seq<PathPart>, OriginView>::empty(),
    ensures
        ({
            let state = scan(environment, layer, hosts);
            conflict_paths(state.origins, hosts, sorted_changes(state.changes)).len() == 0
        }),
{
    lemma_scan_is_sound(environment, layer, hosts);
    let state = scan(environment, layer, hosts);
    let changes = sorted_changes(state.changes);
    assert forall|i: int| 0 <= i < changes.len() implies !is_conflict(
        state.origins,
        hosts,
        (#[trigger] changes[i]).path,
    ) by {
        let path = changes[i].path;
        assert(!environment.origins.dom().contains(parts(path)));
    }
    lemma_no_conflicts(state.origins, hosts, changes);
}

/// A change of the host after it was recorded is noticed: a change at whose path the host holds
/// something other than what is on record is among the conflicts.
pub proof fn law_host_changes_are_conflicts(
    origins: Map<Seq<PathPart>, OriginView>,
    hosts: Map<Seq<PathPart>, HostNodeView>,
    changes: Seq<ChangeView>,
    i: int,
)
    requires
        0 <= i < changes.len(),
        is_conflict(origins, hosts, changes[i].path),
    ensures
        conflict_paths(origins, hosts, changes).contains(changes[i].path),
    decreases changes.len(),
{
    let list = conflict_paths(origins, hosts, changes);
    if i == changes.len() - 1 {
        assert(list[list.len() - 1] == changes[i].path);
    } else {
        let shorter = changes.drop_last();
        assert(shorter[i] == changes[i]);
        law_host_changes_are_conflicts(origins, hosts, shorter, i);
        let before = conflict_paths(origins, hosts, shorter);
        let k = choose|k: int| 0 <= k < before.len() && before[k] == changes[i].path;
        assert(list[k] == changes[i].path);
    }
}

/// What was read of a file for a text comparison.
pub enum FileText {
    NotAFile,
    Content(Vec<u8>),
    Failed(String),
}

/// The text to compare, or why there is none.
pub open spec fn text_of(file: FileText, path: Seq<char>) -> Result<Seq<char>, Seq<char>> {
    match file {
        FileText::NotAFile => Ok(Seq::empty()),
        FileText::Failed(message) => Err(message@),
        FileText::Content(content) => if content@.len() > MAX_TEXT_DIFF_BYTES {
            Err(path + " is too large for a text diff"@)
        } else if !vstd::utf8::valid_utf8(content@) {
            Err("read "@ + path + ": stream did not contain valid UTF-8"@)
        } else {
            Ok(vstd::utf8::decode_utf8(content@))
        },
    }
}

fn read_text(file: &FileText, path: &FsPath) -> (r: Result<String, String>)
    ensures
        match r {
            Ok(s) => text_of(*file, path@) == Ok::<Seq<char>, Seq<char>>(s@),
            Err(e) => text_of(*file, path@) == Err::<Seq<char>, Seq<char>>(e@),
        },
{
    match file {
        FileText::NotAFile => Ok(String::new()),
        FileText::Failed(message) => Err(message.clone()),
        FileText::Content(content) => {
            if content.len() > MAX_TEXT_DIFF_BYTES {
                return Err(path.display().concat(" is too large for a text diff"));
            }
            match decode_exact(content) {
                Some(s) => Ok(s),
                None => Err(
                    "read ".to_owned().concat(path.text.as_str()).concat(
                        ": stream did not contain valid UTF-8",
                    ),
                ),
            }
        },
    }
}

/// The line above the difference of one path.
pub open spec fn change_header(change: ChangeView) -> Seq<char> {
    change.kind.name() + " "@ + change.path + "\n"@
}

/// Whether only the header of a change is shown.
pub open spec fn header_only(change: ChangeView) -> bool {
    change.binary || (change.kind == ChangeKind::Deleted && change.original_digest is None)
}

/// A change as shown: its header and, for text, the unified difference.
pub open spec fn change_text(
    base_root: Seq<char>,
    upper: Seq<char>,
    change: ChangeView,
    host: FileText,
    sandbox: FileText,
) -> Result<Seq<char>, Seq<char>> {
    let header = change_header(change);
    if header_only(change) {
        Ok(header)
    } else {
        let kept = if change.kind == ChangeKind::Deleted {
            FileText::NotAFile
        } else {
            sandbox
        };
        match text_of(host, joined(base_root, change.path)) {
            Err(e) => Err(e),
            Ok(before) => match text_of(kept, joined(upper, change.path)) {
                Err(e) => Err(e),
                Ok(after) => if before == after {
                    Ok(header)
                } else {
                    Ok(
                        header + unified_text(
                            before,
                            after,
                            "host/"@ + change.path,
                            "sandbox/"@ + change.path,
                        ),
                    )
                },
            },
        }
    }
}

/// Renders one change: its header and, for text, the unified difference.
pub fn render_change_diff(
    environment: &Environment,
    upper: &FsPath,
    change: &Change,
    host: &FileText,
    sandbox: &FileText,
) -> (r: Result<String, String>)
    ensures
        match r {
            Ok(s) => change_text(environment@.base_root, upper@, change@, *host, *sandbox)
                == Ok::<Seq<char>, Seq<char>>(s@),
            Err(e) => change_text(environment@.base_root, upper@, change@, *host, *sandbox)
                == Err::<Seq<char>, Seq<char>>(e@),
        },
{
    let header = change.kind.label().to_owned().concat(" ").concat(
        change.path.text.as_str(),
    ).concat("\n");
    if change.binary || (change.kind == ChangeKind::Deleted && change.original_digest.is_none()) {
        return Ok(header);
    }
    let before = match read_text(host, &environment.base_root.join(change.path.text.as_str())) {
        Ok(s) => s,
        Err(e) => return Err(e),
    };
    let target = upper.join(change.path.text.as_str());
    let kept = if change.kind == ChangeKind::Deleted {
        read_text(&FileText::NotAFile, &target)
    } else {
        read_text(sandbox, &target)
    };
    let after = match kept {
        Ok(s) => s,
        Err(e) => return Err(e),
    };
    if same_text(before.as_str(), after.as_str()) {
        return Ok(header);
    }
    let old_name = "host/".to_owned().concat(change.path.text.as_str());
    let new_name = "sandbox/".to_owned().concat(change.path.text.as_str());
    let unified = unified_diff(
        before.as_str(),
        after.as_str(),
        old_name.as_str(),
        new_name.as_str(),
    );
    Ok(header.concat(unified.as_str()))
}

} // verus!
