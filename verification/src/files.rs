//! How files are copied, with what belongs to them, and removed.
use vstd::prelude::*;

use crate::diff::{Attribute, AttributeView, FileKind};
use crate::identity::{hex_text, random_id, simple_text, EnvironmentId};
use crate::model::views;
use crate::path::FsPath;
use crate::text::{decimal, number_text};

verus! {

/// The file that is written before it takes the place of a copied one.
pub open spec fn temporary_name(process: nat, unique: Seq<u8>) -> Seq<char> {
    ".netsandbox-apply-"@ + decimal(process) + "-"@ + hex_text(unique)
}

/// The file that is written before it takes the place of a record.
pub open spec fn scratch_of(file: Seq<char>, process: nat) -> Seq<char> {
    "."@ + file + ".tmp-"@ + decimal(process)
}

/// The name of the file that is written before it takes the place of a record.
pub fn scratch_name(file: &str, process: u32) -> (r: String)
    ensures
        r@ == scratch_of(file@, process as nat),
{
    ".".to_owned().concat(file).concat(".tmp-").concat(number_text(process as u64).as_str())
}

/// What stands where something is copied to.
#[derive(Debug, Clone, Copy)]
pub struct Destination {
    /// Whether anything is there, links followed.
    pub exists: bool,
    /// What is there, links not followed.
    pub kind: Option<FileKind>,
}

/// One step of a copy. Temporary files are in the directory of the destination.
pub enum CopyStep {
    /// Make the directory of the destination.
    MakeParent,
    /// Remove what is at the destination.
    Remove,
    /// Copy the content of the source to a temporary file.
    CopyContent { temporary: String },
    /// Give the temporary file what belongs to the source.
    CarryToTemporary { temporary: String },
    /// Let the temporary file take the place of the destination.
    Rename { temporary: String },
    /// Make a link to where the source leads.
    Link,
    MakeDirectory,
    /// Copy each entry of the source to the same name at the destination.
    CopyChildren,
    /// Give the destination what belongs to the source, links followed or not.
    Carry { no_follow: bool },
    Refuse { message: String },
}

#[verifier::ext_equal]
pub enum CopyStepView {
    MakeParent,
    Remove,
    CopyContent { temporary: Seq<char> },
    CarryToTemporary { temporary: Seq<char> },
    Rename { temporary: Seq<char> },
    Link,
    MakeDirectory,
    CopyChildren,
    Carry { no_follow: bool },
    Refuse { message: Seq<char> },
}

impl View for CopyStep {
    type V = CopyStepView;

    open spec fn view(&self) -> CopyStepView {
        match self {
            CopyStep::MakeParent => CopyStepView::MakeParent,
            CopyStep::Remove => CopyStepView::Remove,
            CopyStep::CopyContent { temporary } => CopyStepView::CopyContent {
                temporary: temporary@,
            },
            CopyStep::CarryToTemporary { temporary } => CopyStepView::CarryToTemporary {
                temporary: temporary@,
            },
            CopyStep::Rename { temporary } => CopyStepView::Rename { temporary: temporary@ },
            CopyStep::Link => CopyStepView::Link,
            CopyStep::MakeDirectory => CopyStepView::MakeDirectory,
            CopyStep::CopyChildren => CopyStepView::CopyChildren,
            CopyStep::Carry { no_follow } => CopyStepView::Carry { no_follow: *no_follow },
            CopyStep::Refuse { message } => CopyStepView::Refuse { message: message@ },
        }
    }
}

/// Whether what is at the destination goes before a copy of the given kind comes.
pub open spec fn is_in_the_way(kind: FileKind, found: Destination) -> bool {
    match kind {
        FileKind::File => found.exists && found.kind != Some(FileKind::File),
        FileKind::Symlink => true,
        FileKind::Directory => found.kind is Some && found.kind != Some(FileKind::Directory),
        _ => false,
    }
}

/// What puts the copy in place, once nothing is in the way.
pub open spec fn placing_steps(source: Seq<char>, kind: FileKind, temporary: Seq<char>) -> Seq<
    CopyStepView,
> {
    match kind {
        FileKind::File => seq![
            CopyStepView::CopyContent { temporary },
            CopyStepView::CarryToTemporary { temporary },
            CopyStepView::Rename { temporary },
        ],
        FileKind::Symlink => seq![CopyStepView::Link, CopyStepView::Carry { no_follow: true }],
        FileKind::Directory => seq![
            CopyStepView::MakeDirectory,
            CopyStepView::CopyChildren,
            CopyStepView::Carry { no_follow: false },
        ],
        _ => seq![
            CopyStepView::Refuse {
                message: "refusing to apply unsupported special file "@ + source,
            },
        ],
    }
}

/// The steps of a copy.
pub open spec fn copy_steps(
    source: Seq<char>,
    kind: FileKind,
    found: Destination,
    temporary: Seq<char>,
) -> Seq<CopyStepView> {
    seq![CopyStepView::MakeParent] + (if is_in_the_way(kind, found) {
        seq![CopyStepView::Remove]
    } else {
        Seq::empty()
    }) + placing_steps(source, kind, temporary)
}

fn in_the_way(kind: FileKind, found: Destination) -> (r: bool)
    ensures
        r == is_in_the_way(kind, found),
{
    match kind {
        FileKind::File => found.exists && match found.kind {
            Some(FileKind::File) => false,
            _ => true,
        },
        FileKind::Symlink => true,
        FileKind::Directory => match found.kind {
            None => false,
            Some(FileKind::Directory) => false,
            _ => true,
        },
        _ => false,
    }
}

/// The steps that copy what is at a path, by a process, to a destination where the given things
/// were found. `unique` tells the copies of a process apart.
pub fn copy_entry_as(
    source: &FsPath,
    kind: FileKind,
    found: Destination,
    process: u32,
    unique: &EnvironmentId,
) -> (r: Vec<CopyStep>)
    ensures
        views(r@) == copy_steps(source@, kind, found, temporary_name(process as nat, unique@)),
{
    let mut r: Vec<CopyStep> = Vec::new();
    r.push(CopyStep::MakeParent);
    if in_the_way(kind, found) {
        r.push(CopyStep::Remove);
    }
    match kind {
        FileKind::File => {
            let temporary = ".netsandbox-apply-".to_owned().concat(
                number_text(process as u64).as_str(),
            ).concat("-").concat(simple_text(unique).as_str());
            r.push(CopyStep::CopyContent { temporary: temporary.clone() });
            r.push(CopyStep::CarryToTemporary { temporary: temporary.clone() });
            r.push(CopyStep::Rename { temporary });
        },
        FileKind::Symlink => {
            r.push(CopyStep::Link);
            r.push(CopyStep::Carry { no_follow: true });
        },
        FileKind::Directory => {
            r.push(CopyStep::MakeDirectory);
            r.push(CopyStep::CopyChildren);
            r.push(CopyStep::Carry { no_follow: false });
        },
        _ => {
            r.push(
                CopyStep::Refuse {
                    message: "refusing to apply unsupported special file ".to_owned().concat(
                        source.text.as_str(),
                    ),
                },
            );
        },
    }
    assert(views(r@) =~= copy_steps(
        source@,
        kind,
        found,
        temporary_name(process as nat, unique@),
    ));
    r
}

/// The steps that copy what is at a path, by a process, to a destination where the given things
/// were found. Each copy has a temporary file with a random name of its own.
pub fn copy_entry(
    source: &FsPath,
    kind: FileKind,
    found: Destination,
    process: u32,
) -> (r: Vec<CopyStep>)
    ensures
        exists|unique: Seq<u8>|
            unique.len() == 16 && views(r@) == copy_steps(
                source@,
                kind,
                found,
                #[trigger] temporary_name(process as nat, unique),
            ),
{
    let unique = random_id();
    copy_entry_as(source, kind, found, process, &unique)
}

/// Whether a step changes what is seen at the destination.
pub open spec fn is_seen(step: CopyStepView) -> bool {
    match step {
        CopyStepView::MakeParent => false,
        CopyStepView::CopyContent { .. } => false,
        CopyStepView::CarryToTemporary { .. } => false,
        CopyStepView::Refuse { .. } => false,
        _ => true,
    }
}

/// A file that is copied over a file replaces it whole: the last step is the only one that changes
/// what is seen at the destination, and the copy has by then what belongs to the source.
pub proof fn law_files_are_replaced_whole(
    source: Seq<char>,
    found: Destination,
    temporary: Seq<char>,
)
    requires
        found.kind == Some(FileKind::File),
    ensures
        ({
            let steps = copy_steps(source, FileKind::File, found, temporary);
            &&& steps.last() == CopyStepView::Rename { temporary }
            &&& steps.contains(CopyStepView::CarryToTemporary { temporary })
            &&& forall|i: int| 0 <= i < steps.len() - 1 ==> !is_seen(#[trigger] steps[i])
        }),
{
    let steps = copy_steps(source, FileKind::File, found, temporary);
    assert(steps[2] == CopyStepView::CarryToTemporary { temporary });
}

/// Devices, pipes and sockets are never copied, and nothing at the destination is touched for one.
pub proof fn law_special_files_are_refused(
    source: Seq<char>,
    kind: FileKind,
    found: Destination,
    temporary: Seq<char>,
)
    requires
        kind != FileKind::File,
        kind != FileKind::Symlink,
        kind != FileKind::Directory,
    ensures
        ({
            let steps = copy_steps(source, kind, found, temporary);
            &&& steps.last() is Refuse
            &&& forall|i: int| 0 <= i < steps.len() ==> !is_seen(#[trigger] steps[i])
        }),
{
}

/// How a path is removed.
#[derive(Debug, Clone, Copy, PartialEq, Eq, Structural)]
pub enum Removal {
    Nothing,
    File,
    Tree,
}

/// How a path is removed at which the given thing was found, links not followed.
pub fn remove_path(found: Option<FileKind>) -> (r: Removal)
    ensures
        r == (match found {
            None => Removal::Nothing,
            Some(FileKind::Directory) => Removal::Tree,
            Some(_) => Removal::File,
        }),
{
    match found {
        None => Removal::Nothing,
        Some(FileKind::Directory) => Removal::Tree,
        Some(_) => Removal::File,
    }
}

/// What belongs to a file besides its content.
pub struct Belongings {
    pub uid: u32,
    pub gid: u32,
    pub mode: u32,
    pub attributes: Vec<Attribute>,
}

#[verifier::ext_equal]
pub struct BelongingsView {
    pub uid: u32,
    pub gid: u32,
    pub mode: u32,
    pub attributes: Seq<AttributeView>,
}

impl View for Belongings {
    type V = BelongingsView;

    open spec fn view(&self) -> BelongingsView {
        BelongingsView {
            uid: self.uid,
            gid: self.gid,
            mode: self.mode,
            attributes: views(self.attributes@),
        }
    }
}

/// One step of carrying belongings over.
pub enum CarryStep {
    SetOwner { uid: u32, gid: u32 },
    SetAttribute { name: Vec<u8>, value: Vec<u8> },
    SetMode { mode: u32 },
}

#[verifier::ext_equal]
pub enum CarryStepView {
    SetOwner { uid: u32, gid: u32 },
    SetAttribute { name: Seq<u8>, value: Seq<u8> },
    SetMode { mode: u32 },
}

impl View for CarryStep {
    type V = CarryStepView;

    open spec fn view(&self) -> CarryStepView {
        match self {
            CarryStep::SetOwner { uid, gid } => CarryStepView::SetOwner { uid: *uid, gid: *gid },
            CarryStep::SetAttribute { name, value } => CarryStepView::SetAttribute {
                name: name@,
                value: value@,
            },
            CarryStep::SetMode { mode } => CarryStepView::SetMode { mode: *mode },
        }
    }
}

/// The steps that set attributes, in their order. One that vanished is left out.
pub open spec fn attribute_steps(attributes: Seq<AttributeView>) -> Seq<CarryStepView>
    decreases attributes.len(),
{
    if attributes.len() == 0 {
        Seq::empty()
    } else {
        let before = attribute_steps(attributes.drop_last());
        match attributes.last().value {
            Some(value) => before.push(
                CarryStepView::SetAttribute { name: attributes.last().name, value },
            ),
            None => before,
        }
    }
}

/// The steps that carry belongings to a file with the given owner: the owner where it is another,
/// the attributes, and the mode unless the file is a link.
pub open spec fn carry_steps(source: BelongingsView, uid: u32, gid: u32, no_follow: bool) -> Seq<
    CarryStepView,
> {
    (if uid != source.uid || gid != source.gid {
        seq![CarryStepView::SetOwner { uid: source.uid, gid: source.gid }]
    } else {
        Seq::empty()
    }) + attribute_steps(source.attributes) + (if no_follow {
        Seq::empty()
    } else {
        seq![CarryStepView::SetMode { mode: source.mode }]
    })
}

/// The steps that carry belongings to a file with the given owner.
pub fn copy_metadata(source: Belongings, uid: u32, gid: u32, no_follow: bool) -> (r: Vec<CarryStep>)
    ensures
        views(r@) == carry_steps(source@, uid, gid, no_follow),
{
    let ghost all = source@.attributes;
    let mut r: Vec<CarryStep> = Vec::new();
    if uid != source.uid || gid != source.gid {
        r.push(CarryStep::SetOwner { uid: source.uid, gid: source.gid });
    }
    let ghost head = views(r@);
    let attributes = source.attributes;
    let mut i: usize = 0;
    assert(all.take(0) =~= Seq::empty());
    assert(views(r@) =~= head + attribute_steps(all.take(0)));
    while i < attributes.len()
        invariant
            i <= attributes.len(),
            all == views(attributes@),
            views(r@) == head + attribute_steps(all.take(i as int)),
        decreases attributes.len() - i,
    {
        proof {
            assert(all.take(i + 1).drop_last() =~= all.take(i as int));
            assert(all.take(i + 1).last() == attributes@[i as int]@);
        }
        let ghost before = r@;
        match &attributes[i].value {
            Some(value) => {
                let step = CarryStep::SetAttribute {
                    name: crate::diff::copy_bytes(&attributes[i].name),
                    value: crate::diff::copy_bytes(value),
                };
                r.push(step);
                assert(views(r@) =~= views(before).push(step@));
                assert(views(r@) =~= head + attribute_steps(all.take(i + 1)));
            },
            None => {},
        }
        i += 1;
    }
    assert(all.take(attributes.len() as int) =~= all);
    if !no_follow {
        let ghost before = r@;
        let step = CarryStep::SetMode { mode: source.mode };
        r.push(step);
        assert(views(r@) =~= views(before).push(step@));
    }
    assert(views(r@) =~= carry_steps(source@, uid, gid, no_follow));
    r
}

/// The state of a file that steps are done to.
#[verifier::ext_equal]
pub struct HeldView {
    pub uid: u32,
    pub gid: u32,
    pub mode: u32,
    pub attributes: Map<Seq<u8>, Seq<u8>>,
}

/// What a step makes of a file.
pub open spec fn carried(step: CarryStepView, held: HeldView) -> HeldView {
    match step {
        CarryStepView::SetOwner { uid, gid } => HeldView { uid, gid, ..held },
        CarryStepView::SetAttribute { name, value } => HeldView {
            attributes: held.attributes.insert(name, value),
            ..held
        },
        CarryStepView::SetMode { mode } => HeldView { mode, ..held },
    }
}

/// What steps make of a file, one after the other.
pub open spec fn all_carried(steps: Seq<CarryStepView>, held: HeldView) -> HeldView
    decreases steps.len(),
{
    if steps.len() == 0 {
        held
    } else {
        carried(steps.last(), all_carried(steps.drop_last(), held))
    }
}

/// The attributes that did not vanish. Where a name occurs twice, the last value counts.
pub open spec fn attribute_map(attributes: Seq<AttributeView>) -> Map<Seq<u8>, Seq<u8>>
    decreases attributes.len(),
{
    if attributes.len() == 0 {
        Map::empty()
    } else {
        let before = attribute_map(attributes.drop_last());
        match attributes.last().value {
            Some(value) => before.insert(attributes.last().name, value),
            None => before,
        }
    }
}

proof fn lemma_carried_in_turn(first: Seq<CarryStepView>, second: Seq<CarryStepView>, held: HeldView)
    ensures
        all_carried(first + second, held) == all_carried(second, all_carried(first, held)),
    decreases second.len(),
{
    if second.len() == 0 {
        assert(first + second =~= first);
    } else {
        lemma_carried_in_turn(first, second.drop_last(), held);
        assert((first + second).drop_last() =~= first + second.drop_last());
    }
}

proof fn lemma_attributes_carried(attributes: Seq<AttributeView>, held: HeldView)
    ensures
        all_carried(attribute_steps(attributes), held) == (HeldView {
            attributes: held.attributes.union_prefer_right(attribute_map(attributes)),
            ..held
        }),
    decreases attributes.len(),
{
    let union = held.attributes.union_prefer_right(attribute_map(attributes));
    if attributes.len() == 0 {
        assert(union =~= held.attributes);
    } else {
        let front = attributes.drop_last();
        lemma_attributes_carried(front, held);
        match attributes.last().value {
            Some(value) => {
                assert(attribute_steps(attributes).drop_last() =~= attribute_steps(front));
                assert(union =~= held.attributes.union_prefer_right(attribute_map(front)).insert(
                    attributes.last().name,
                    value,
                ));
            },
            None => {},
        }
    }
}

/// A copy keeps what belongs to the source: it ends with the same owner and every extended
/// attribute of the source, and, unless it is a link, with the same mode. What the destination
/// had besides stays.
pub proof fn law_copies_keep_what_belongs(
    source: BelongingsView,
    held: HeldView,
    no_follow: bool,
)
    ensures
        ({
            let result = all_carried(carry_steps(source, held.uid, held.gid, no_follow), held);
            &&& result.uid == source.uid
            &&& result.gid == source.gid
            &&& !no_follow ==> result.mode == source.mode
            &&& result.attributes == held.attributes.union_prefer_right(
                attribute_map(source.attributes),
            )
        }),
{
    let owner = if held.uid != source.uid || held.gid != source.gid {
        seq![CarryStepView::SetOwner { uid: source.uid, gid: source.gid }]
    } else {
        Seq::empty()
    };
    let middle = attribute_steps(source.attributes);
    let ending = if no_follow {
        Seq::empty()
    } else {
        seq![CarryStepView::SetMode { mode: source.mode }]
    };
    reveal_with_fuel(all_carried, 2);
    lemma_carried_in_turn(owner + middle, ending, held);
    lemma_carried_in_turn(owner, middle, held);
    assert(owner.drop_last() =~= Seq::empty() || owner.len() == 0);
    assert(ending.drop_last() =~= Seq::empty() || ending.len() == 0);
    let owned = all_carried(owner, held);
    lemma_attributes_carried(source.attributes, owned);
}

} // verus!
