use netsandbox::diff::{Attribute, FileKind};
use netsandbox::files::{
    copy_entry, copy_entry_as, copy_metadata, remove_path, scratch_name, Belongings, CarryStep,
    CopyStep, Destination, Removal,
};
use netsandbox::identity::EnvironmentId;
use netsandbox::path::FsPath;

fn names(steps: &[CopyStep]) -> Vec<String> {
    steps
        .iter()
        .map(|step| match step {
            CopyStep::MakeParent => "parent".to_owned(),
            CopyStep::Remove => "remove".to_owned(),
            CopyStep::CopyContent { temporary } => format!("copy {temporary}"),
            CopyStep::CarryToTemporary { temporary } => format!("carry {temporary}"),
            CopyStep::Rename { temporary } => format!("rename {temporary}"),
            CopyStep::Link => "link".to_owned(),
            CopyStep::MakeDirectory => "directory".to_owned(),
            CopyStep::CopyChildren => "children".to_owned(),
            CopyStep::Carry { no_follow } => format!("carry {no_follow}"),
            CopyStep::Refuse { message } => message.clone(),
        })
        .collect()
}

fn steps(kind: FileKind, exists: bool, found: Option<FileKind>) -> Vec<String> {
    names(&copy_entry_as(
        &FsPath::new("/upper/a"),
        kind,
        Destination { exists, kind: found },
        7,
        &EnvironmentId { bytes: [0xab; 16] },
    ))
}

const TEMPORARY: &str = ".netsandbox-apply-7-abababababababababababababababab";

#[test]
fn files_are_replaced_whole() {
    let placed = [
        "parent".to_owned(),
        format!("copy {TEMPORARY}"),
        format!("carry {TEMPORARY}"),
        format!("rename {TEMPORARY}"),
    ];
    assert_eq!(steps(FileKind::File, true, Some(FileKind::File)), placed);
    assert_eq!(steps(FileKind::File, false, None), placed);
    assert_eq!(steps(FileKind::File, false, Some(FileKind::Symlink)), placed);
    let over_directory = steps(FileKind::File, true, Some(FileKind::Directory));
    assert_eq!(over_directory[1], "remove");
    assert_eq!(over_directory.len(), 5);
}

#[test]
fn links_and_directories_are_made_anew() {
    assert_eq!(steps(FileKind::Symlink, false, None), ["parent", "remove", "link", "carry true"]);
    assert_eq!(
        steps(FileKind::Directory, true, Some(FileKind::Directory)),
        ["parent", "directory", "children", "carry false"]
    );
    assert_eq!(
        steps(FileKind::Directory, true, Some(FileKind::File)),
        ["parent", "remove", "directory", "children", "carry false"]
    );
}

#[test]
fn special_files_are_refused() {
    for kind in [
        FileKind::CharDevice,
        FileKind::BlockDevice,
        FileKind::Fifo,
        FileKind::Socket,
        FileKind::Unknown,
    ] {
        assert_eq!(
            steps(kind, true, Some(FileKind::File)),
            ["parent", "refusing to apply unsupported special file /upper/a"]
        );
    }
}

#[test]
fn copies_have_temporary_files_of_their_own() {
    let found = Destination { exists: false, kind: None };
    let copy = || names(&copy_entry(&FsPath::new("/upper/a"), FileKind::File, found, 7));
    let (first, second) = (copy(), copy());
    assert!(first[1].starts_with("copy .netsandbox-apply-7-"));
    assert_eq!(first[1].len(), "copy ".len() + TEMPORARY.len());
    assert_ne!(first[1], second[1]);
    assert_eq!(scratch_name("environment.json", 42), ".environment.json.tmp-42");
}

#[test]
fn removals_fit_what_is_there() {
    assert_eq!(remove_path(None), Removal::Nothing);
    assert_eq!(remove_path(Some(FileKind::Directory)), Removal::Tree);
    assert_eq!(remove_path(Some(FileKind::Symlink)), Removal::File);
}

#[test]
fn belongings_are_carried_over() {
    let source = || Belongings {
        uid: 10,
        gid: 20,
        mode: 0o640,
        attributes: vec![
            Attribute { name: b"user.a".to_vec(), value: Some(b"1".to_vec()) },
            Attribute { name: b"user.gone".to_vec(), value: None },
        ],
    };
    let steps = copy_metadata(source(), 0, 20, false);
    assert_eq!(steps.len(), 3);
    assert!(matches!(steps[0], CarryStep::SetOwner { uid: 10, gid: 20 }));
    match &steps[1] {
        CarryStep::SetAttribute { name, value } => {
            assert_eq!(name, b"user.a");
            assert_eq!(value, b"1");
        }
        _ => panic!("must be an attribute"),
    }
    assert!(matches!(steps[2], CarryStep::SetMode { mode: 0o640 }));
    assert_eq!(copy_metadata(source(), 10, 20, false).len(), 2);
    assert_eq!(copy_metadata(source(), 10, 20, true).len(), 1);
}
