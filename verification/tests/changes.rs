use netsandbox::apply::{
    apply_plan, apply_plan_at, format_result, guard_arguments, rollback_transaction, ApplyAction,
    ApplyEvent, ApplyRun, FileAction, Outcome, RollbackRun,
};
use netsandbox::clock::{Timestamp, LAST_SECOND};
use netsandbox::command::Host;
use netsandbox::diff::{
    conflicts, digest_path, inspect_origin, render_change_diff, scan_changes,
    validate_relative_path, Attribute, FileKind, FileText, HostNode, HostTable, LayerEntry, Node,
};
use netsandbox::identity::EnvironmentId;
use netsandbox::model::{
    ApplyPlan, Capability, Change, ChangeKind, Direction, Environment, EnvironmentPolicy,
    FailurePolicy, ProbeSpec, RouteCandidate, RouteObservation, Transaction, ValidationState,
};
use netsandbox::order::OrderedMap;
use netsandbox::path::FsPath;
use netsandbox::plan::{
    build_plan, build_plan_with_mode, classify_validation, classify_validation_at, HostFindings,
};
use netsandbox::report;
use netsandbox::session::{stage, StageKind};
use netsandbox::store::{is_safe_identifier, Store};
use std::collections::BTreeMap;

fn at(seconds: i64) -> Timestamp {
    Timestamp { seconds, nanoseconds: 0 }
}

fn file(content: &str) -> Node {
    Node {
        kind: FileKind::File,
        mode: 0o644,
        uid: 0,
        gid: 0,
        device: 0,
        content: content.as_bytes().to_vec(),
        attributes: Vec::new(),
    }
}

fn environment(name: &str, root: &str) -> Environment {
    Environment::with_identity(
        EnvironmentId { bytes: [7; 16] },
        at(100),
        name.to_owned(),
        None,
        FsPath::new(root),
        EnvironmentPolicy::default(),
        Vec::new(),
    )
}

fn copy(node: &Node) -> Node {
    Node {
        kind: node.kind,
        mode: node.mode,
        uid: node.uid,
        gid: node.gid,
        device: node.device,
        content: node.content.clone(),
        attributes: node
            .attributes
            .iter()
            .map(|a| Attribute { name: a.name.clone(), value: a.value.clone() })
            .collect(),
    }
}

/// Nodes by their absolute paths.
struct Disk {
    nodes: BTreeMap<String, Node>,
    journal_saves: usize,
}

impl Disk {
    fn new(files: &[(&str, &str)]) -> Disk {
        Disk {
            nodes: files.iter().map(|(p, c)| (p.to_string(), file(c))).collect(),
            journal_saves: 0,
        }
    }

    fn write(&mut self, path: &str, content: &str) {
        self.nodes.insert(path.to_owned(), file(content));
    }

    fn read(&self, path: &str) -> String {
        String::from_utf8(self.nodes[path].content.clone()).unwrap()
    }

    fn holds(&self, path: &str) -> bool {
        self.nodes.contains_key(path)
    }

    fn under(&self, root: &str) -> Vec<(String, Node)> {
        let prefix = format!("{root}/");
        self.nodes
            .iter()
            .filter(|(path, _)| path.starts_with(&prefix))
            .map(|(path, node)| (path[prefix.len()..].to_owned(), copy(node)))
            .collect()
    }

    fn remove(&mut self, path: &str) {
        self.nodes.remove(path);
        let prefix = format!("{path}/");
        self.nodes.retain(|other, _| !other.starts_with(&prefix));
    }

    fn duplicate(&mut self, source: &str, target: &str) {
        let below = self.under(source);
        let node = copy(&self.nodes[source]);
        self.nodes.insert(target.to_owned(), node);
        for (path, node) in below {
            self.nodes.insert(format!("{target}/{path}"), node);
        }
    }

    fn layer(&self, root: &str) -> Option<Vec<LayerEntry>> {
        Some(
            self.under(root)
                .into_iter()
                .map(|(path, node)| LayerEntry { path: FsPath::new(&path), node })
                .collect(),
        )
    }

    fn table(&self, root: &str) -> HostTable {
        let mut table: HostTable = OrderedMap::new();
        for (path, node) in self.under(root) {
            table.insert(FsPath::new(&path), HostNode::Present(node));
        }
        table
    }

    fn findings(&self, upper: &str, root: &str) -> HostFindings {
        HostFindings {
            host: Host::Linux,
            layer: self.layer(upper),
            table: self.table(root),
            live_routes: Vec::new(),
        }
    }

    fn perform(&mut self, action: &FileAction) {
        match action {
            FileAction::Remove { target } => {
                self.remove(&target.display());
            }
            FileAction::Copy { source, target } => {
                self.duplicate(&source.display(), &target.display());
            }
        }
    }

    fn drive(&mut self, run: &mut ApplyRun, fail_at: Option<&str>) -> Result<(), String> {
        let mut outcome = Outcome::Begin;
        loop {
            let action = run.next(&ApplyEvent { outcome, at: at(300) });
            outcome = match action {
                ApplyAction::MakeDirectory { .. } => Outcome::Done { result: Ok(()) },
                ApplyAction::Backup { source, destination } => {
                    match self.nodes.get(&source.display()).map(|node| node.kind) {
                        Some(kind) => {
                            self.duplicate(&source.display(), &destination.display());
                            Outcome::BackedUp { found: Ok(Some(kind)) }
                        }
                        None => Outcome::BackedUp { found: Ok(None) },
                    }
                }
                ApplyAction::SaveJournal => {
                    self.journal_saves += 1;
                    Outcome::Done { result: Ok(()) }
                }
                ApplyAction::ArmLease => Outcome::Done { result: Ok(()) },
                ApplyAction::Change { action } => {
                    let target = match &action {
                        FileAction::Remove { target } => target.display(),
                        FileAction::Copy { target, .. } => target.display(),
                    };
                    assert!(self.journal_saves > 0, "the journal comes first");
                    if Some(target.as_str()) == fail_at {
                        Outcome::Done { result: Err("disk full".to_owned()) }
                    } else {
                        self.perform(&action);
                        Outcome::Done { result: Ok(()) }
                    }
                }
                ApplyAction::Restore { action } => {
                    self.perform(&action);
                    Outcome::Done { result: Ok(()) }
                }
                ApplyAction::ApplyRoute { .. } => panic!("no routes are staged"),
                ApplyAction::RollbackRoute { .. } => panic!("no routes are staged"),
                ApplyAction::Finish { result } => return result,
            };
        }
    }

    fn undo(&mut self, store: &Store, transaction: Transaction) -> (Result<(), String>, RollbackRun) {
        let mut run = rollback_transaction(store, transaction);
        let mut outcome = Outcome::Begin;
        loop {
            let action = run.next(&ApplyEvent { outcome, at: at(400) });
            outcome = match action {
                ApplyAction::Restore { action } => {
                    self.perform(&action);
                    Outcome::Done { result: Ok(()) }
                }
                ApplyAction::SaveJournal => Outcome::Done { result: Ok(()) },
                ApplyAction::Finish { result } => return (result, run),
                _ => panic!("a rollback of files restores and saves"),
            };
        }
    }
}

#[test]
fn finds_added_and_modified_files() {
    let disk = Disk::new(&[
        ("/root/existing", "old\n"),
        ("/upper/existing", "new\n"),
        ("/upper/added", "hello\n"),
    ]);
    let mut environment = environment("test", "/root");

    let changes =
        scan_changes(&mut environment, &disk.layer("/upper"), &disk.table("/root")).ok().unwrap();

    assert_eq!(changes.len(), 2);
    assert_eq!(changes[0].kind, ChangeKind::Added);
    assert_eq!(changes[1].kind, ChangeKind::Modified);
    assert_eq!(changes[0].path.display(), "added");
    assert_eq!(environment.origins.len(), 2);
}

#[test]
fn rejects_parent_traversal() {
    assert!(validate_relative_path(&FsPath::new("../etc/passwd")).is_err());
    assert_eq!(
        validate_relative_path(&FsPath::new("a/../b")).unwrap_err(),
        "unsafe relative path 'a/../b'"
    );
    assert!(validate_relative_path(&FsPath::new("/etc")).is_err());
    assert!(validate_relative_path(&FsPath::new("etc/hosts")).is_ok());
}

#[test]
fn unsafe_layers_stop_a_scan() {
    let mut environment = environment("test", "/root");
    let layer = Some(vec![LayerEntry { path: FsPath::new("../x"), node: file("x") }]);
    let error = scan_changes(&mut environment, &layer, &OrderedMap::new()).err().unwrap();
    assert_eq!(error, "unsafe relative path '../x'");
}

#[test]
fn ignored_paths_are_not_changes() {
    let disk = Disk::new(&[("/upper/tmp/scratch", "x"), ("/upper/run/lock", "y")]);
    let mut environment = environment("test", "/root");
    let changes =
        scan_changes(&mut environment, &disk.layer("/upper"), &disk.table("/root")).ok().unwrap();
    assert!(changes.is_empty());
    assert_eq!(environment.origins.len(), 0);
}

#[test]
fn without_a_layer_nothing_changed() {
    let mut environment = environment("test", "/root");
    environment.deleted_paths.push(FsPath::new("etc/hosts"));
    assert!(scan_changes(&mut environment, &None, &OrderedMap::new()).ok().unwrap().is_empty());
}

#[test]
fn whiteouts_and_staged_deletions_delete() {
    let mut environment = environment("test", "/root");
    let disk = Disk::new(&[("/root/a", "1"), ("/root/b", "2")]);
    let mut whiteout = file("");
    whiteout.kind = FileKind::CharDevice;
    environment.deleted_paths.push(FsPath::new("b"));
    let layer = Some(vec![LayerEntry { path: FsPath::new("a"), node: whiteout }]);
    let changes = scan_changes(&mut environment, &layer, &disk.table("/root")).ok().unwrap();
    assert_eq!(changes.len(), 2);
    assert!(changes.iter().all(|c| c.kind == ChangeKind::Deleted && c.sandbox_digest.is_none()));
}

#[test]
fn a_changed_kind_is_told_apart() {
    let mut environment = environment("test", "/root");
    let disk = Disk::new(&[("/root/a", "1")]);
    let mut link = file("target");
    link.kind = FileKind::Symlink;
    let layer = Some(vec![LayerEntry { path: FsPath::new("a"), node: link }]);
    let changes = scan_changes(&mut environment, &layer, &disk.table("/root")).ok().unwrap();
    assert_eq!(changes[0].kind, ChangeKind::TypeChanged);
}

#[test]
fn host_changes_after_the_scan_are_conflicts() {
    let mut disk = Disk::new(&[("/root/a", "1"), ("/upper/a", "2")]);
    let mut environment = environment("test", "/root");
    let changes =
        scan_changes(&mut environment, &disk.layer("/upper"), &disk.table("/root")).ok().unwrap();
    assert!(conflicts(&environment, &changes, &disk.table("/root")).is_empty());
    disk.write("/root/a", "3");
    let clashes = conflicts(&environment, &changes, &disk.table("/root"));
    assert_eq!(clashes.len(), 1);
    assert_eq!(clashes[0].display(), "a");
    let again =
        scan_changes(&mut environment, &disk.layer("/upper"), &disk.table("/root")).ok().unwrap();
    assert_eq!(conflicts(&environment, &again, &disk.table("/root")).len(), 1);
}

#[test]
fn digests_depend_on_content_and_metadata() {
    let base = digest_path(&file("same"));
    assert_eq!(base.len(), 64);
    assert_eq!(base, digest_path(&file("same")));
    assert_ne!(base, digest_path(&file("other")));
    let mut mode = file("same");
    mode.mode = 0o600;
    assert_ne!(base, digest_path(&mode));
    let mut attributed = file("same");
    attributed.attributes.push(Attribute { name: b"user.a".to_vec(), value: Some(b"1".to_vec()) });
    assert_ne!(base, digest_path(&attributed));
    let origin = inspect_origin(&HostNode::Present(file("same"))).ok().unwrap();
    assert_eq!(origin.digest.as_deref(), Some(base.as_str()));
    assert!(!inspect_origin(&HostNode::Missing).ok().unwrap().existed);
    assert_eq!(
        inspect_origin(&HostNode::Unreadable("denied".to_owned())).err().unwrap(),
        "denied"
    );
}

#[test]
fn differences_are_shown_line_by_line() {
    let mut disk = Disk::new(&[("/root/proxy.conf", "route = old\n")]);
    disk.write("/upper/proxy.conf", "route = experimental\n");
    let mut environment = environment("test", "/root");
    let changes =
        scan_changes(&mut environment, &disk.layer("/upper"), &disk.table("/root")).ok().unwrap();
    let shown = render_change_diff(
        &environment,
        &FsPath::new("/upper"),
        &changes[0],
        &FileText::Content(b"route = old\n".to_vec()),
        &FileText::Content(b"route = experimental\n".to_vec()),
    )
    .unwrap();
    assert!(shown.starts_with("modified proxy.conf\n"));
    assert!(shown.contains("-route = old"));
    assert!(shown.contains("+route = experimental"));
}

#[test]
fn applies_and_rolls_back_a_file() {
    let store = Store::new(FsPath::new("/state"));
    let mut disk = Disk::new(&[("/root/config", "old\n")]);
    let mut environment = environment("test", "/root");
    let upper = store.upper_dir("test").display();
    disk.write(&format!("{upper}/config"), "new\n");
    let mut plan =
        build_plan(&mut environment, &disk.findings(&upper, "/root")).ok().unwrap();
    assert!(!plan.changes.is_empty());
    plan.allowed = true;
    let mut run = apply_plan(&store, &environment, &plan).ok().unwrap();
    assert!(disk.drive(&mut run, None).is_ok());
    assert_eq!(disk.read("/root/config"), "new\n");
    let (result, undone) = disk.undo(&store, run.transaction);
    assert!(result.is_ok());
    assert_eq!(disk.read("/root/config"), "old\n");
    assert!(undone.transaction.rolled_back_at.is_some());
    let (second, _) = disk.undo(&store, undone.transaction);
    assert!(second.is_err());
}

#[test]
fn stages_applies_and_rolls_back_a_deletion() {
    let store = Store::new(FsPath::new("/state"));
    let mut disk = Disk::new(&[("/root/stale-route.conf", "stale\n")]);
    let mut environment = environment("delete-test", "/root");
    environment.deleted_paths.push(FsPath::new("stale-route.conf"));
    let upper = store.upper_dir("delete-test").display();
    let plan = build_plan(&mut environment, &disk.findings(&upper, "/root")).ok().unwrap();
    assert!(plan.allowed);
    let mut run = apply_plan(&store, &environment, &plan).ok().unwrap();
    assert!(disk.drive(&mut run, None).is_ok());
    assert!(!disk.holds("/root/stale-route.conf"));
    let (result, _) = disk.undo(&store, run.transaction);
    assert!(result.is_ok());
    assert_eq!(disk.read("/root/stale-route.conf"), "stale\n");
}

#[test]
fn stages_applies_and_rolls_back_a_directory_deletion() {
    let store = Store::new(FsPath::new("/state"));
    let mut disk = Disk::new(&[("/root/proxy.d/proxy.conf", "original\n")]);
    let mut directory = file("");
    directory.kind = FileKind::Directory;
    directory.mode = 0o750;
    disk.nodes.insert("/root/proxy.d".to_owned(), directory);
    let mut link = file("proxy.conf");
    link.kind = FileKind::Symlink;
    disk.nodes.insert("/root/proxy.d/active.conf".to_owned(), link);
    let mut environment = environment("delete-directory", "/root");
    let path = FsPath::new("proxy.d");
    let origin =
        inspect_origin(&HostNode::Present(copy(&disk.nodes["/root/proxy.d"]))).ok().unwrap();
    stage(&mut environment, &path, origin, StageKind::Deletion, at(200)).unwrap();
    let upper = store.upper_dir("delete-directory").display();
    let plan = build_plan(&mut environment, &disk.findings(&upper, "/root")).ok().unwrap();
    assert!(plan.allowed);
    let mut run = apply_plan(&store, &environment, &plan).ok().unwrap();
    assert!(disk.drive(&mut run, None).is_ok());
    assert!(!disk.holds("/root/proxy.d"));
    assert!(!disk.holds("/root/proxy.d/proxy.conf"));
    let (result, _) = disk.undo(&store, run.transaction);
    assert!(result.is_ok());
    assert_eq!(disk.read("/root/proxy.d/proxy.conf"), "original\n");
    assert_eq!(disk.read("/root/proxy.d/active.conf"), "proxy.conf");
    assert_eq!(disk.nodes["/root/proxy.d/active.conf"].kind, FileKind::Symlink);
    assert_eq!(disk.nodes["/root/proxy.d"].mode & 0o777, 0o750);
}

#[test]
fn names_that_are_no_text_are_changes_like_others() {
    let mut environment = environment("bytes", "/root");
    let path = FsPath::from_bytes(&b"etc/caf\xe9".to_vec());
    let layer = Some(vec![LayerEntry { path: path.copy(), node: file("new\n") }]);
    let mut table: HostTable = OrderedMap::new();
    table.insert(path, HostNode::Missing);
    let changes = scan_changes(&mut environment, &layer, &table).ok().unwrap();
    assert_eq!(changes.len(), 1);
    assert!(matches!(changes[0].kind, ChangeKind::Added));
    assert_eq!(changes[0].path.bytes(), b"etc/caf\xe9".to_vec());
}

#[test]
fn changes_within_each_other_are_taken_back() {
    let store = Store::new(FsPath::new("/state"));
    let mut disk = Disk::new(&[
        ("/root/proxy.d/a.conf", "a\n"),
        ("/root/proxy.d/b.conf", "b\n"),
        ("/root/proxy.d/c.conf", "c\n"),
    ]);
    let mut directory = file("");
    directory.kind = FileKind::Directory;
    disk.nodes.insert("/root/proxy.d".to_owned(), directory);
    let mut environment = environment("nested", "/root");
    environment.deleted_paths.push(FsPath::new("proxy.d"));
    environment.deleted_paths.push(FsPath::new("proxy.d/a.conf"));
    let upper = store.upper_dir("nested").display();
    disk.write(&format!("{upper}/proxy.d/b.conf"), "changed\n");
    disk.write(&format!("{upper}/proxy.d/new.conf"), "new\n");
    let shown = |disk: &Disk| -> Vec<(String, Vec<u8>)> {
        disk.under("/root").into_iter().map(|(path, node)| (path, node.content)).collect()
    };
    let before = shown(&disk);
    let mut plan =
        build_plan(&mut environment, &disk.findings(&upper, "/root")).ok().unwrap();
    assert_eq!(plan.changes.len(), 4);
    plan.allowed = true;
    let mut run = apply_plan(&store, &environment, &plan).ok().unwrap();
    assert!(disk.drive(&mut run, None).is_ok());
    assert_eq!(disk.read("/root/proxy.d/new.conf"), "new\n");
    assert!(!disk.holds("/root/proxy.d/c.conf"));
    let (result, _) = disk.undo(&store, run.transaction);
    assert!(result.is_ok());
    assert_eq!(shown(&disk), before);
}

#[test]
fn a_new_directory_that_is_itself_a_change_is_taken_back() {
    let store = Store::new(FsPath::new("/state"));
    let mut disk = Disk::new(&[("/root/kept", "kept\n")]);
    let mut environment = environment("new", "/root");
    let upper = store.upper_dir("new").display();
    disk.write(&format!("{upper}/fresh/a.conf"), "a\n");
    let before = disk.under("/root").len();
    let mut plan = build_plan(&mut environment, &disk.findings(&upper, "/root")).ok().unwrap();
    plan.changes.insert(
        0,
        Change {
            path: FsPath::new("fresh"),
            kind: ChangeKind::Deleted,
            original_digest: None,
            sandbox_digest: None,
            binary: false,
        },
    );
    plan.allowed = true;
    let mut run = apply_plan(&store, &environment, &plan).ok().unwrap();
    assert!(disk.drive(&mut run, None).is_ok());
    assert_eq!(disk.read("/root/fresh/a.conf"), "a\n");
    let mut made = file("");
    made.kind = FileKind::Directory;
    disk.nodes.insert("/root/fresh".to_owned(), made);
    let (result, _) = disk.undo(&store, run.transaction);
    assert!(result.is_ok());
    assert!(!disk.holds("/root/fresh"));
    assert_eq!(disk.under("/root").len(), before);
}

#[test]
fn preserves_mode_and_extended_attributes_across_apply_and_rollback() {
    let store = Store::new(FsPath::new("/state"));
    let mut disk = Disk::new(&[]);
    let mut original = file("old\n");
    original.mode = 0o640;
    original.attributes.push(Attribute {
        name: b"user.netsandbox".to_vec(),
        value: Some(b"original".to_vec()),
    });
    disk.nodes.insert("/root/config".to_owned(), original);
    let mut environment = environment("metadata", "/root");
    let upper = store.upper_dir("metadata").display();
    let mut candidate = file("new\n");
    candidate.mode = 0o600;
    candidate.attributes.push(Attribute {
        name: b"user.netsandbox".to_vec(),
        value: Some(b"candidate".to_vec()),
    });
    disk.nodes.insert(format!("{upper}/config"), candidate);
    let mut plan = build_plan(&mut environment, &disk.findings(&upper, "/root")).ok().unwrap();
    plan.allowed = true;

    let mut run = apply_plan(&store, &environment, &plan).ok().unwrap();
    assert!(disk.drive(&mut run, None).is_ok());
    assert_eq!(disk.nodes["/root/config"].mode & 0o777, 0o600);
    assert_eq!(
        disk.nodes["/root/config"].attributes[0].value.as_deref(),
        Some(&b"candidate"[..])
    );

    let (result, _) = disk.undo(&store, run.transaction);
    assert!(result.is_ok());
    assert_eq!(disk.nodes["/root/config"].mode & 0o777, 0o640);
    assert_eq!(
        disk.nodes["/root/config"].attributes[0].value.as_deref(),
        Some(&b"original"[..])
    );
}

#[test]
fn creates_lists_diffs_applies_and_rolls_back() {
    let store = Store::new(FsPath::new("/state"));
    let mut disk = Disk::new(&[("/root/proxy.conf", "route = old\n")]);
    let mut environment = environment("proxy-test", "/root");
    assert_eq!(
        report::creation(Host::Linux, &environment)[0],
        "Created environment 'proxy-test'."
    );
    let rows = vec![report::ListRow {
        name: environment.name.clone(),
        status: environment.status,
        changes: 0,
        connections: 0,
    }];
    assert!(report::list(&rows)[1].contains("proxy-test"));

    let origin =
        inspect_origin(&HostNode::Present(copy(&disk.nodes["/root/proxy.conf"]))).ok().unwrap();
    let kind = StageKind::File { directory: false };
    stage(&mut environment, &FsPath::new("proxy.conf"), origin, kind, at(200)).unwrap();
    let upper = store.upper_dir("proxy-test").display();
    disk.write(&format!("{upper}/proxy.conf"), "route = experimental\n");

    let changes =
        scan_changes(&mut environment, &disk.layer(&upper), &disk.table("/root")).ok().unwrap();
    let shown = render_change_diff(
        &environment,
        &FsPath::new(&upper),
        &changes[0],
        &FileText::Content(b"route = old\n".to_vec()),
        &FileText::Content(b"route = experimental\n".to_vec()),
    )
    .unwrap();
    assert!(shown.contains("-route = old"));
    assert!(shown.contains("+route = experimental"));

    let plan = build_plan(&mut environment, &disk.findings(&upper, "/root")).ok().unwrap();
    let mut run = apply_plan(&store, &environment, &plan).ok().unwrap();
    assert!(disk.drive(&mut run, None).is_ok());
    assert_eq!(disk.read("/root/proxy.conf"), "route = experimental\n");
    let (result, _) = disk.undo(&store, run.transaction);
    assert!(result.is_ok());
    assert_eq!(disk.read("/root/proxy.conf"), "route = old\n");
}

#[test]
fn a_failed_apply_takes_back_what_it_did() {
    let store = Store::new(FsPath::new("/state"));
    let mut disk = Disk::new(&[("/root/a", "old a"), ("/root/c", "old c")]);
    let mut environment = environment("test", "/root");
    let upper = store.upper_dir("test").display();
    for name in ["a", "b", "c"] {
        disk.write(&format!("{upper}/{name}"), &format!("new {name}"));
    }
    let plan = build_plan(&mut environment, &disk.findings(&upper, "/root")).ok().unwrap();
    let mut run = apply_plan(&store, &environment, &plan).ok().unwrap();
    let error = disk.drive(&mut run, Some("/root/c")).unwrap_err();
    assert!(error.contains("disk full"), "{error}");
    assert_eq!(disk.read("/root/a"), "old a");
    assert!(!disk.holds("/root/b"));
    assert_eq!(disk.read("/root/c"), "old c");
}

#[test]
fn blocked_plans_are_not_run() {
    let store = Store::new(FsPath::new("/state"));
    let disk = Disk::new(&[("/root/a", "1")]);
    let mut environment = environment("test", "/root");
    let plan = build_plan(&mut environment, &disk.findings("/upper", "/root")).ok().unwrap();
    assert!(!plan.allowed);
    assert_eq!(apply_plan(&store, &environment, &plan).err().unwrap(), "apply plan is blocked");
}

#[test]
fn transactions_are_named_after_their_time() {
    let store = Store::new(FsPath::new("/state"));
    let disk = Disk::new(&[("/root/a", "1"), ("/upper/a", "2")]);
    let mut environment = environment("test", "/root");
    let plan = build_plan(&mut environment, &disk.findings("/upper", "/root")).ok().unwrap();
    let run = apply_plan_at(
        &store,
        &environment,
        &plan,
        at(1_735_787_045),
        &EnvironmentId { bytes: [0xab; 16] },
    )
    .ok()
    .unwrap();
    assert_eq!(run.transaction.id, "apply-20250102-030405-abababab");
    assert_eq!(
        guard_arguments(&FsPath::new("/state"), "apply-1"),
        ["--state-dir", "/state", "__rollback-guard", "apply-1", "--timeout", "15"]
    );
}

#[test]
fn every_ordinary_time_names_a_transaction_that_can_be_looked_up() {
    let store = Store::new(FsPath::new("/state"));
    let disk = Disk::new(&[("/root/a", "1"), ("/upper/a", "2")]);
    let mut environment = environment("test", "/root");
    let plan = build_plan(&mut environment, &disk.findings("/upper", "/root")).ok().unwrap();
    let id = EnvironmentId { bytes: [0x1f; 16] };
    let named = |seconds: i64| {
        let run = apply_plan_at(&store, &environment, &plan, at(seconds), &id);
        run.ok().map(|run| run.transaction.id)
    };
    assert_eq!(named(0).unwrap(), "apply-19700101-000000-1f1f1f1f");
    assert_eq!(named(LAST_SECOND).unwrap(), "apply-99991231-235959-1f1f1f1f");
    assert!(is_safe_identifier(&named(LAST_SECOND).unwrap()));
    assert!(!is_safe_identifier(&named(LAST_SECOND + 1).unwrap()));
    assert!(named(i64::MAX).is_none());
}

#[test]
fn results_are_written_in_words() {
    assert_eq!(format_result(&None), "ok");
    assert_eq!(format_result(&Some("no space".to_owned())), "no space");
}

fn trial_environment() -> Environment {
    let mut environment = environment("route-trial", "/");
    environment.baseline = vec![
        Capability {
            id: "candidate-ssh".to_owned(),
            name: Some("candidate SSH".to_owned()),
            protocol: "application".to_owned(),
            direction: Direction::Outbound,
            local: "candidate@en0".to_owned(),
            remote: "server".to_owned(),
            process: None,
            probe: ProbeSpec::Command { argv: vec!["true".to_owned()] },
            required: true,
            validation: ValidationState::Lost,
            detail: None,
            last_checked_at: Some(netsandbox::clock::now()),
        },
        Capability {
            id: "codex-control".to_owned(),
            name: Some("Codex control".to_owned()),
            protocol: "tcp".to_owned(),
            direction: Direction::Outbound,
            local: "sandbox".to_owned(),
            remote: "127.0.0.1:443".to_owned(),
            process: None,
            probe: ProbeSpec::Tcp { endpoint: "127.0.0.1:443".to_owned(), interface: None },
            required: true,
            validation: ValidationState::Preserved,
            detail: None,
            last_checked_at: Some(netsandbox::clock::now()),
        },
    ];
    environment.route_candidates.push(RouteCandidate {
        id: "candidate".to_owned(),
        destination: "203.0.113.10".to_owned(),
        interface: "en0".to_owned(),
        gateway: Some("192.0.2.1".to_owned()),
        ports: vec![22],
        created_at: at(100),
        observed_route: RouteObservation::default(),
        capability_ids: vec!["candidate-ssh".to_owned()],
    });
    environment
}

#[test]
fn guarded_trial_defers_only_route_associated_failures() {
    let mut environment = trial_environment();

    let normal = classify_validation(&environment, false);
    assert_eq!(normal.lost, ["candidate-ssh"]);
    assert!(normal.deferred.is_empty());

    let trial = classify_validation(&environment, true);
    assert!(trial.lost.is_empty());
    assert!(trial.unverifiable.is_empty());
    assert_eq!(trial.deferred, ["candidate-ssh"]);

    environment.baseline[1].validation = ValidationState::Lost;
    let trial = classify_validation(&environment, true);
    assert_eq!(trial.lost, ["codex-control"]);
}

#[test]
fn results_older_than_a_minute_do_not_count() {
    let mut environment = environment("demo", "/root");
    environment.baseline = trial_environment().baseline;
    environment.baseline[1].last_checked_at = Some(at(1000));
    environment.baseline[0].required = false;
    assert!(classify_validation_at(&environment, false, at(1060)).unverifiable.is_empty());
    assert_eq!(
        classify_validation_at(&environment, false, at(1061)).unverifiable,
        ["codex-control"]
    );
}

#[test]
fn policies_decide_whether_failures_block() {
    let disk = Disk::new(&[("/root/a", "1"), ("/upper/a", "2")]);
    let mut environment = environment("demo", "/root");
    environment.baseline = vec![trial_environment().baseline.remove(0)];
    environment.baseline[0].last_checked_at = Some(at(990));
    let findings = disk.findings("/upper", "/root");
    let plan =
        build_plan_with_mode(&mut environment, &findings, false, at(1000)).ok().unwrap();
    assert!(!plan.allowed);
    assert_eq!(plan.lost_required, ["candidate-ssh"]);
    environment.policy.on_failure = FailurePolicy::Warn;
    let plan =
        build_plan_with_mode(&mut environment, &findings, false, at(1000)).ok().unwrap();
    assert!(plan.allowed);
}

/// Which of the files, the routes and the lease an apply turns to, in order, where every action
/// succeeds.
fn order_of_an_apply(environment: &Environment, plan: &ApplyPlan) -> Vec<&'static str> {
    let store = Store::new(FsPath::new("/state"));
    let mut run = apply_plan(&store, environment, plan).ok().unwrap();
    let mut outcome = Outcome::Begin;
    let mut log = Vec::new();
    loop {
        outcome = match run.next(&ApplyEvent { outcome, at: at(200) }) {
            ApplyAction::Backup { .. } => Outcome::BackedUp { found: Ok(None) },
            ApplyAction::Finish { result } => {
                assert!(result.is_ok());
                return log;
            }
            action => {
                match action {
                    ApplyAction::ArmLease => log.push("lease"),
                    ApplyAction::Change { .. } => log.push("file"),
                    ApplyAction::ApplyRoute { .. } => log.push("route"),
                    _ => {}
                }
                Outcome::Done { result: Ok(()) }
            }
        };
    }
}

#[test]
fn a_lease_comes_before_every_route_and_every_change_of_the_host() {
    let disk = Disk::new(&[("/root/a", "1"), ("/upper/a", "2")]);
    let mut sandbox = environment("demo", "/root");
    let mut plan = build_plan(&mut sandbox, &disk.findings("/upper", "/root")).ok().unwrap();
    assert_eq!(order_of_an_apply(&sandbox, &plan), ["file"]);
    plan.route_candidates = trial_environment().route_candidates;
    assert_eq!(order_of_an_apply(&sandbox, &plan), ["lease", "file", "route"]);
    sandbox.policy.auto_rollback = false;
    assert_eq!(order_of_an_apply(&sandbox, &plan), ["file", "route"]);
    sandbox.policy.auto_rollback = true;
    sandbox.base_root = FsPath::new("/");
    plan.route_candidates.clear();
    assert_eq!(order_of_an_apply(&sandbox, &plan), ["lease", "file"]);
}

#[test]
fn guarded_trials_take_routes_only() {
    let disk = Disk::new(&[("/root/a", "1"), ("/upper/a", "2")]);
    let mut environment = environment("demo", "/root");
    let plan = build_plan_with_mode(
        &mut environment,
        &disk.findings("/upper", "/root"),
        true,
        at(1000),
    )
    .ok()
    .unwrap();
    assert!(!plan.allowed);
    assert!(plan
        .route_conflicts
        .contains(&"guarded route trials are supported only on macOS".to_owned()));
    assert!(plan
        .route_conflicts
        .contains(&"guarded trial requires a typed macOS route candidate".to_owned()));
    assert!(plan
        .route_conflicts
        .iter()
        .any(|c| c.starts_with("guarded route trial cannot include filesystem changes")));
}
