use netsandbox::candidate::{
    read_mappings, rewrite_candidate_arguments, write_mappings, CanonicalForms, Mappings,
};
use netsandbox::clock::Timestamp;
use netsandbox::command::{CommandOutput, Host};
use netsandbox::identity::EnvironmentId;
use netsandbox::model::{
    Environment, EnvironmentPolicy, LinuxImageChange, Origin,
};
use netsandbox::order::OrderedMap;
use netsandbox::path::FsPath;
use netsandbox::platform;
use netsandbox::platform::calls::{
    self, clear_command, docker_arguments, export_name, vm_call_arguments, vm_status, DockerCall,
    VmCall,
};
use netsandbox::platform::commit::{
    build_directory, build_directory_as, build_metadata_image, commit, rollback_commit,
    CommitAction, CommitEvent,
};
use netsandbox::platform::docker::{self, GuestProgram, HelperStep};
use netsandbox::platform::guest::{
    guest_directory, interactive, judge_file, map_guest_command, prepare_guest_command,
    sync_tracked_paths, FileCheck, FileVerdict, GuestFile, GuestKind, GuestStep, SyncAction,
    SyncEvent,
};
use netsandbox::platform::lima::{
    self, delete_managed_vm, require_lima_version, reset_managed_vm, validate_vm_name,
    vm_arguments, VmStep,
};
use netsandbox::platform::linux::{
    namespace_arguments, network_layout, reject_overlay_delimiters, runtime_tools, LinuxFindings,
    NetworkOutcome, NetworkSetup, NetworkStep,
};
use netsandbox::platform::native::{
    available, check_run, exit_code, materialize_candidates, reject_untracked_entries,
    rewrite_arguments, sandbox_profile, staged_paths, sync_candidates, Argument, CandidateStep,
    TakeOverStep, Workspace,
};
use netsandbox::platform::programs::{docker_places, find_docker, find_limactl, lima_places, Place};
use netsandbox::platform::{Cleanup, Runtime, SystemFindings};
use netsandbox::script::{ScriptRun, ScriptStep};

fn at(seconds: i64) -> Timestamp {
    Timestamp { seconds, nanoseconds: 0 }
}

fn environment(name: &str) -> Environment {
    Environment::with_identity(
        EnvironmentId { bytes: [0xab; 16] },
        at(100),
        name.to_owned(),
        None,
        FsPath::new("/"),
        EnvironmentPolicy::default(),
        Vec::new(),
    )
}

fn output(code: i32, stdout: &str, stderr: &str) -> CommandOutput {
    CommandOutput {
        code: Some(code),
        status: format!("exit status: {code}"),
        stdout: stdout.as_bytes().to_vec(),
        stderr: stderr.as_bytes().to_vec(),
    }
}

fn contained(name: &str) -> Environment {
    let mut sandbox = environment(name);
    docker::create(
        &mut sandbox,
        &FsPath::new("/state/environments/demo/image-baseline"),
        "alpine:3",
        "/opt/guest",
        "null",
        "[\"sh\"]",
    );
    sandbox
}

#[test]
fn accepts_supported_lima_versions() {
    require_lima_version("limactl version 2.1.0").unwrap();
    require_lima_version("limactl version 3.0.1-12-gabc").unwrap();
}

#[test]
fn rejects_old_or_unparseable_lima_versions() {
    assert!(require_lima_version("limactl version 2.0.9").is_err());
    assert!(require_lima_version("development build").is_err());
    assert_eq!(
        require_lima_version(" limactl version 2.0.9\n").unwrap_err(),
        "Lima 2.1 or newer is required; found limactl version 2.0.9"
    );
    assert_eq!(
        require_lima_version("development build").unwrap_err(),
        "could not parse Lima version"
    );
    assert!(require_lima_version("v.9 then 2").is_err());
    assert!(require_lima_version("10").is_ok());
}

#[test]
fn machine_names_are_plain() {
    validate_vm_name("nsb-1.base_A").unwrap();
    assert_eq!(validate_vm_name("").unwrap_err(), "invalid Lima instance name");
    assert!(validate_vm_name("a b").is_err());
    assert!(validate_vm_name(&"x".repeat(64)).is_ok());
    assert!(validate_vm_name(&"x".repeat(65)).is_err());
}

#[test]
fn clones_belong_to_their_environment() {
    let mut sandbox = environment("demo");
    assert!(delete_managed_vm(&sandbox).unwrap().is_none());
    let script = platform::mac_vm_clone(Host::MacOs, &sandbox, "prepared-base").ok().unwrap();
    assert_eq!(script.opening.len(), 3);
    assert_eq!(
        vm_arguments(&script.opening[2]),
        ["clone", "prepared-base", "nsb-abababababab", "--mount-none", "--tty=false"]
    );
    lima::vm_clone(&mut sandbox, "prepared-base");
    assert_eq!(lima::vm_instance(&sandbox).unwrap(), "nsb-abababababab");
    assert_eq!(delete_managed_vm(&sandbox).unwrap().unwrap(), "nsb-abababababab");
    let reset = reset_managed_vm(&sandbox).ok().unwrap();
    assert!(matches!(&reset.opening[2], VmStep::Delete { instance } if instance == "nsb-abababababab"));
    assert_eq!(
        platform::mac_vm_clone(Host::MacOs, &sandbox, "prepared-base").err().unwrap(),
        "environment 'demo' already has a macOS VM backend"
    );
    assert!(matches!(
        platform::cleanup_environment(Host::MacOs, &sandbox),
        Ok(Cleanup::Machine { .. })
    ));
}

#[test]
fn attached_machines_are_never_destroyed() {
    let mut sandbox = environment("demo");
    lima::vm_attach(&mut sandbox, "mine");
    assert!(delete_managed_vm(&sandbox).unwrap().is_none());
    assert_eq!(
        reset_managed_vm(&sandbox).err().unwrap(),
        "environment 'demo' does not own its macOS VM; reset the attached instance explicitly"
    );
    assert!(matches!(
        platform::cleanup_environment(Host::MacOs, &sandbox),
        Ok(Cleanup::Nothing)
    ));
    sandbox.metadata.insert("mac_vm_managed".to_owned(), "true".to_owned());
    assert!(delete_managed_vm(&sandbox)
        .unwrap_err()
        .starts_with("refusing to delete managed VM 'mine'"));
}

#[test]
fn a_clone_that_does_not_start_is_deleted() {
    let sandbox = environment("demo");
    let script = platform::mac_vm_clone(Host::MacOs, &sandbox, "base").ok().unwrap();
    let mut run = ScriptRun::start(script.shape());
    let mut seen: Vec<String> = Vec::new();
    loop {
        match run.step {
            ScriptStep::Opening { index } => {
                seen.push(vm_arguments(&script.opening[index])[0].clone());
                run.advance(Ok(()));
            }
            ScriptStep::Body { index } => {
                seen.push(vm_arguments(&script.body[index])[0].clone());
                run.advance(Err("no boot".to_owned()));
            }
            ScriptStep::Ending { index } => {
                seen.push(vm_arguments(&script.ending[index])[0].clone());
                run.advance(Err("gone already".to_owned()));
            }
            ScriptStep::Finished => break,
        }
    }
    assert_eq!(seen, ["--version", "shell", "clone", "shell", "delete"]);
    assert_eq!(run.failure.as_deref(), Some("no boot"));
    let body = ScriptStep::Body { index: 0 };
    assert_eq!(lima::vm_failure(&script, body, "no boot"), "start cloned macOS VM: no boot");
}

#[test]
fn a_failed_reset_says_whether_the_old_clone_is_gone() {
    let mut sandbox = environment("demo");
    lima::vm_clone(&mut sandbox, "base");
    let script = reset_managed_vm(&sandbox).ok().unwrap();
    let gone = "the previous VM clone was deleted, but recreating it from the base failed: ";
    let failed = |step: ScriptStep| lima::vm_failure(&script, step, "no boot");
    assert_eq!(failed(ScriptStep::Opening { index: 2 }), "no boot");
    assert_eq!(failed(ScriptStep::Opening { index: 3 }), format!("{gone}no boot"));
    assert_eq!(
        failed(ScriptStep::Body { index: 0 }),
        format!("{gone}start cloned macOS VM: no boot")
    );
}

#[test]
fn clients_are_called_with_their_arguments() {
    let owner = DockerCall::Owner { container: "c".to_owned() };
    assert_eq!(
        docker_arguments(&owner),
        [
            "inspect",
            "--format",
            "{{ index .Config.Labels \"dev.netsandbox.environment\" }}",
            "c"
        ]
    );
    let run = DockerCall::Run { container: "c".to_owned(), argv: clear_command(&FsPath::new("/d")) };
    assert_eq!(docker_arguments(&run), ["exec", "--user", "0", "c", "/bin/rm", "-rf", "/d"]);
    let out = DockerCall::CopyOut {
        container: "c".to_owned(),
        path: FsPath::new("/etc/hosts"),
        target: FsPath::new("/upper/hosts"),
    };
    assert_eq!(docker_arguments(&out), ["cp", "c:/etc/hosts", "/upper/hosts"]);
    let test = VmCall::Test {
        instance: "vm".to_owned(),
        check: FileCheck::Directory,
        path: FsPath::new("/etc"),
    };
    assert_eq!(
        vm_call_arguments(&test),
        ["shell", "--tty=false", "--start", "vm", "/usr/bin/test", "-d", "/etc"]
    );
    let status = VmCall::Status { instance: "vm".to_owned() };
    assert_eq!(vm_call_arguments(&status), ["list", "vm", "--format", "json"]);
    let id = EnvironmentId { bytes: [0xab; 16] };
    assert_eq!(export_name(GuestKind::Image, 7, &id), ".netsandbox-docker-sync-7");
    assert_eq!(
        export_name(GuestKind::Machine, 7, &id),
        ".netsandbox-vm-sync-7-abababababababababababababababab"
    );
}

#[test]
fn reports_of_guests_are_laid_out() {
    assert_eq!(
        calls::status(&output(0, "[{\"Id\":\"c\"}]", "")).unwrap(),
        "[\n  {\n    \"Id\": \"c\"\n  }\n]"
    );
    assert_eq!(
        calls::status(&output(1, "", "no such container")).unwrap_err(),
        "inspect Linux image container failed: no such container"
    );
    assert_eq!(
        calls::status(&output(0, "", "")).unwrap_err(),
        "parse Docker inspect output: EOF while parsing a value at line 1 column 0"
    );
    assert_eq!(
        vm_status(&output(0, "{\"name\":\"vm\",\"cpus\":4}", "")).unwrap(),
        "{\n  \"cpus\": 4,\n  \"name\": \"vm\"\n}"
    );
    assert_eq!(
        vm_status(&output(0, "vm", "")).unwrap_err(),
        "parse Lima instance status: expected value at line 1 column 1"
    );
    assert_eq!(
        vm_status(&output(1, "", "gone")).unwrap_err(),
        "inspect macOS VM failed: gone"
    );
}

#[test]
fn guests_have_to_run_macos() {
    assert!(lima::verify_macos_guest("base", &output(0, "Darwin\n", "")).is_ok());
    assert_eq!(
        lima::verify_macos_guest("base", &output(0, "Linux\n", "")).unwrap_err(),
        "Lima instance 'base' is not a macOS guest"
    );
    assert_eq!(
        lima::verify_macos_guest("base", &output(1, "", "no such\n")).unwrap_err(),
        "inspect Lima guest operating system failed: no such"
    );
    assert_eq!(lima::guest_file_mode(&output(0, "644\n", "")).unwrap(), 0o644);
    assert_eq!(
        lima::guest_file_mode(&output(0, "rw\n", "")).unwrap_err(),
        "parse macOS VM file permissions: invalid digit found in string"
    );
    assert_eq!(
        lima::guest_file_mode(&output(0, "\n", "")).unwrap_err(),
        "parse macOS VM file permissions: cannot parse integer from empty string"
    );
    assert!(lima::verify_lima_version(&output(0, "limactl version 2.2.0", "")).is_ok());
}

#[test]
fn machine_commands_run_under_the_sandbox_variables() {
    let sandbox = environment("demo");
    let arguments =
        lima::run_arguments(&sandbox, "vm", false, &vec!["ls".to_owned(), "-l".to_owned()]);
    assert_eq!(arguments[..4], ["shell", "--tty=false", "--start", "vm"]);
    assert!(arguments.contains(&"NETSANDBOX_CONTROL=/tmp/netsandbox-abababababab".to_owned()));
    assert_eq!(arguments[arguments.len() - 2..], ["ls", "-l"]);
}

#[test]
fn image_references_are_single_words() {
    docker::validate_image_reference("alpine:3").unwrap();
    for image in ["", "-rm", "a b", "a\tb"] {
        assert_eq!(
            docker::validate_image_reference(image).unwrap_err(),
            "invalid Docker image reference"
        );
    }
}

#[test]
fn containers_carry_the_name_of_their_environment() {
    let sandbox = contained("demo");
    assert_eq!(docker::checked_container(&sandbox).unwrap(), "nsb-linux-abababababab");
    let id = "abababab-abab-abab-abab-abababababab";
    assert!(docker::ensure_owned_container(
        &sandbox,
        "nsb-linux-abababababab",
        &output(0, &format!("{id}\n"), "")
    )
    .is_ok());
    assert_eq!(
        docker::ensure_owned_container(&sandbox, "c", &output(0, "other\n", "")).unwrap_err(),
        "Docker container 'c' is not owned by this environment"
    );
    assert_eq!(
        docker::ensure_owned_container(&sandbox, "c", &output(1, "", "")).unwrap_err(),
        "inspect Linux image ownership label failed with status exit status: 1"
    );
    let mut other = contained("demo");
    other.metadata.insert("docker_linux_container".to_owned(), "foreign".to_owned());
    assert_eq!(
        docker::checked_container(&other).unwrap_err(),
        "refusing to operate on Docker container 'foreign' because its name does not match environment 'demo'"
    );
    assert_eq!(
        docker::checked_container(&environment("demo")).unwrap_err(),
        "environment has no Linux image runtime"
    );
}

#[test]
fn containers_are_made_and_brought_up_in_order() {
    let sandbox = environment("demo");
    let arguments = docker::create_arguments(&sandbox, "alpine:3", "nsb-linux-abababababab");
    assert_eq!(arguments[..3], ["create", "--name", "nsb-linux-abababababab"]);
    assert!(arguments
        .contains(&"dev.netsandbox.environment=abababab-abab-abab-abab-abababababab".to_owned()));
    assert_eq!(docker::start_container().len(), 7);
    assert_eq!(docker::start_shape().body, 7);
    assert!(docker::require_linux("alpine:3", " Linux\n").is_ok());
    assert_eq!(
        docker::require_linux("alpine:3", "Windows").unwrap_err(),
        "Docker image 'alpine:3' is not a Linux image"
    );
    assert!(docker::needs_start(&output(0, "false\n", "")).unwrap());
    assert!(!docker::needs_start(&output(0, "true\n", "")).unwrap());
    assert_eq!(
        docker::check_create(&contained("demo"), "alpine:3").unwrap_err(),
        "environment 'demo' already has a Linux image backend"
    );
    assert_eq!(
        docker::check_new_container("c", true).unwrap_err(),
        "Docker container 'c' already exists"
    );
}

#[test]
fn lookups_answer_with_their_exit_code() {
    assert!(docker::container_exists(Some(0), "c").unwrap());
    assert!(!docker::container_exists(Some(1), "c").unwrap());
    assert_eq!(
        docker::container_exists(None, "c").unwrap_err(),
        "could not determine whether Docker container 'c' exists"
    );
    assert_eq!(
        docker::image_exists(Some(125), "i").unwrap_err(),
        "could not determine whether Docker image 'i' exists"
    );
    assert_eq!(
        docker::guest_test(Some(2), &FsPath::new("/etc/x"), "Linux image").unwrap_err(),
        "could not inspect /etc/x in Linux image"
    );
    assert_eq!(docker::docker_file_mode(&output(0, "755\n", "")).unwrap(), 0o755);
    assert_eq!(docker::docker_file_mode(&output(0, "+37777777777", "")).unwrap(), u32::MAX);
    assert_eq!(
        docker::docker_file_mode(&output(0, "40000000000", "")).unwrap_err(),
        "parse Linux image file permissions: number too large to fit in target type"
    );
    let (entrypoint, command) =
        docker::image_process_config(&output(0, "null\n[\"sh\"]\n", "")).unwrap();
    assert_eq!((entrypoint.as_str(), command.as_str()), ("null", "[\"sh\"]"));
    assert_eq!(
        docker::image_process_config(&output(0, "null", "")).unwrap_err(),
        "source image has no command metadata"
    );
    assert_eq!(
        docker::image_process_config(&output(0, "", "")).unwrap_err(),
        "source image has no entrypoint metadata"
    );
}

#[test]
fn container_changes_are_sorted_and_marked() {
    let mut sandbox = contained("demo");
    sandbox.tracked_paths.push(FsPath::new("etc/proxy.conf"));
    let list = docker::changes(
        &sandbox,
        &output(
            0,
            "C /var\nA /tmp/netsandbox-abababababab/netsandbox\nC /etc\nC /etc/proxy.conf\nodd\n",
            "",
        ),
    )
    .ok()
    .unwrap();
    let shown: Vec<(String, bool)> =
        list.iter().map(|c| (c.path.display(), c.is_tracked)).collect();
    assert_eq!(
        shown,
        [
            ("/etc".to_owned(), true),
            ("/etc/proxy.conf".to_owned(), true),
            ("/var".to_owned(), false),
        ]
    );
    assert!(docker::check_capture(&list, &FsPath::new("etc/proxy.conf")).is_err());
    assert!(docker::check_capture(&list, &FsPath::new("etc/hosts")).is_ok());
}

#[test]
fn captured_paths_are_exported_in_order() {
    let mut sandbox = contained("demo");
    sandbox.deleted_paths.push(FsPath::new("etc/b"));
    docker::capture_baseline_path(&mut sandbox, &FsPath::new("etc/b"), Origin::absent());
    docker::capture_baseline_path(&mut sandbox, &FsPath::new("etc/a"), Origin::absent());
    docker::capture_baseline_path(&mut sandbox, &FsPath::new("etc/a"), Origin::absent());
    let shown: Vec<String> = sandbox.tracked_paths.iter().map(|p| p.display()).collect();
    assert_eq!(shown, ["etc/a", "etc/b"]);
    assert!(sandbox.deleted_paths.is_empty());
    assert_eq!(sandbox.origins.len(), 2);
}

#[test]
fn container_commands_run_under_the_sandbox_variables() {
    let sandbox = contained("demo");
    let arguments = docker::run_arguments(&sandbox, "c", true, true, &vec!["sh".to_owned()]);
    assert_eq!(arguments[..5], ["exec", "-i", "-t", "--user", "0"]);
    assert!(arguments.contains(&"NETSANDBOX_ACTIVE=demo".to_owned()));
    assert_eq!(arguments[arguments.len() - 2..], ["c", "sh"]);
    assert!(interactive(&vec!["sh".to_owned(), "-i".to_owned()]));
    assert!(!interactive(&vec!["sh".to_owned()]));
}

#[test]
fn guest_programs_are_looked_for_in_order() {
    let place = |path: &str, is_file: bool| Place {
        path: FsPath::new(path),
        is_file,
    };
    assert_eq!(
        docker::guest_names("aarch64"),
        ["netsandbox-linux-guest", "netsandbox-linux-arm64"]
    );
    assert_eq!(docker::guest_names("riscv64")[1], "netsandbox-linux");
    let executable = FsPath::new("/bin/netsandbox");
    let places = vec![place("/bin/one", false), place("/bin/two", true), place("/bin/three", true)];
    let found = |configured: &Option<Place>, places: &Vec<Place>, embedded: &Option<FsPath>| {
        let program = platform::mac_linux_guest_binary(
            Host::MacOs,
            configured,
            &executable,
            places,
            embedded,
        );
        program.map(|program| match program {
            GuestProgram::Found { path } => format!("found {}", path.display()),
            GuestProgram::Embedded { path } => format!("embedded {}", path.display()),
        })
    };
    let helper = Some(FsPath::new("/state/helpers/netsandbox-linux-guest"));
    assert_eq!(found(&None, &places, &helper).unwrap(), "found /bin/two");
    assert_eq!(
        found(&Some(place("/x", false)), &places, &helper).unwrap_err(),
        "NETSANDBOX_LINUX_GUEST_BIN points to unavailable file /x"
    );
    assert_eq!(
        found(&None, &Vec::new(), &helper).unwrap(),
        "embedded /state/helpers/netsandbox-linux-guest"
    );
    assert!(found(&None, &Vec::new(), &None)
        .unwrap_err()
        .contains("none was found beside /bin/netsandbox"));
    assert_eq!(
        platform::mac_linux_guest_binary(Host::Linux, &None, &executable, &places, &None)
            .err()
            .unwrap(),
        "the lightweight Linux image runner is available only on macOS"
    );
}

#[test]
fn the_embedded_helper_is_put_in_place_once() {
    let directory = FsPath::new("/state/helpers");
    let helper = b"program".to_vec();
    let current = Some(helper.clone());
    assert!(docker::extract_embedded_guest(&directory, 7, &current, &helper).is_empty());
    let stale = Some(b"older".to_vec());
    for existing in [None, stale] {
        let steps = docker::extract_embedded_guest(&directory, 7, &existing, &helper);
        assert_eq!(steps.len(), 4);
        match &steps[2] {
            HelperStep::SetMode { path, mode } => {
                assert_eq!(path.display(), "/state/helpers/.netsandbox-linux-guest-7");
                assert_eq!(*mode, 0o700);
            }
            _ => panic!("the mode is set before the helper is moved"),
        }
        match &steps[3] {
            HelperStep::Rename { to, .. } => {
                assert_eq!(to.display(), "/state/helpers/netsandbox-linux-guest")
            }
            _ => panic!("the helper is moved at last"),
        }
    }
}

fn image_change(path: &str, is_tracked: bool) -> LinuxImageChange {
    LinuxImageChange { kind: "C".to_owned(), path: FsPath::new(path), is_tracked }
}

fn drive_commit(
    sandbox: &mut Environment,
    exists: bool,
    changes: Vec<LinuxImageChange>,
    build: Result<(), String>,
) -> (Result<String, String>, Vec<String>) {
    let (mut run, mut action) = commit(sandbox, "team/result:1", 42).ok().unwrap();
    let mut changes = Some(changes);
    let mut log: Vec<String> = Vec::new();
    loop {
        let event = match action {
            CommitAction::CheckOwner { .. } => CommitEvent::Owner { owned: Ok(()) },
            CommitAction::LookUp { image } => {
                let found = exists && image == "team/result:1";
                CommitEvent::Exists { exists: Ok(found) }
            }
            CommitAction::ListChanges { .. } => {
                CommitEvent::Changes { changes: Ok(changes.take().unwrap()) }
            }
            CommitAction::Commit { image, .. } => {
                log.push(format!("commit {image}"));
                CommitEvent::Output { output: Ok(output(0, "noise\n sha256:parent \n", "")) }
            }
            CommitAction::Build { build_file, .. } => {
                log.push(build_file);
                CommitEvent::Done { result: build.clone() }
            }
            CommitAction::Remove { image } => {
                log.push(format!("remove {image}"));
                CommitEvent::Done { result: Err("busy".to_owned()) }
            }
            CommitAction::Identify { .. } => {
                CommitEvent::Output { output: Ok(output(0, "sha256:new\n", "")) }
            }
            CommitAction::Finish { result } => return (result, log),
        };
        action = run.next(sandbox, event);
    }
}

#[test]
fn commits_are_recorded_and_can_be_taken_back() {
    let mut sandbox = contained("demo");
    let before = sandbox.metadata.len();
    let (result, log) =
        drive_commit(&mut sandbox, false, vec![image_change("/etc/a", true)], Ok(()));
    assert_eq!(result.unwrap(), "sha256:new");
    assert_eq!(
        log,
        [
            "commit netsandbox-internal:abababababab-42",
            "FROM netsandbox-internal:abababababab-42\nENTRYPOINT []\nCMD [\"sh\"]\n",
            "remove netsandbox-internal:abababababab-42",
        ]
    );
    assert_eq!(sandbox.metadata.len(), before + 3);
    let (mut run, mut action) = rollback_commit(&sandbox).ok().unwrap();
    let mut removed: Vec<String> = Vec::new();
    let result = loop {
        let reply = match action {
            CommitAction::Identify { .. } => Ok(output(0, "sha256:new\n", "")),
            CommitAction::Remove { image } => {
                removed.push(image);
                Ok(output(0, "", ""))
            }
            CommitAction::Finish { result } => break result,
            _ => panic!("a commit is taken back by removing images"),
        };
        action = run.next(&mut sandbox, reply);
    };
    assert_eq!(result.unwrap(), "team/result:1");
    assert_eq!(removed, ["team/result:1", "sha256:parent"]);
    assert_eq!(sandbox.metadata.len(), before);
    assert_eq!(
        rollback_commit(&sandbox).err().unwrap(),
        "environment has no committed Linux image"
    );
}

#[test]
fn commits_are_refused_or_fail_without_a_record() {
    let mut sandbox = contained("demo");
    let before = sandbox.metadata.len();
    let (result, log) =
        drive_commit(&mut sandbox, false, vec![image_change("/etc/a", false)], Ok(()));
    assert_eq!(
        result.unwrap_err(),
        "Linux image commit is blocked by 1 untracked change(s); run 'netsandbox mac linux-diff demo'"
    );
    assert!(log.is_empty());
    let (result, _) = drive_commit(&mut sandbox, true, Vec::new(), Ok(()));
    assert_eq!(
        result.unwrap_err(),
        "Docker image 'team/result:1' already exists; refusing to overwrite it"
    );
    let (result, log) = drive_commit(&mut sandbox, false, Vec::new(), Err("no build".to_owned()));
    assert_eq!(result.unwrap_err(), "no build");
    assert_eq!(log.last().unwrap(), "remove netsandbox-internal:abababababab-42");
    assert_eq!(sandbox.metadata.len(), before);
    assert_eq!(commit(&sandbox, "-x", 1).err().unwrap(), "invalid Docker image reference");
}

#[test]
fn an_image_that_is_not_the_recorded_one_is_kept() {
    let mut sandbox = contained("demo");
    sandbox.metadata.insert("docker_linux_committed_image".to_owned(), "i:1".to_owned());
    assert_eq!(
        rollback_commit(&sandbox).err().unwrap(),
        "environment has no committed Linux image ID"
    );
    sandbox.metadata.insert("docker_linux_committed_id".to_owned(), "sha256:a".to_owned());
    let (mut run, _) = rollback_commit(&sandbox).ok().unwrap();
    match run.next(&mut sandbox, Ok(output(0, "sha256:b\n", ""))) {
        CommitAction::Finish { result } => assert_eq!(
            result.unwrap_err(),
            "refusing to remove Docker image 'i:1' because its ID no longer matches the recorded commit"
        ),
        _ => panic!("must stop"),
    }
}

fn drive_sync(
    kind: GuestKind,
    sandbox: &mut Environment,
    answers: &dyn Fn(&str, FileCheck) -> bool,
) -> (Result<usize, String>, Vec<String>) {
    let (mut run, mut action) = sync_tracked_paths(kind, &FsPath::new("/upper"), sandbox);
    let mut log: Vec<String> = Vec::new();
    loop {
        let event = match action {
            SyncAction::Inspect { path } => {
                log.push(format!("inspect {}", path.display()));
                SyncEvent::Origin { origin: Ok(Origin::absent()) }
            }
            SyncAction::Test { check, guest } => {
                SyncEvent::Answer { held: Ok(answers(&guest.display(), check)) }
            }
            SyncAction::Copy { guest, candidate } => {
                log.push(format!("copy {} {}", guest.display(), candidate.display()));
                SyncEvent::Done { result: Ok(()) }
            }
            SyncAction::Remove { candidate } => {
                log.push(format!("remove {}", candidate.display()));
                SyncEvent::Done { result: Ok(()) }
            }
            SyncAction::Finish { result } => return (result, log),
        };
        action = run.next(sandbox, event);
    }
}

#[test]
fn exported_files_are_taken_over() {
    let mut sandbox = environment("demo");
    sandbox.tracked_paths = vec![FsPath::new("etc/a"), FsPath::new("etc/b")];
    sandbox.deleted_paths = vec![FsPath::new("etc/a")];
    let (result, log) = drive_sync(GuestKind::Machine, &mut sandbox, &|path, check| {
        path == "/etc/a" && matches!(check, FileCheck::Exists | FileCheck::Regular)
    });
    assert_eq!(result.unwrap(), 2);
    assert_eq!(
        log,
        [
            "inspect /etc/a",
            "copy /etc/a /upper/etc/a",
            "inspect /etc/b",
            "remove /upper/etc/b"
        ]
    );
    let deleted: Vec<String> = sandbox.deleted_paths.iter().map(|p| p.display()).collect();
    assert_eq!(deleted, ["etc/b"]);
    assert_eq!(sandbox.origins.len(), 2);
}

#[test]
fn only_regular_files_are_taken_over() {
    let mut sandbox = environment("demo");
    sandbox.tracked_paths = vec![FsPath::new("etc/a")];
    let (result, _) = drive_sync(GuestKind::Image, &mut sandbox, &|_, check| {
        matches!(check, FileCheck::Exists | FileCheck::Link)
    });
    assert_eq!(
        result.unwrap_err(),
        "Linux image candidate path /etc/a is a symbolic link; symlink export is not yet supported"
    );
    let (result, _) = drive_sync(GuestKind::Machine, &mut sandbox, &|_, check| {
        matches!(check, FileCheck::Exists | FileCheck::Directory)
    });
    assert_eq!(
        result.unwrap_err(),
        "tracked macOS VM path /etc/a is a directory; track its changed files individually"
    );
    sandbox.tracked_paths = vec![FsPath::new("../x")];
    let (result, _) = drive_sync(GuestKind::Image, &mut sandbox, &|_, _| true);
    assert_eq!(result.unwrap_err(), "unsafe relative path '../x'");
    let verdict = judge_file(
        GuestKind::Image,
        "Linux image baseline",
        &FsPath::new("/etc/p"),
        FileCheck::Regular,
        false,
    );
    assert!(matches!(
        verdict,
        FileVerdict::Refuse { message } if message == "Linux image baseline path /etc/p is not a regular file"
    ));
}

#[test]
fn guests_are_prepared_for_commands() {
    let sandbox = environment("demo");
    let directory = guest_directory(&sandbox);
    assert_eq!(directory.display(), "/tmp/netsandbox-abababababab");
    let steps = prepare_guest_command(&directory, true);
    assert_eq!(steps.len(), 5);
    assert!(matches!(
        &steps[2],
        GuestStep::CopyIn { file: GuestFile::Program, destination }
            if destination.display() == "/tmp/netsandbox-abababababab/netsandbox"
    ));
    assert_eq!(prepare_guest_command(&directory, false).len(), 4);
    let mapped = map_guest_command(
        &vec!["/usr/bin//netsandbox".to_owned(), "__probe".to_owned()],
        &FsPath::new("/usr/bin/netsandbox"),
        &directory,
    );
    assert_eq!(mapped, ["/tmp/netsandbox-abababababab/netsandbox", "__probe"]);
    let other =
        map_guest_command(&vec!["ls".to_owned()], &FsPath::new("/usr/bin/netsandbox"), &directory);
    assert_eq!(other, ["ls"]);
}

fn mappings() -> Mappings {
    let mut mappings: Mappings = OrderedMap::new();
    mappings.insert("/etc/example.conf".to_owned(), "/tmp/candidate/etc/example.conf".to_owned());
    mappings
}

fn forms(count: usize) -> Vec<CanonicalForms> {
    (0..count).map(|_| CanonicalForms { whole: None, value: None }).collect()
}

#[test]
fn rewrites_exact_and_flag_paths_only() {
    let command: Vec<Argument> = [
        "tool",
        "/etc/example.conf",
        "--config=/etc/example.conf",
        "/etc/example.conf.backup",
    ]
    .iter()
    .map(|text| Argument::Text { text: text.to_string() })
    .collect();
    let rewritten: Vec<String> = rewrite_arguments(&command, &mappings(), &forms(4))
        .into_iter()
        .map(|argument| match argument {
            Argument::Text { text } => text,
            Argument::Raw { .. } => panic!("texts stay texts"),
        })
        .collect();
    assert_eq!(
        rewritten,
        [
            "tool",
            "/tmp/candidate/etc/example.conf",
            "--config=/tmp/candidate/etc/example.conf",
            "/etc/example.conf.backup"
        ]
    );
}

#[test]
fn arguments_that_are_no_text_stay() {
    let command = vec![Argument::Raw { bytes: vec![0xff] }];
    let rewritten = rewrite_arguments(&command, &mappings(), &forms(1));
    assert!(matches!(&rewritten[0], Argument::Raw { bytes } if bytes == &vec![0xff]));
}

#[test]
fn mappings_are_read_back_as_they_were_written() {
    let mut all = mappings();
    all.insert("/a \"quoted\"".to_owned(), "/tmp/\u{e9}".to_owned());
    let text = write_mappings(&all);
    assert!(text.starts_with('{'));
    let back = read_mappings(&Some(text));
    assert_eq!(back.len(), 2);
    assert_eq!(back.get(&"/a \"quoted\"".to_owned()).unwrap(), "/tmp/\u{e9}");
    assert_eq!(read_mappings(&Some("not json".to_owned())).len(), 0);
    assert_eq!(read_mappings(&None).len(), 0);
    let resolved = vec![CanonicalForms {
        whole: Some("/etc/example.conf".to_owned()),
        value: None,
    }];
    assert_eq!(
        rewrite_candidate_arguments(
            &Some(write_mappings(&mappings())),
            &vec!["../etc/example.conf".to_owned()],
            &resolved
        ),
        ["/tmp/candidate/etc/example.conf"]
    );
}

#[test]
fn profiles_quote_the_workspace() {
    let profile = sandbox_profile("/tmp/a \"b\"\\c");
    assert!(profile.starts_with("(version 1)(deny default)(allow file-read*)"));
    assert!(profile.ends_with("(allow file-write* (subpath \"/tmp/a \\\"b\\\"\\\\c\"))"));
}

#[test]
fn mac_native_exec_allows_the_null_device() {
    let words = ["/bin/sh", "-c", "printf 'probe' >/dev/null"];
    let command: Vec<Argument> =
        words.iter().map(|text| Argument::Text { text: text.to_string() }).collect();
    assert!(check_run(command.len(), true, false).is_ok());
    let run = rewrite_arguments(&command, &mappings(), &forms(3));
    for (argument, word) in run.iter().zip(words) {
        assert!(matches!(argument, Argument::Text { text } if text == word));
    }
    let profile = sandbox_profile("/tmp/mac-null-device");
    assert!(profile.contains("(allow file-write-data (literal \"/dev/null\"))"));
    assert_eq!(profile.matches("file-write").count(), 2);
    assert_eq!(profile.matches("(literal ").count(), 1);
}

#[test]
fn native_commands_are_refused_where_they_would_not_be_constrained() {
    assert!(available(&vec![FsPath::new("/usr/bin/sandbox-exec")]));
    assert!(!available(&Vec::new()));
    assert_eq!(check_run(0, true, false).unwrap_err(), "no command was provided");
    assert_eq!(
        check_run(1, false, false).unwrap_err(),
        "the native macOS rehearsal runtime is unavailable: /usr/bin/sandbox-exec is missing"
    );
    assert!(check_run(1, true, true).unwrap_err().contains("refuses to execute commands as root"));
    assert!(check_run(1, true, false).is_ok());
    assert_eq!(exit_code(Some(3), None), 3);
    assert_eq!(exit_code(None, Some(9)), 137);
    assert_eq!(exit_code(None, None), 129);
}

#[test]
fn workspaces_hold_copies_of_the_staged_files() {
    let mut sandbox = environment("demo");
    sandbox.origins.insert(FsPath::new("etc/a"), Origin::absent());
    sandbox.origins.insert(FsPath::new("etc/b"), Origin::absent());
    sandbox.deleted_paths.push(FsPath::new("etc/b"));
    let workspace = Workspace::create_as(
        &sandbox,
        &FsPath::new("/tmp"),
        42,
        &EnvironmentId { bytes: [1; 16] },
    );
    assert_eq!(
        workspace.candidate_root.display(),
        format!(
            "/tmp/netsandbox-native-{}-42-{}/candidate",
            "ab".repeat(16),
            "01".repeat(16)
        )
    );
    let staged = staged_paths(&sandbox);
    let root = FsPath::new("/work");
    let plan = materialize_candidates(
        &sandbox,
        &staged,
        &vec![true, false],
        &FsPath::new("/upper"),
        &root,
    )
    .ok()
    .unwrap();
    assert!(matches!(&plan.steps[0], CandidateStep::Copy { .. }));
    assert!(matches!(&plan.steps[1], CandidateStep::MakeParent { .. }));
    assert_eq!(plan.mappings.get(&"/etc/a".to_owned()).unwrap(), "/work/etc/a");
    let missing = materialize_candidates(
        &sandbox,
        &staged,
        &vec![false, false],
        &FsPath::new("/upper"),
        &root,
    );
    assert_eq!(
        missing.err().unwrap(),
        "staged path /etc/a has no candidate file; restage it before native execution"
    );
    let steps = sync_candidates(
        &mut sandbox,
        &staged,
        &vec![false, true],
        &root,
        &FsPath::new("/upper"),
        at(500),
    )
    .ok()
    .unwrap();
    assert!(matches!(&steps[0], TakeOverStep::Remove { .. }));
    assert!(matches!(&steps[1], TakeOverStep::Replace { .. }));
    let deleted: Vec<String> = sandbox.deleted_paths.iter().map(|p| p.display()).collect();
    assert_eq!(deleted, ["etc/a"]);
    assert!(sandbox.updated_at == at(500));
}

#[test]
fn an_unsafe_candidate_changes_nothing() {
    let mut sandbox = environment("demo");
    sandbox.origins.insert(FsPath::new("etc/a"), Origin::absent());
    let refused = sync_candidates(
        &mut sandbox,
        &vec![FsPath::new("etc/a"), FsPath::new("../b")],
        &vec![false, true],
        &FsPath::new("/work"),
        &FsPath::new("/upper"),
        at(500),
    );
    assert!(refused.is_err());
    assert!(sandbox.deleted_paths.is_empty());
    assert!(sandbox.updated_at == at(100));
}

#[test]
fn a_staged_path_keeps_its_first_spelling() {
    let mut sandbox = environment("demo");
    sandbox.origins.insert(FsPath::new("etc//a"), Origin::absent());
    sandbox.origins.insert(FsPath::new("etc/a"), Origin::absent());
    let staged: Vec<String> = staged_paths(&sandbox).iter().map(|p| p.display()).collect();
    assert_eq!(staged, ["etc//a"]);
}

#[test]
fn undeclared_files_are_refused() {
    let expected = vec![FsPath::new("etc/a")];
    assert!(reject_untracked_entries(&vec![FsPath::new("etc//a")], &expected).is_ok());
    assert_eq!(
        reject_untracked_entries(&vec![FsPath::new("etc/a"), FsPath::new("etc/b")], &expected)
            .unwrap_err(),
        "native command created undeclared candidate /etc/b; stage that exact path before retrying"
    );
}

#[test]
fn runtimes_depend_on_host_and_environment() {
    let plain = environment("demo");
    let image = contained("demo");
    assert_eq!(platform::run_in_environment(Host::Linux, &image).unwrap(), Runtime::Namespaces);
    assert_eq!(platform::run_in_environment(Host::MacOs, &image).unwrap(), Runtime::Container);
    assert_eq!(platform::run_in_environment(Host::MacOs, &plain).unwrap(), Runtime::Workspace);
    assert_eq!(
        platform::run_in_environment(Host::Other, &plain).unwrap_err(),
        "isolated execution is supported only on Linux and macOS"
    );
    assert!(!platform::supports_host_apply(Host::MacOs, &image));
    assert!(platform::supports_host_apply(Host::Linux, &image));
    assert_eq!(
        platform::runtime_description(Host::MacOs, &image, true).as_deref(),
        Some("lightweight Linux image")
    );
    assert_eq!(
        platform::runtime_description(Host::MacOs, &plain, true).as_deref(),
        Some("native macOS differential")
    );
    assert!(platform::runtime_description(Host::Linux, &plain, true).is_none());
    assert_eq!(
        platform::default_shell(Host::MacOs, &image, &Some("/bin/zsh".to_owned())),
        "/bin/sh"
    );
    assert_eq!(
        platform::default_shell(Host::Linux, &plain, &Some("/bin/zsh".to_owned())),
        "/bin/zsh"
    );
    assert_eq!(
        platform::require_real_host_apply(Host::Linux, &plain, false).unwrap_err(),
        "applying to the real host requires root privileges"
    );
    assert!(platform::require_real_host_apply(Host::Linux, &plain, true).is_ok());
    assert_eq!(
        platform::require_real_host_apply(Host::Other, &plain, true).unwrap_err(),
        "applying to the real host is supported only on Linux and macOS"
    );
}

#[test]
fn reports_list_what_the_host_has() {
    let checks = platform::doctor(&SystemFindings::MacOs {
        mac: lima::MacFindings {
            route_tool: true,
            loopback: true,
            machine_runtime: Err("no Lima".to_owned()),
        },
        native: true,
        engine: Ok((FsPath::new("/usr/bin/docker"), output(0, "linux/arm64\n", ""))),
    });
    assert_eq!(checks.len(), 7);
    assert_eq!(checks[0].name, "native enter/exec");
    assert_eq!(checks[1].detail, "optional legacy backend unavailable: no Lima");
    assert_eq!(checks[6].detail, "Docker available at /usr/bin/docker (linux/arm64)");
    let linux = platform::doctor(&SystemFindings::Linux {
        linux: LinuxFindings {
            is_root: false,
            filesystems: Some("nodev\toverlay\n".to_owned()),
            tools: vec![true; 7],
            forwarding: Some("1\n".to_owned()),
        },
    });
    assert_eq!(linux.len(), 10);
    assert!(!linux[0].ok && linux[1].ok && linux[9].ok);
    let other = platform::doctor(&SystemFindings::Other { system: "freebsd".to_owned() });
    assert_eq!(other[0].detail, "current platform is freebsd");
}

fn faults(tools: Vec<bool>, forwarding: &str) -> Vec<String> {
    let checks = platform::doctor(&SystemFindings::Linux {
        linux: LinuxFindings {
            is_root: true,
            filesystems: Some("nodev\toverlay\n".to_owned()),
            tools,
            forwarding: Some(forwarding.to_owned()),
        },
    });
    checks
        .iter()
        .filter(|check| check.required && !check.ok)
        .map(|check| check.name.clone())
        .collect()
}

#[test]
fn a_linux_host_needs_every_tool_but_no_forwarding() {
    assert!(faults(vec![true; 7], "0\n").is_empty());
    for (position, tool) in runtime_tools().iter().enumerate() {
        let mut tools = vec![true; 7];
        tools[position] = false;
        assert_eq!(faults(tools, "1\n"), [tool.clone()]);
    }
}

#[test]
fn overlay_paths_have_no_delimiters() {
    assert!(reject_overlay_delimiters(&FsPath::new("/state/a")).is_ok());
    assert_eq!(
        reject_overlay_delimiters(&FsPath::new("/state/a,b")).unwrap_err(),
        "base path cannot contain ',' or ':' for the OverlayFS backend"
    );
    assert!(reject_overlay_delimiters(&FsPath::new("/state/a:b")).is_err());
}

#[test]
fn networks_of_environments_are_laid_out_from_their_identifiers() {
    let layout = network_layout(&EnvironmentId { bytes: [0xab; 16] });
    assert_eq!(layout.namespace, "nsb-abababa");
    assert_eq!(layout.host_interface, "nshabababa");
    assert_eq!(layout.host_address, "10.231.187.181");
    assert_eq!(layout.guest_address, "10.231.187.182");
    let arguments = namespace_arguments(
        &layout.namespace,
        "/usr/bin/netsandbox",
        &FsPath::new("/state"),
        "demo",
    );
    assert_eq!(arguments[..3], ["netns", "exec", "nsb-abababa"]);
    assert_eq!(arguments[arguments.len() - 3..], ["__sandbox-init", "demo", "--"]);
}

/// Sets a network up, and tells the steps and what came of them. The step at `fail_at` fails.
fn set_up(forwarding: &str, fail_at: Option<usize>) -> (Vec<String>, Result<bool, String>) {
    let mut setup = NetworkSetup::start(&environment("demo"));
    let mut steps = Vec::new();
    while let Some(step) = setup.step() {
        let failed = Some(steps.len()) == fail_at;
        let refused = || "refused".to_owned();
        steps.push(match &step {
            NetworkStep::Run { command } => {
                format!("{} {}", command.program, command.arguments.join(" "))
            }
            NetworkStep::ReadForwarding => "read".to_owned(),
            NetworkStep::TurnOnForwarding => "on".to_owned(),
            NetworkStep::RestoreForwarding => "off".to_owned(),
        });
        setup.advance(match step {
            NetworkStep::ReadForwarding => NetworkOutcome::Forwarding {
                contents: if failed { Err(refused()) } else { Ok(forwarding.to_owned()) },
            },
            _ => NetworkOutcome::Done { result: if failed { Err(refused()) } else { Ok(()) } },
        });
    }
    (steps, setup.finish().map(|guard| guard.restore_forwarding))
}

#[test]
fn a_network_is_set_up_step_by_step() {
    let (steps, result) = set_up("1\n", None);
    assert_eq!(result, Ok(false));
    assert_eq!(steps.len(), 16);
    assert_eq!(steps[0], "ip netns add nsb-abababa");
    assert_eq!(steps[9], "read");
    assert_eq!(steps[10], "nft add table ip nsb_abababa");
    let (steps, result) = set_up("0\n", None);
    assert_eq!(result, Ok(true));
    assert_eq!(steps.len(), 17);
    assert_eq!(steps[9..11], ["read", "on"]);
}

#[test]
fn a_network_that_fails_is_taken_down() {
    let (steps, result) = set_up("0\n", Some(0));
    assert_eq!((steps.len(), result), (1, Err("refused".to_owned())));
    let context = "configure isolated network namespace: refused".to_owned();
    let down = [
        "nft delete table ip nsb_abababa",
        "ip netns delete nsb-abababa",
        "ip link delete nshabababa",
    ];
    let (steps, result) = set_up("0\n", Some(9));
    assert_eq!(result, Err(context.clone()));
    assert_eq!(steps[10..], down);
    let (steps, result) = set_up("0\n", Some(10));
    assert_eq!(result, Err(context.clone()));
    assert_eq!(steps[11..], down);
    let (steps, result) = set_up("0\n", Some(11));
    assert_eq!(result, Err(context));
    assert_eq!(steps[12..15], down);
    assert_eq!(steps[15..], ["off"]);
}

#[test]
fn programs_are_found_where_they_come_first() {
    let directories = vec![FsPath::new("/bin"), FsPath::new("/opt/bin")];
    let shown = |list: Vec<FsPath>| list.iter().map(|p| p.display()).collect::<Vec<String>>();
    assert_eq!(
        shown(docker_places(&Some(FsPath::new("/my/docker")), &directories)),
        [
            "/my/docker",
            "/bin/docker",
            "/opt/bin/docker",
            "/usr/local/bin/docker",
            "/opt/homebrew/bin/docker",
        ]
    );
    assert_eq!(
        shown(lima_places(&None, &directories)),
        [
            "/bin/limactl",
            "/opt/bin/limactl",
            "/opt/homebrew/bin/limactl",
            "/usr/local/bin/limactl",
        ]
    );
    let places = vec![
        Place { path: FsPath::new("/a"), is_file: false },
        Place { path: FsPath::new("/b"), is_file: true },
        Place { path: FsPath::new("/c"), is_file: true },
    ];
    assert_eq!(find_docker(&places).ok().unwrap().display(), "/b");
    assert_eq!(
        find_docker(&Vec::new()).err().unwrap(),
        "Docker is required for the lightweight Linux image runner"
    );
    assert!(find_limactl(&Vec::new()).err().unwrap().starts_with("Lima 2.1 or newer is required"));
}

#[test]
fn names_are_made_up_where_they_must_not_meet() {
    let sandbox = environment("demo");
    let temporary = FsPath::new("/tmp");
    let first = Workspace::create(&sandbox, &temporary, 7);
    let second = Workspace::create(&sandbox, &temporary, 7);
    assert!(first
        .path
        .display()
        .starts_with("/tmp/netsandbox-native-abababababababababababababababab-7-"));
    assert_ne!(first.path.display(), second.path.display());
    assert_eq!(
        build_directory_as(&temporary, &EnvironmentId { bytes: [1; 16] }).display(),
        "/tmp/netsandbox-image-build-01010101010101010101010101010101"
    );
    assert_ne!(build_directory(&temporary).display(), build_directory(&temporary).display());
}

#[test]
fn builds_report_what_is_left_behind() {
    let failed = |text: &str| Err::<(), String>(text.to_owned());
    assert!(build_metadata_image(Ok(()), Ok(())).is_ok());
    assert_eq!(build_metadata_image(failed("a"), Ok(())).unwrap_err(), "a");
    assert_eq!(build_metadata_image(Ok(()), failed("b")).unwrap_err(), "b");
    assert_eq!(
        build_metadata_image(failed("a"), failed("b")).unwrap_err(),
        "empty Docker build context cleanup also failed: b: a"
    );
}
