//! Sandboxes in a container from a Linux image.
use vstd::prelude::*;

use crate::command::{ensure_success_or_status, failure_or_status, CommandOutput};
use crate::encoding::{octal_failure, read_octal};
use crate::identity::{hyphenated, hyphenated_text, short_id, short_text};
use crate::model::{
    sort_shown, views, DoctorCheck, Environment, EnvironmentView, LinuxImageChange,
    LinuxImageChangeView, Origin, OriginView,
};
use crate::order::{ranks, sorted_by};
use crate::path::{
    below_root, contains_path, drop_path, is_rooted, is_under, joined, lemma_spelled, lists_path,
    parts, path_texts, same_parts, with_spelling, without_path, FsPath, PathPart,
};
use crate::platform::guest::{guest_directory, guest_directory_of, guest_program};
use crate::platform::linux::{check, check_of};
use crate::platform::programs::{find_file, first_file, Place};
use crate::script::ScriptShape;
use crate::text::{
    append_texts, arguments, decimal, has_prefix, is_space, lines, number_text, opt_text, same_text,
    space, split_first, split_lines, split_once, starts_with, strs, texts, to_chars, trim, trimmed,
    unsigned,
};

verus! {

pub const CONTAINER_KEY: &'static str = "docker_linux_container";

pub const IMAGE_KEY: &'static str = "docker_linux_image";

pub const GUEST_BINARY_KEY: &'static str = "docker_linux_guest_binary";

pub const MANAGED_KEY: &'static str = "docker_linux_managed";

pub const COMMITTED_IMAGE_KEY: &'static str = "docker_linux_committed_image";

pub const COMMITTED_ID_KEY: &'static str = "docker_linux_committed_id";

pub const COMMITTED_PARENT_ID_KEY: &'static str = "docker_linux_committed_parent_id";

pub const SOURCE_ENTRYPOINT_KEY: &'static str = "docker_linux_source_entrypoint";

pub const SOURCE_CMD_KEY: &'static str = "docker_linux_source_cmd";

/// What is recorded under a key.
pub open spec fn recorded(environment: EnvironmentView, key: Seq<char>) -> Option<Seq<char>> {
    if environment.metadata.dom().contains(key) {
        Some(environment.metadata[key])
    } else {
        None
    }
}

/// What is recorded under a key.
pub fn metadata(environment: &Environment, key: &str) -> (r: Option<String>)
    ensures
        opt_text(r) == recorded(environment@, key@),
{
    match environment.metadata.get(&key.to_owned()) {
        Some(value) => Some(value.clone()),
        None => None,
    }
}

/// Records a value under a key.
pub fn record(environment: &mut Environment, key: &str, value: &str)
    ensures
        final(environment)@ == (EnvironmentView {
            metadata: old(environment)@.metadata.insert(key@, value@),
            ..old(environment)@
        }),
{
    environment.metadata.insert(key.to_owned(), value.to_owned());
}

/// Takes out what is recorded under a key.
pub fn forget(environment: &mut Environment, key: &str)
    ensures
        final(environment)@ == (EnvironmentView {
            metadata: old(environment)@.metadata.remove(key@),
            ..old(environment)@
        }),
{
    environment.metadata.remove(&key.to_owned());
}

/// Whether an environment runs in a container.
pub open spec fn in_container(environment: EnvironmentView) -> bool {
    environment.metadata.dom().contains(CONTAINER_KEY@)
}

pub fn has_container(environment: &Environment) -> (r: bool)
    ensures
        r == in_container(environment@),
{
    environment.metadata.contains(&CONTAINER_KEY.to_owned())
}

/// The container of an environment.
pub fn container_name(environment: &Environment) -> (r: Result<String, String>)
    ensures
        match r {
            Ok(name) => recorded(environment@, CONTAINER_KEY@) == Some(name@),
            Err(e) => recorded(environment@, CONTAINER_KEY@) is None && e@
                == "environment has no Linux image runtime"@,
        },
{
    match metadata(environment, CONTAINER_KEY) {
        Some(name) => Ok(name),
        None => Err("environment has no Linux image runtime".to_owned()),
    }
}

/// The name that the container of an environment has.
pub open spec fn container_of(id: Seq<u8>) -> Seq<char> {
    "nsb-linux-"@ + short_id(id, 12)
}

pub fn expected_container_name(environment: &Environment) -> (r: String)
    ensures
        r@ == container_of(environment@.id),
{
    "nsb-linux-".to_owned().concat(short_text(&environment.id, 12).as_str())
}

/// The label by which a container is known to belong to an environment.
pub fn owner_label(environment: &Environment) -> (r: String)
    ensures
        r@ == "dev.netsandbox.environment="@ + hyphenated(environment@.id),
{
    "dev.netsandbox.environment=".to_owned().concat(hyphenated_text(&environment.id).as_str())
}

/// Why an operation on a container is refused: it has the name of another environment's.
pub open spec fn foreign_container(environment: EnvironmentView, container: Seq<char>) -> Seq<
    char,
> {
    "refusing to operate on Docker container '"@ + container
        + "' because its name does not match environment '"@ + environment.name + "'"@
}

/// The container that an operation may be run on, as far as its name goes.
pub open spec fn named_container(environment: EnvironmentView) -> Result<Seq<char>, Seq<char>> {
    match recorded(environment, CONTAINER_KEY@) {
        None => Err("environment has no Linux image runtime"@),
        Some(container) => if container == container_of(environment.id) {
            Ok(container)
        } else {
            Err(foreign_container(environment, container))
        },
    }
}

pub fn checked_container(environment: &Environment) -> (r: Result<String, String>)
    ensures
        match r {
            Ok(name) => named_container(environment@) == Ok::<Seq<char>, Seq<char>>(name@),
            Err(e) => named_container(environment@) == Err::<Seq<char>, Seq<char>>(e@),
        },
{
    let container = match container_name(environment) {
        Ok(name) => name,
        Err(e) => return Err(e),
    };
    if same_text(container.as_str(), expected_container_name(environment).as_str()) {
        Ok(container)
    } else {
        Err(
            "refusing to operate on Docker container '".to_owned().concat(
                container.as_str(),
            ).concat("' because its name does not match environment '").concat(
                environment.name.as_str(),
            ).concat("'"),
        )
    }
}

/// Refuses a container whose label names another owner. `output` is what the label was read with.
pub fn ensure_owned_container(
    environment: &Environment,
    container: &str,
    output: &CommandOutput,
) -> (r: Result<(), String>)
    ensures
        r is Ok <==> output.succeeded() && trimmed(output.output_text()) == hyphenated(
            environment@.id,
        ),
        r matches Err(e) ==> e@ == if !output.succeeded() {
            failure_or_status("inspect Linux image ownership label"@, *output)
        } else {
            "Docker container '"@ + container@ + "' is not owned by this environment"@
        },
{
    match ensure_success_or_status(output, "inspect Linux image ownership label") {
        Err(e) => return Err(e),
        Ok(()) => {},
    }
    if same_text(
        output.trimmed_stdout().as_str(),
        hyphenated_text(&environment.id).as_str(),
    ) {
        Ok(())
    } else {
        Err(
            "Docker container '".to_owned().concat(container).concat(
                "' is not owned by this environment",
            ),
        )
    }
}

/// Whether a text can name an image.
pub open spec fn is_image_reference(image: Seq<char>) -> bool {
    image.len() > 0 && image[0] != '-' && forall|i: int|
        0 <= i < image.len() ==> !is_space(#[trigger] image[i])
}

/// Refuses a text that cannot name an image.
pub fn validate_image_reference(image: &str) -> (r: Result<(), String>)
    ensures
        r is Ok <==> is_image_reference(image@),
        r matches Err(e) ==> e@ == "invalid Docker image reference"@,
{
    let chars = to_chars(image);
    let mut ok = chars.len() > 0 && chars[0] != '-';
    let mut i: usize = 0;
    while i < chars.len()
        invariant
            i <= chars.len(),
            chars@ == image@,
            ok == (chars@.len() > 0 && chars@[0] != '-' && forall|k: int|
                0 <= k < i ==> !is_space(#[trigger] chars@[k])),
        decreases chars.len() - i,
    {
        if space(chars[i]) {
            ok = false;
        }
        i += 1;
    }
    if ok {
        Ok(())
    } else {
        Err("invalid Docker image reference".to_owned())
    }
}

/// What a lookup that answers with its exit code says.
pub open spec fn answer(code: Option<i32>) -> Option<bool> {
    match code {
        Some(c) => if c == 0 {
            Some(true)
        } else if c == 1 {
            Some(false)
        } else {
            None
        },
        None => None,
    }
}

fn read_answer(code: Option<i32>) -> (r: Option<bool>)
    ensures
        r == answer(code),
{
    match code {
        Some(c) => if c == 0 {
            Some(true)
        } else if c == 1 {
            Some(false)
        } else {
            None
        },
        None => None,
    }
}

/// Whether a container exists, by the exit code of its lookup.
pub fn container_exists(code: Option<i32>, container: &str) -> (r: Result<bool, String>)
    ensures
        match r {
            Ok(found) => answer(code) == Some(found),
            Err(e) => answer(code) is None && e@
                == "could not determine whether Docker container '"@ + container@ + "' exists"@,
        },
{
    match read_answer(code) {
        Some(found) => Ok(found),
        None => Err(
            "could not determine whether Docker container '".to_owned().concat(container).concat(
                "' exists",
            ),
        ),
    }
}

/// Whether an image exists, by the exit code of its lookup.
pub fn image_exists(code: Option<i32>, image: &str) -> (r: Result<bool, String>)
    ensures
        match r {
            Ok(found) => answer(code) == Some(found),
            Err(e) => answer(code) is None && e@ == "could not determine whether Docker image '"@
                + image@ + "' exists"@,
        },
{
    match read_answer(code) {
        Some(found) => Ok(found),
        None => Err(
            "could not determine whether Docker image '".to_owned().concat(image).concat(
                "' exists",
            ),
        ),
    }
}

/// Whether a test of a path in a guest held, by its exit code.
pub fn guest_test(code: Option<i32>, path: &FsPath, guest: &str) -> (r: Result<bool, String>)
    ensures
        match r {
            Ok(held) => answer(code) == Some(held),
            Err(e) => answer(code) is None && e@ == "could not inspect "@ + path@ + " in "@ + guest@,
        },
{
    match read_answer(code) {
        Some(held) => Ok(held),
        None => Err(
            "could not inspect ".to_owned().concat(path.text.as_str()).concat(" in ").concat(guest),
        ),
    }
}

/// The permissions that a guest reports for a file, in octal.
pub open spec fn reported_mode(
    output: CommandOutput,
    action: Seq<char>,
    failure: Seq<char>,
) -> Result<nat, Seq<char>> {
    if !output.succeeded() {
        Err(failure)
    } else {
        match unsigned(trimmed(output.output_text()), 8, 4_294_967_295) {
            Some(mode) => Ok(mode),
            None => Err(
                "parse "@ + action + ": "@ + octal_failure(trimmed(output.output_text())),
            ),
        }
    }
}

/// Reads the permissions that a guest reports.
pub(crate) fn read_mode(output: &CommandOutput, action: &str) -> (r: Result<u32, String>)
    requires
        output.succeeded(),
    ensures
        match r {
            Ok(mode) => forall|failure: Seq<char>| #[trigger]
                reported_mode(*output, action@, failure) == Ok::<nat, Seq<char>>(mode as nat),
            Err(e) => forall|failure: Seq<char>| #[trigger]
                reported_mode(*output, action@, failure) == Err::<nat, Seq<char>>(e@),
        },
{
    match read_octal(output.trimmed_stdout().as_str()) {
        Ok(mode) => Ok(mode),
        Err(cause) => Err("parse ".to_owned().concat(action).concat(": ").concat(cause.as_str())),
    }
}

/// The permissions of a file of an image.
pub fn docker_file_mode(output: &CommandOutput) -> (r: Result<u32, String>)
    ensures
        match r {
            Ok(mode) => reported_mode(
                *output,
                "Linux image file permissions"@,
                failure_or_status("inspect Linux image file permissions"@, *output),
            ) == Ok::<nat, Seq<char>>(mode as nat),
            Err(e) => reported_mode(
                *output,
                "Linux image file permissions"@,
                failure_or_status("inspect Linux image file permissions"@, *output),
            ) == Err::<nat, Seq<char>>(e@),
        },
{
    match ensure_success_or_status(output, "inspect Linux image file permissions") {
        Err(e) => return Err(e),
        Ok(()) => {},
    }
    read_mode(output, "Linux image file permissions")
}

/// The process that an image starts, as its metadata gives it.
pub open spec fn process_config(text: Seq<char>) -> Result<(Seq<char>, Seq<char>), Seq<char>> {
    let all = lines(text);
    if all.len() == 0 {
        Err("source image has no entrypoint metadata"@)
    } else if all.len() == 1 {
        Err("source image has no command metadata"@)
    } else {
        Ok((trimmed(all[0]), trimmed(all[1])))
    }
}

/// Reads the process that an image starts.
pub fn image_process_config(output: &CommandOutput) -> (r: Result<(String, String), String>)
    ensures
        match r {
            Ok((entrypoint, command)) => output.succeeded() && process_config(
                output.output_text(),
            ) == Ok::<(Seq<char>, Seq<char>), Seq<char>>((entrypoint@, command@)),
            Err(e) => if output.succeeded() {
                process_config(output.output_text()) == Err::<(Seq<char>, Seq<char>), Seq<char>>(e@)
            } else {
                e@ == failure_or_status(
                    "inspect Linux source image process configuration"@,
                    *output,
                )
            },
        },
{
    match ensure_success_or_status(output, "inspect Linux source image process configuration") {
        Err(e) => return Err(e),
        Ok(()) => {},
    }
    let all = split_lines(output.stdout_text().as_str());
    let ghost every = texts(all@);
    if all.len() == 0 {
        return Err("source image has no entrypoint metadata".to_owned());
    }
    if all.len() == 1 {
        return Err("source image has no command metadata".to_owned());
    }
    assert(every[0] == all@[0]@ && every[1] == all@[1]@);
    Ok((trim(all[0].as_str()), trim(all[1].as_str())))
}

/// The path of an image's file below its root.
pub open spec fn image_relative(path: Seq<char>) -> Seq<char> {
    if is_rooted(path) {
        below_root(path)
    } else {
        path
    }
}

/// Whether a changed path is allowed for: it is a path that the sandbox exports, or holds one.
pub open spec fn is_allowed(exported: Seq<Seq<char>>, relative: Seq<char>) -> bool {
    exists|i: int| 0 <= i < exported.len() && is_under(#[trigger] exported[i], relative)
}

fn allowed(exported: &Vec<FsPath>, relative: &FsPath) -> (r: bool)
    ensures
        r == is_allowed(path_texts(exported@), relative@),
{
    let mut i: usize = 0;
    while i < exported.len()
        invariant
            i <= exported.len(),
            forall|k: int|
                0 <= k < i ==> !is_under(#[trigger] path_texts(exported@)[k], relative@),
        decreases exported.len() - i,
    {
        if exported[i].starts_with(relative) {
            assert(is_under(path_texts(exported@)[i as int], relative@));
            return true;
        }
        i += 1;
    }
    false
}

/// The change that a line of the list stands for, if it stands for one.
pub open spec fn image_change(
    environment: EnvironmentView,
    line: Seq<char>,
) -> Option<LinuxImageChangeView> {
    match split_first(line, ' ') {
        None => None,
        Some((kind, path)) => if is_under(path, guest_directory_of(environment.id)) {
            None
        } else {
            Some(
                LinuxImageChangeView {
                    kind,
                    path,
                    is_tracked: is_allowed(environment.tracked_paths, image_relative(path)),
                },
            )
        },
    }
}

/// The changes that lines of the list stand for, in order.
pub open spec fn image_changes(
    environment: EnvironmentView,
    all: Seq<Seq<char>>,
) -> Seq<LinuxImageChangeView>
    decreases all.len(),
{
    if all.len() == 0 {
        Seq::empty()
    } else {
        let before = image_changes(environment, all.drop_last());
        match image_change(environment, all.last()) {
            Some(change) => before.push(change),
            None => before,
        }
    }
}

pub open spec fn image_ranks(changes: Seq<LinuxImageChangeView>) -> Seq<Seq<PathPart>> {
    Seq::new(changes.len(), |i: int| parts(changes[i].path))
}

/// The changes of an image in the order of their paths.
pub open spec fn listed_changes(environment: EnvironmentView, text: Seq<char>) -> Seq<
    LinuxImageChangeView,
> {
    let found = image_changes(environment, lines(text));
    sorted_by::<LinuxImageChange, LinuxImageChangeView>(image_ranks(found), found)
}

/// Reads the changes of the container of an environment from the list that the engine gave.
pub fn changes(
    environment: &Environment,
    output: &CommandOutput,
) -> (r: Result<Vec<LinuxImageChange>, String>)
    ensures
        match r {
            Ok(list) => output.succeeded() && views(list@) == listed_changes(
                environment@,
                output.output_text(),
            ),
            Err(e) => !output.succeeded() && e@ == failure_or_status(
                "inspect Linux image changes"@,
                *output,
            ),
        },
{
    match ensure_success_or_status(output, "inspect Linux image changes") {
        Err(e) => return Err(e),
        Ok(()) => {},
    }
    let all = split_lines(output.stdout_text().as_str());
    let ghost every = texts(all@);
    let own = guest_directory(environment);
    let mut found: Vec<LinuxImageChange> = Vec::new();
    let mut i: usize = 0;
    assert(views(found@) =~= Seq::empty());
    while i < all.len()
        invariant
            i <= all.len(),
            every == texts(all@),
            own@ == guest_directory_of(environment@.id),
            views(found@) == image_changes(environment@, every.take(i as int)),
        decreases all.len() - i,
    {
        let ghost before = views(found@);
        proof {
            assert(every.take(i + 1).drop_last() =~= every.take(i as int));
            assert(every.take(i + 1).last() == all@[i as int]@);
        }
        if let Some((kind, text)) = split_once(all[i].as_str(), ' ') {
            let path = FsPath { text };
            if !path.starts_with(&own) {
                let relative = if path.is_absolute() {
                    path.strip_root()
                } else {
                    path.copy()
                };
                let change = LinuxImageChange {
                    kind,
                    is_tracked: allowed(&environment.tracked_paths, &relative),
                    path,
                };
                assert(image_change(environment@, all@[i as int]@) == Some(change@));
                found.push(change);
                assert(views(found@) =~= before.push(change@));
            }
        }
        i += 1;
    }
    assert(every.take(all.len() as int) =~= every);
    let ghost unsorted = views(found@);
    proof {
        assert(ranks(found@) =~= image_ranks(unsorted)) by {
            assert forall|j: int| 0 <= j < found@.len() implies #[trigger] ranks(found@)[j]
                == image_ranks(unsorted)[j] by {
                assert(unsorted[j] == found@[j]@);
            }
        }
    }
    Ok(sort_shown(found))
}

/// The arguments that make the container of an environment.
pub open spec fn creation(
    container: Seq<char>,
    label: Seq<char>,
    image: Seq<char>,
) -> Seq<Seq<char>> {
    seq![
        "create"@,
        "--name"@,
        container,
        "--label"@,
        label,
        "--network"@,
        "bridge"@,
        "--cap-add"@,
        "NET_ADMIN"@,
        "--cap-add"@,
        "NET_RAW"@,
        "--entrypoint"@,
        "/bin/sh"@,
        image,
        "-c"@,
        "trap 'exit 0' TERM INT; while :; do sleep 3600; done"@,
    ]
}

pub fn create_arguments(environment: &Environment, image: &str, container: &str) -> (r: Vec<String>)
    ensures
        texts(r@) == creation(
            container@,
            "dev.netsandbox.environment="@ + hyphenated(environment@.id),
            image@,
        ),
{
    let label = owner_label(environment);
    let r = arguments(
        vec![
            "create", "--name", container, "--label", label.as_str(), "--network", "bridge",
            "--cap-add", "NET_ADMIN", "--cap-add", "NET_RAW", "--entrypoint", "/bin/sh", image,
            "-c", "trap 'exit 0' TERM INT; while :; do sleep 3600; done",
        ],
    );
    assert(texts(r@) =~= creation(container@, label@, image@));
    r
}

/// What is done to bring a new container up.
pub enum StartStep {
    /// Start the container where it does not run.
    EnsureRunning,
    /// Ask the guest for its system, and refuse any but Linux.
    RequireLinux,
    /// Run a command in the guest.
    Exec { argv: Vec<String> },
    /// Copy the program into the guest.
    CopyIn { destination: FsPath },
}

#[verifier::ext_equal]
pub enum StartStepView {
    EnsureRunning,
    RequireLinux,
    Exec { argv: Seq<Seq<char>> },
    CopyIn { destination: Seq<char> },
}

impl View for StartStep {
    type V = StartStepView;

    open spec fn view(&self) -> StartStepView {
        match self {
            StartStep::EnsureRunning => StartStepView::EnsureRunning,
            StartStep::RequireLinux => StartStepView::RequireLinux,
            StartStep::Exec { argv } => StartStepView::Exec { argv: texts(argv@) },
            StartStep::CopyIn { destination } => StartStepView::CopyIn {
                destination: destination@,
            },
        }
    }
}

/// The steps that bring a new container up: it must run Linux, and the program must run in it.
pub open spec fn start_steps_of() -> Seq<StartStepView> {
    seq![
        StartStepView::EnsureRunning,
        StartStepView::RequireLinux,
        StartStepView::Exec { argv: seq!["/bin/mkdir"@, "-p"@, "/tmp/netsandbox-bootstrap"@] },
        StartStepView::CopyIn { destination: "/tmp/netsandbox-bootstrap/netsandbox"@ },
        StartStepView::Exec {
            argv: seq!["/bin/chmod"@, "755"@, "/tmp/netsandbox-bootstrap/netsandbox"@],
        },
        StartStepView::Exec {
            argv: seq!["/tmp/netsandbox-bootstrap/netsandbox"@, "--version"@],
        },
        StartStepView::Exec { argv: seq!["/bin/rm"@, "-rf"@, "/tmp/netsandbox-bootstrap"@] },
    ]
}

fn exec_step(argv: Vec<&str>) -> (r: StartStep)
    ensures
        r@ == (StartStepView::Exec { argv: strs(argv@) }),
{
    StartStep::Exec { argv: arguments(argv) }
}

/// The steps that bring a new container up.
pub fn start_container() -> (r: Vec<StartStep>)
    ensures
        views(r@) == start_steps_of(),
{
    let mkdir = exec_step(vec!["/bin/mkdir", "-p", "/tmp/netsandbox-bootstrap"]);
    let chmod = exec_step(vec!["/bin/chmod", "755", "/tmp/netsandbox-bootstrap/netsandbox"]);
    let version = exec_step(vec!["/tmp/netsandbox-bootstrap/netsandbox", "--version"]);
    let rm = exec_step(vec!["/bin/rm", "-rf", "/tmp/netsandbox-bootstrap"]);
    assert(mkdir@ == start_steps_of()[2]);
    assert(chmod@ == start_steps_of()[4]);
    assert(version@ == start_steps_of()[5]);
    assert(rm@ == start_steps_of()[6]);
    let r = vec![
        StartStep::EnsureRunning,
        StartStep::RequireLinux,
        mkdir,
        StartStep::CopyIn { destination: FsPath::new("/tmp/netsandbox-bootstrap/netsandbox") },
        chmod,
        version,
        rm,
    ];
    assert(views(r@) =~= start_steps_of());
    r
}

/// The shape of the script that makes a container: it is created, the steps that bring it up
/// follow, and where one of those fails it is removed again.
pub fn start_shape() -> (r: ScriptShape)
    ensures
        r == (ScriptShape {
            opening: 1,
            body: start_steps_of().len() as usize,
            ending: 1,
            always_tidy: false,
        }),
{
    assert(start_steps_of().len() == 7);
    ScriptShape { opening: 1, body: 7, ending: 1, always_tidy: false }
}

/// Refuses an image whose system is not Linux.
pub fn require_linux(image: &str, system: &str) -> (r: Result<(), String>)
    ensures
        r is Ok <==> trimmed(system@) == "Linux"@,
        r matches Err(e) ==> e@ == "Docker image '"@ + image@ + "' is not a Linux image"@,
{
    if same_text(trim(system).as_str(), "Linux") {
        Ok(())
    } else {
        Err("Docker image '".to_owned().concat(image).concat("' is not a Linux image"))
    }
}

/// Whether a container has to be started, by what its state was read as.
pub fn needs_start(output: &CommandOutput) -> (r: Result<bool, String>)
    ensures
        match r {
            Ok(start) => output.succeeded() && start == (trimmed(output.output_text()) != "true"@),
            Err(e) => !output.succeeded() && e@ == failure_or_status(
                "inspect Linux image container state"@,
                *output,
            ),
        },
{
    match ensure_success_or_status(output, "inspect Linux image container state") {
        Err(e) => Err(e),
        Ok(()) => Ok(!same_text(output.trimmed_stdout().as_str(), "true")),
    }
}

/// Refuses to give an environment a container that it cannot have.
pub fn check_create(environment: &Environment, image: &str) -> (r: Result<String, String>)
    ensures
        match r {
            Ok(container) => !in_container(environment@) && is_image_reference(image@)
                && container@ == container_of(environment@.id),
            Err(e) => if in_container(environment@) {
                e@ == "environment '"@ + environment@.name
                    + "' already has a Linux image backend"@
            } else {
                !is_image_reference(image@) && e@ == "invalid Docker image reference"@
            },
        },
{
    if has_container(environment) {
        return Err(
            "environment '".to_owned().concat(environment.name.as_str()).concat(
                "' already has a Linux image backend",
            ),
        );
    }
    match validate_image_reference(image) {
        Err(e) => Err(e),
        Ok(()) => Ok(expected_container_name(environment)),
    }
}

/// The records of an environment that has been given a container.
pub open spec fn with_container(
    environment: EnvironmentView,
    baseline: Seq<char>,
    image: Seq<char>,
    guest_binary: Seq<char>,
    entrypoint: Seq<char>,
    command: Seq<char>,
) -> EnvironmentView {
    EnvironmentView {
        base_root: baseline,
        metadata: environment.metadata.insert(
            CONTAINER_KEY@,
            container_of(environment.id),
        ).insert(IMAGE_KEY@, image).insert(GUEST_BINARY_KEY@, guest_binary).insert(
            MANAGED_KEY@,
            "true"@,
        ).insert(SOURCE_ENTRYPOINT_KEY@, entrypoint).insert(SOURCE_CMD_KEY@, command),
        ..environment
    }
}

/// Records that an environment has been given a container. Its base is then the directory that
/// holds the files of the pristine image.
pub fn create(
    environment: &mut Environment,
    baseline: &FsPath,
    image: &str,
    guest_binary: &str,
    entrypoint: &str,
    command: &str,
)
    ensures
        final(environment)@ == with_container(
            old(environment)@,
            baseline@,
            image@,
            guest_binary@,
            entrypoint@,
            command@,
        ),
{
    let container = expected_container_name(environment);
    environment.base_root = baseline.copy();
    record(environment, CONTAINER_KEY, container.as_str());
    record(environment, IMAGE_KEY, image);
    record(environment, GUEST_BINARY_KEY, guest_binary);
    record(environment, MANAGED_KEY, "true");
    record(environment, SOURCE_ENTRYPOINT_KEY, entrypoint);
    record(environment, SOURCE_CMD_KEY, command);
}

/// A container that an operation may be run on carries the name of its environment.
pub proof fn law_only_own_containers_are_touched(environment: EnvironmentView)
    ensures
        named_container(environment) matches Ok(container) ==> in_container(environment)
            && container == container_of(environment.id),
{
}

/// What is recorded of a new container makes it the one that operations are run on and that goes
/// with the environment.
pub proof fn law_new_containers_are_owned(
    environment: EnvironmentView,
    baseline: Seq<char>,
    image: Seq<char>,
    guest_binary: Seq<char>,
    entrypoint: Seq<char>,
    command: Seq<char>,
)
    ensures
        ({
            let after = with_container(
                environment,
                baseline,
                image,
                guest_binary,
                entrypoint,
                command,
            );
            &&& in_container(after)
            &&& named_container(after) == Ok::<Seq<char>, Seq<char>>(container_of(environment.id))
            &&& managed_container(after) == Ok::<Option<Seq<char>>, Seq<char>>(
                Some(container_of(environment.id)),
            )
            &&& recorded(after, IMAGE_KEY@) == Some(image)
            &&& recorded(after, GUEST_BINARY_KEY@) == Some(guest_binary)
            &&& recorded(after, SOURCE_ENTRYPOINT_KEY@) == Some(entrypoint)
            &&& recorded(after, SOURCE_CMD_KEY@) == Some(command)
        }),
{
    reveal_strlit("docker_linux_container");
    reveal_strlit("docker_linux_image");
    reveal_strlit("docker_linux_guest_binary");
    reveal_strlit("docker_linux_managed");
    reveal_strlit("docker_linux_source_entrypoint");
    reveal_strlit("docker_linux_source_cmd");
    assert(CONTAINER_KEY@.len() == 22);
    assert(IMAGE_KEY@.len() == 18);
    assert(GUEST_BINARY_KEY@.len() == 25);
    assert(MANAGED_KEY@.len() == 20);
    assert(SOURCE_ENTRYPOINT_KEY@.len() == 30);
    assert(SOURCE_CMD_KEY@.len() == 23);
}

/// Refuses a container that is there already.
pub fn check_new_container(container: &str, exists: bool) -> (r: Result<(), String>)
    ensures
        r is Ok <==> !exists,
        r matches Err(e) ==> e@ == "Docker container '"@ + container@ + "' already exists"@,
{
    if exists {
        Err("Docker container '".to_owned().concat(container).concat("' already exists"))
    } else {
        Ok(())
    }
}

/// Paths in the order of their parts.
pub open spec fn sorted_paths(list: Seq<Seq<char>>) -> Seq<Seq<char>> {
    sorted_by::<FsPath, Seq<char>>(Seq::new(list.len(), |i: int| parts(list[i])), list)
}

pub(crate) fn sort_paths(list: Vec<FsPath>) -> (r: Vec<FsPath>)
    ensures
        path_texts(r@) == sorted_paths(path_texts(list@)),
{
    let ghost input = list@;
    let r = sort_shown(list);
    proof {
        let shown = path_texts(input);
        assert(views(input) =~= shown);
        assert(ranks(input) =~= Seq::new(shown.len(), |i: int| parts(shown[i])));
        assert(path_texts(r@) =~= views(r@));
    }
    r
}

/// Refuses to record a path that was changed before it was exported.
pub fn check_capture(changes: &Vec<LinuxImageChange>, relative: &FsPath) -> (r: Result<(), String>)
    ensures
        r is Ok <==> forall|i: int|
            0 <= i < changes@.len() ==> !same_parts(
                (#[trigger] changes@[i])@.path,
                joined("/"@, relative@),
            ),
        r matches Err(e) ==> e@ == joined("/"@, relative@)
            + " was already changed in the Linux image; reset the environment, track it, then make the change"@,
{
    let guest = FsPath::new("/").join(relative.text.as_str());
    let mut i: usize = 0;
    while i < changes.len()
        invariant
            i <= changes.len(),
            guest@ == joined("/"@, relative@),
            forall|k: int|
                0 <= k < i ==> !same_parts((#[trigger] changes@[k])@.path, guest@),
        decreases changes.len() - i,
    {
        if changes[i].path.same(&guest) {
            return Err(
                guest.text.concat(
                    " was already changed in the Linux image; reset the environment, track it, then make the change",
                ),
            );
        }
        i += 1;
    }
    Ok(())
}

/// The environment with a path exported from now on, and what the pristine image holds there.
pub open spec fn captured(
    environment: EnvironmentView,
    relative: Seq<char>,
    origin: OriginView,
) -> EnvironmentView {
    EnvironmentView {
        origins: environment.origins.insert(parts(relative), origin),
        origin_paths: with_spelling(environment.origin_paths, relative),
        tracked_paths: if lists_path(environment.tracked_paths, relative) {
            environment.tracked_paths
        } else {
            sorted_paths(environment.tracked_paths.push(relative))
        },
        deleted_paths: without_path(environment.deleted_paths, relative),
        ..environment
    }
}

/// Records a path that is exported from now on.
pub fn capture_baseline_path(environment: &mut Environment, relative: &FsPath, origin: Origin)
    ensures
        final(environment)@ == captured(old(environment)@, relative@, origin@),
{
    proof {
        lemma_spelled(environment.origins.keys());
    }
    environment.origins.insert(relative.copy(), origin);
    if !contains_path(&environment.tracked_paths, relative) {
        let mut list: Vec<FsPath> = Vec::new();
        std::mem::swap(&mut list, &mut environment.tracked_paths);
        let ghost before = path_texts(list@);
        list.push(relative.copy());
        assert(path_texts(list@) =~= before.push(relative@));
        environment.tracked_paths = sort_paths(list);
    }
    drop_path(&mut environment.deleted_paths, relative);
}

/// The image that a container is made from.
pub fn recorded_image(environment: &Environment) -> (r: Result<String, String>)
    ensures
        match r {
            Ok(image) => recorded(environment@, IMAGE_KEY@) == Some(image@),
            Err(e) => recorded(environment@, IMAGE_KEY@) is None && e@
                == "Linux image environment has no recorded image"@,
        },
{
    match metadata(environment, IMAGE_KEY) {
        Some(image) => Ok(image),
        None => Err("Linux image environment has no recorded image".to_owned()),
    }
}

/// The program that is brought into the guest.
pub fn recorded_guest_binary(environment: &Environment) -> (r: Result<FsPath, String>)
    ensures
        match r {
            Ok(path) => recorded(environment@, GUEST_BINARY_KEY@) == Some(path@),
            Err(e) => recorded(environment@, GUEST_BINARY_KEY@) is None && e@
                == "Linux image environment has no guest binary"@,
        },
{
    match metadata(environment, GUEST_BINARY_KEY) {
        Some(text) => Ok(FsPath { text }),
        None => Err("Linux image environment has no guest binary".to_owned()),
    }
}

/// Refuses a guest program that is no file any more.
pub fn guest_binary(path: &FsPath, is_file: bool) -> (r: Result<FsPath, String>)
    ensures
        match r {
            Ok(p) => is_file && p@ == path@,
            Err(e) => !is_file && e@ == "Linux guest binary "@ + path@ + " is unavailable"@,
        },
{
    if is_file {
        Ok(path.copy())
    } else {
        Err("Linux guest binary ".to_owned().concat(path.text.as_str()).concat(" is unavailable"))
    }
}

/// What is reported when a container that was removed for a reset cannot be made again.
pub fn recreate_failed(error: &str) -> (r: String)
    ensures
        r@ == "the previous Linux container was deleted, but recreating it failed: "@ + error@,
{
    "the previous Linux container was deleted, but recreating it failed: ".to_owned().concat(error)
}

/// The container that goes with an environment, if the environment owns one.
pub open spec fn managed_container(environment: EnvironmentView) -> Result<
    Option<Seq<char>>,
    Seq<char>,
> {
    if recorded(environment, MANAGED_KEY@) != Some("true"@) {
        Ok(None)
    } else {
        match recorded(environment, CONTAINER_KEY@) {
            Some(container) => Ok(Some(container)),
            None => Err("environment has no Linux image runtime"@),
        }
    }
}

/// The container that has to be removed with an environment, if it is still there. Its owner is
/// checked before that.
pub fn delete_managed(environment: &Environment) -> (r: Result<Option<String>, String>)
    ensures
        match r {
            Ok(container) => managed_container(environment@) == Ok::<Option<Seq<char>>, Seq<char>>(
                opt_text(container),
            ),
            Err(e) => managed_container(environment@) == Err::<Option<Seq<char>>, Seq<char>>(e@),
        },
{
    if !crate::text::option_is(&metadata(environment, MANAGED_KEY), "true") {
        return Ok(None);
    }
    match container_name(environment) {
        Ok(name) => Ok(Some(name)),
        Err(e) => Err(e),
    }
}

/// The arguments that run a command in the container of an environment.
pub open spec fn run_arguments_of(
    name: Seq<char>,
    directory: Seq<char>,
    container: Seq<char>,
    interactive: bool,
    terminal: bool,
    command: Seq<Seq<char>>,
) -> Seq<Seq<char>> {
    seq!["exec"@] + (if interactive {
        if terminal {
            seq!["-i"@, "-t"@]
        } else {
            seq!["-i"@]
        }
    } else {
        Seq::empty()
    }) + seq![
        "--user"@,
        "0"@,
        "--env"@,
        "NETSANDBOX_ACTIVE="@ + name,
        "--env"@,
        "PS1=[nsb:"@ + name + "] # "@,
        "--env"@,
        "NETSANDBOX_CONTROL="@ + directory,
        "--env"@,
        "NETSANDBOX_BIN="@ + guest_program(directory),
        "--env"@,
        "PATH="@ + directory + ":/usr/local/sbin:/usr/local/bin:/usr/sbin:/usr/bin:/sbin:/bin"@,
        container,
    ] + command
}

/// The arguments that run a command in the container of an environment.
#[verifier::rlimit(60)]
pub fn run_arguments(
    environment: &Environment,
    container: &str,
    interactive: bool,
    terminal: bool,
    command: &Vec<String>,
) -> (r: Vec<String>)
    ensures
        texts(r@) == run_arguments_of(
            environment@.name,
            guest_directory_of(environment@.id),
            container@,
            interactive,
            terminal,
            texts(command@),
        ),
{
    let directory = guest_directory(environment);
    let name = environment.name.as_str();
    let mut r = if !interactive {
        arguments(vec!["exec"])
    } else if terminal {
        arguments(vec!["exec", "-i", "-t"])
    } else {
        arguments(vec!["exec", "-i"])
    };
    let ghost head = seq!["exec"@] + (if interactive {
        if terminal {
            seq!["-i"@, "-t"@]
        } else {
            seq!["-i"@]
        }
    } else {
        Seq::empty()
    });
    assert(texts(r@) =~= head);
    let active = "NETSANDBOX_ACTIVE=".to_owned().concat(name);
    let prompt = "PS1=[nsb:".to_owned().concat(name).concat("] # ");
    let control = "NETSANDBOX_CONTROL=".to_owned().concat(directory.text.as_str());
    let program = "NETSANDBOX_BIN=".to_owned().concat(directory.join("netsandbox").text.as_str());
    let path = "PATH=".to_owned().concat(directory.text.as_str()).concat(
        ":/usr/local/sbin:/usr/local/bin:/usr/sbin:/usr/bin:/sbin:/bin",
    );
    let middle = arguments(
        vec![
            "--user", "0", "--env", active.as_str(), "--env", prompt.as_str(), "--env",
            control.as_str(), "--env", program.as_str(), "--env", path.as_str(), container,
        ],
    );
    let ghost body = seq![
        "--user"@,
        "0"@,
        "--env"@,
        active@,
        "--env"@,
        prompt@,
        "--env"@,
        control@,
        "--env"@,
        program@,
        "--env"@,
        path@,
        container@,
    ];
    assert(texts(middle@) =~= body);
    append_texts(&mut r, &middle);
    append_texts(&mut r, command);
    r
}

/// What a search for the engine came to: where it is, and what it said of its system; or why there
/// is none.
pub open spec fn engine_detail(found: Result<(FsPath, CommandOutput), String>) -> Result<
    Seq<char>,
    Seq<char>,
> {
    match found {
        Err(e) => Err(e@),
        Ok((path, output)) => if !output.succeeded() {
            Err(failure_or_status("inspect Docker engine"@, output))
        } else if !has_prefix(trimmed(output.output_text()), "linux/"@) {
            Err("Docker engine is not running a Linux kernel"@)
        } else {
            Ok(
                "Docker available at "@ + path@ + " ("@ + trimmed(output.output_text()) + ")"@,
            )
        },
    }
}

/// Whether containers can be run here.
pub fn doctor_check(found: &Result<(FsPath, CommandOutput), String>) -> (r: DoctorCheck)
    ensures
        r@ == match engine_detail(*found) {
            Ok(detail) => check_of("Linux image runner"@, true, false, detail),
            Err(e) => check_of(
                "Linux image runner"@,
                false,
                false,
                "optional lightweight backend unavailable: "@ + e,
            ),
        },
{
    let detail = match found {
        Err(e) => Err(e.clone()),
        Ok((path, output)) => match ensure_success_or_status(output, "inspect Docker engine") {
            Err(e) => Err(e),
            Ok(()) => {
                let platform = output.trimmed_stdout();
                if !starts_with(platform.as_str(), "linux/") {
                    Err("Docker engine is not running a Linux kernel".to_owned())
                } else {
                    Ok(
                        "Docker available at ".to_owned().concat(path.text.as_str()).concat(
                            " (",
                        ).concat(platform.as_str()).concat(")"),
                    )
                }
            },
        },
    };
    match detail {
        Ok(text) => check("Linux image runner", true, false, text.as_str()),
        Err(e) => check(
            "Linux image runner",
            false,
            false,
            "optional lightweight backend unavailable: ".to_owned().concat(e.as_str()).as_str(),
        ),
    }
}

/// The name of the guest program for an architecture.
pub open spec fn guest_name(architecture: Seq<char>) -> Seq<char> {
    if architecture == "aarch64"@ {
        "netsandbox-linux-arm64"@
    } else if architecture == "x86_64"@ {
        "netsandbox-linux-amd64"@
    } else {
        "netsandbox-linux"@
    }
}

/// The names under which the guest program is looked for beside the program of the host, in order.
pub fn guest_names(architecture: &str) -> (r: Vec<String>)
    ensures
        texts(r@) == seq!["netsandbox-linux-guest"@, guest_name(architecture@)],
{
    let name = if same_text(architecture, "aarch64") {
        "netsandbox-linux-arm64"
    } else if same_text(architecture, "x86_64") {
        "netsandbox-linux-amd64"
    } else {
        "netsandbox-linux"
    };
    let r = arguments(vec!["netsandbox-linux-guest", name]);
    assert(texts(r@) =~= seq!["netsandbox-linux-guest"@, guest_name(architecture@)]);
    r
}

/// The program that is brought into containers.
pub enum GuestProgram {
    /// A file that is there.
    Found { path: FsPath },
    /// The helper that this program carries with it, to be put at a path.
    Embedded { path: FsPath },
}

#[verifier::ext_equal]
pub enum GuestProgramView {
    Found { path: Seq<char> },
    Embedded { path: Seq<char> },
}

impl View for GuestProgram {
    type V = GuestProgramView;

    open spec fn view(&self) -> GuestProgramView {
        match self {
            GuestProgram::Found { path } => GuestProgramView::Found { path: path@ },
            GuestProgram::Embedded { path } => GuestProgramView::Embedded { path: path@ },
        }
    }
}

/// Where the guest program is. A place that was configured is the only one that counts; then come
/// the places beside the program of the host, and at last the helper that this program carries
/// with it. `embedded` says where that goes; there is none in a program that carries no helper.
pub open spec fn guest_program_found(
    configured: Option<Place>,
    executable: Seq<char>,
    places: Seq<Place>,
    embedded: Option<Seq<char>>,
) -> Result<GuestProgramView, Seq<char>> {
    match configured {
        Some(place) => if place.is_file {
            Ok(GuestProgramView::Found { path: place.path@ })
        } else {
            Err("NETSANDBOX_LINUX_GUEST_BIN points to unavailable file "@ + place.path@)
        },
        None => match first_file(places) {
            Some(path) => Ok(GuestProgramView::Found { path }),
            None => match embedded {
                Some(path) => Ok(GuestProgramView::Embedded { path }),
                None => Err(
                    "this build has no embedded Linux guest helper and none was found beside "@
                        + executable
                        + "; install 'netsandbox-linux-guest' there or pass --guest-binary"@,
                ),
            },
        },
    }
}

/// The path of an optional place.
pub open spec fn opt_path(path: Option<FsPath>) -> Option<Seq<char>> {
    match path {
        Some(path) => Some(path@),
        None => None,
    }
}

/// Finds the guest program.
pub fn discover_guest_binary(
    configured: &Option<Place>,
    executable: &FsPath,
    places: &Vec<Place>,
    embedded: &Option<FsPath>,
) -> (r: Result<GuestProgram, String>)
    ensures
        match r {
            Ok(program) => guest_program_found(
                *configured,
                executable@,
                places@,
                opt_path(*embedded),
            ) == Ok::<GuestProgramView, Seq<char>>(program@),
            Err(e) => guest_program_found(
                *configured,
                executable@,
                places@,
                opt_path(*embedded),
            ) == Err::<GuestProgramView, Seq<char>>(e@),
        },
{
    if let Some(place) = configured {
        return if place.is_file {
            Ok(GuestProgram::Found { path: place.path.copy() })
        } else {
            Err(
                "NETSANDBOX_LINUX_GUEST_BIN points to unavailable file ".to_owned().concat(
                    place.path.text.as_str(),
                ),
            )
        };
    }
    if let Some(path) = find_file(places) {
        return Ok(GuestProgram::Found { path });
    }
    match embedded {
        Some(path) => Ok(GuestProgram::Embedded { path: path.copy() }),
        None => {
            let missing =
                "this build has no embedded Linux guest helper and none was found beside ";
            Err(
                missing.to_owned().concat(executable.text.as_str()).concat(
                    "; install 'netsandbox-linux-guest' there or pass --guest-binary",
                ),
            )
        },
    }
}

/// What has to be done to put the embedded helper in place.
pub enum HelperStep {
    MakeDirectory { path: FsPath },
    /// Writes the helper.
    Write { path: FsPath },
    SetMode { path: FsPath, mode: u32 },
    Rename { from: FsPath, to: FsPath },
}

#[verifier::ext_equal]
pub enum HelperStepView {
    MakeDirectory { path: Seq<char> },
    Write { path: Seq<char> },
    SetMode { path: Seq<char>, mode: u32 },
    Rename { from: Seq<char>, to: Seq<char> },
}

impl View for HelperStep {
    type V = HelperStepView;

    open spec fn view(&self) -> HelperStepView {
        match self {
            HelperStep::MakeDirectory { path } => HelperStepView::MakeDirectory { path: path@ },
            HelperStep::Write { path } => HelperStepView::Write { path: path@ },
            HelperStep::SetMode { path, mode } => HelperStepView::SetMode {
                path: path@,
                mode: *mode,
            },
            HelperStep::Rename { from, to } => HelperStepView::Rename { from: from@, to: to@ },
        }
    }
}

/// How the embedded helper is put in place. Where it is there already, nothing is done; otherwise
/// it is written beside its place and moved there, so that it is never seen half written.
pub open spec fn helper_steps(
    directory: Seq<char>,
    process: nat,
    existing: Option<Seq<u8>>,
    helper: Seq<u8>,
) -> Seq<HelperStepView> {
    let scratch = joined(directory, ".netsandbox-linux-guest-"@ + decimal(process));
    if existing == Some(helper) {
        Seq::empty()
    } else {
        seq![
            HelperStepView::MakeDirectory { path: directory },
            HelperStepView::Write { path: scratch },
            HelperStepView::SetMode { path: scratch, mode: 0o700u32 },
            HelperStepView::Rename {
                from: scratch,
                to: joined(directory, "netsandbox-linux-guest"@),
            },
        ]
    }
}

/// How the embedded helper is put in place in a directory. `existing` is what the file holds that
/// is there.
pub fn extract_embedded_guest(
    directory: &FsPath,
    process: u32,
    existing: &Option<Vec<u8>>,
    helper: &Vec<u8>,
) -> (r: Vec<HelperStep>)
    ensures
        views(r@) == helper_steps(
            directory@,
            process as nat,
            match *existing {
                Some(bytes) => Some(bytes@),
                None => None,
            },
            helper@,
        ),
{
    let current = match existing {
        Some(bytes) => same_bytes(bytes, helper),
        None => false,
    };
    if current {
        let r: Vec<HelperStep> = Vec::new();
        assert(views(r@) =~= Seq::empty());
        return r;
    }
    let scratch = directory.join(
        ".netsandbox-linux-guest-".to_owned().concat(number_text(process as u64).as_str()).as_str(),
    );
    let r = vec![
        HelperStep::MakeDirectory { path: directory.copy() },
        HelperStep::Write { path: scratch.copy() },
        HelperStep::SetMode { path: scratch.copy(), mode: 0o700 },
        HelperStep::Rename { from: scratch, to: directory.join("netsandbox-linux-guest") },
    ];
    assert(views(r@) =~= helper_steps(
        directory@,
        process as nat,
        match *existing {
            Some(bytes) => Some(bytes@),
            None => None,
        },
        helper@,
    ));
    r
}

fn same_bytes(a: &Vec<u8>, b: &Vec<u8>) -> (r: bool)
    ensures
        r == (a@ == b@),
{
    if a.len() != b.len() {
        return false;
    }
    let mut i: usize = 0;
    while i < a.len()
        invariant
            i <= a.len(),
            a.len() == b.len(),
            forall|k: int| 0 <= k < i ==> #[trigger] a@[k] == b@[k],
        decreases a.len() - i,
    {
        if a[i] != b[i] {
            assert(a@[i as int] != b@[i as int]);
            return false;
        }
        i += 1;
    }
    assert(a@ =~= b@);
    true
}

} // verus!
