//! What the clients of containers and virtual machines are called with, and what they report.
use vstd::prelude::*;

use crate::command::{
    ensure_success, ensure_success_or_status, failure_message, failure_or_status, CommandOutput,
};
use crate::encoding::{json_document, lay_out_json};
use crate::identity::{hex_text, simple_text, EnvironmentId};
use crate::path::FsPath;
use crate::platform::guest::{switch, test_switch, FileCheck, GuestKind};
use crate::text::{append_texts, arguments, decimal, number_text, texts};

verus! {

/// What the Docker client is asked for.
pub enum DockerCall {
    /// What the engine runs on.
    Version,
    /// The environment that a container is labelled with.
    Owner { container: String },
    /// All that is known of a container.
    Inspect { container: String },
    /// Whether a container runs.
    State { container: String },
    Start { container: String },
    Remove { container: String },
    /// What has changed in a container.
    Changes { container: String },
    /// The system of a container.
    System { container: String },
    /// A question about a file of a container.
    Test { container: String, check: FileCheck, path: FsPath },
    /// The permissions of a file of a container.
    Mode { container: String, path: FsPath },
    /// Brings a file of the host into a container.
    CopyIn { container: String, source: FsPath, path: FsPath },
    /// Brings a file of a container to the host.
    CopyOut { container: String, path: FsPath, target: FsPath },
    LookUpImage { image: String },
    /// What an image runs.
    ImageProcess { image: String },
    ImageId { image: String },
    RemoveImage { image: String },
    Commit { container: String, image: String },
    /// Builds an image from a file that is handed over as input, in a directory.
    Build { image: String, directory: FsPath },
    /// Runs a command.
    Run { container: String, argv: Vec<String> },
}

#[verifier::ext_equal]
pub enum DockerCallView {
    Version,
    Owner { container: Seq<char> },
    Inspect { container: Seq<char> },
    State { container: Seq<char> },
    Start { container: Seq<char> },
    Remove { container: Seq<char> },
    Changes { container: Seq<char> },
    System { container: Seq<char> },
    Test { container: Seq<char>, check: FileCheck, path: Seq<char> },
    Mode { container: Seq<char>, path: Seq<char> },
    CopyIn { container: Seq<char>, source: Seq<char>, path: Seq<char> },
    CopyOut { container: Seq<char>, path: Seq<char>, target: Seq<char> },
    LookUpImage { image: Seq<char> },
    ImageProcess { image: Seq<char> },
    ImageId { image: Seq<char> },
    RemoveImage { image: Seq<char> },
    Commit { container: Seq<char>, image: Seq<char> },
    Build { image: Seq<char>, directory: Seq<char> },
    Run { container: Seq<char>, argv: Seq<Seq<char>> },
}

impl View for DockerCall {
    type V = DockerCallView;

    open spec fn view(&self) -> DockerCallView {
        match self {
            DockerCall::Version => DockerCallView::Version,
            DockerCall::Owner { container } => DockerCallView::Owner {
                container: container@,
            },
            DockerCall::Inspect { container } => DockerCallView::Inspect {
                container: container@,
            },
            DockerCall::State { container } => DockerCallView::State {
                container: container@,
            },
            DockerCall::Start { container } => DockerCallView::Start {
                container: container@,
            },
            DockerCall::Remove { container } => DockerCallView::Remove {
                container: container@,
            },
            DockerCall::Changes { container } => DockerCallView::Changes {
                container: container@,
            },
            DockerCall::System { container } => DockerCallView::System {
                container: container@,
            },
            DockerCall::Test { container, check, path } => DockerCallView::Test {
                container: container@,
                check: *check,
                path: path@,
            },
            DockerCall::Mode { container, path } => DockerCallView::Mode {
                container: container@,
                path: path@,
            },
            DockerCall::CopyIn { container, source, path } => DockerCallView::CopyIn {
                container: container@,
                source: source@,
                path: path@,
            },
            DockerCall::CopyOut { container, path, target } => DockerCallView::CopyOut {
                container: container@,
                path: path@,
                target: target@,
            },
            DockerCall::LookUpImage { image } => DockerCallView::LookUpImage {
                image: image@,
            },
            DockerCall::ImageProcess { image } => DockerCallView::ImageProcess {
                image: image@,
            },
            DockerCall::ImageId { image } => DockerCallView::ImageId {
                image: image@,
            },
            DockerCall::RemoveImage { image } => DockerCallView::RemoveImage {
                image: image@,
            },
            DockerCall::Commit { container, image } => DockerCallView::Commit {
                container: container@,
                image: image@,
            },
            DockerCall::Build { image, directory } => DockerCallView::Build {
                image: image@,
                directory: directory@,
            },
            DockerCall::Run { container, argv } => DockerCallView::Run {
                container: container@,
                argv: texts(argv@),
            },
        }
    }
}

/// The arguments of the Docker client for a call.
pub open spec fn docker_arguments_of(call: DockerCallView) -> Seq<Seq<char>> {
    match call {
        DockerCallView::Version => seq![
            "version"@,
            "--format"@,
            "{{.Server.Os}}/{{.Server.Arch}}"@,
        ],
        DockerCallView::Owner { container } => seq![
            "inspect"@,
            "--format"@,
            "{{ index .Config.Labels \"dev.netsandbox.environment\" }}"@,
            container,
        ],
        DockerCallView::Inspect { container } => seq![
            "inspect"@,
            container,
        ],
        DockerCallView::State { container } => seq![
            "inspect"@,
            "--format"@,
            "{{.State.Running}}"@,
            container,
        ],
        DockerCallView::Start { container } => seq![
            "start"@,
            container,
        ],
        DockerCallView::Remove { container } => seq![
            "rm"@,
            "--force"@,
            container,
        ],
        DockerCallView::Changes { container } => seq![
            "diff"@,
            container,
        ],
        DockerCallView::System { container } => seq![
            "exec"@,
            "--user"@,
            "0"@,
            container,
            "uname"@,
            "-s"@,
        ],
        DockerCallView::Test { container, check, path } => seq![
            "exec"@,
            "--user"@,
            "0"@,
            container,
            "/bin/test"@,
            test_switch(check),
            path,
        ],
        DockerCallView::Mode { container, path } => seq![
            "exec"@,
            "--user"@,
            "0"@,
            container,
            "/bin/stat"@,
            "-c"@,
            "%a"@,
            path,
        ],
        DockerCallView::CopyIn { container, source, path } => seq![
            "cp"@,
            source,
            container + ":"@ + path,
        ],
        DockerCallView::CopyOut { container, path, target } => seq![
            "cp"@,
            container + ":"@ + path,
            target,
        ],
        DockerCallView::LookUpImage { image } => seq![
            "image"@,
            "inspect"@,
            image,
        ],
        DockerCallView::ImageProcess { image } => seq![
            "image"@,
            "inspect"@,
            "--format"@,
            "{{json .Config.Entrypoint}}\n{{json .Config.Cmd}}"@,
            image,
        ],
        DockerCallView::ImageId { image } => seq![
            "image"@,
            "inspect"@,
            "--format"@,
            "{{.Id}}"@,
            image,
        ],
        DockerCallView::RemoveImage { image } => seq![
            "image"@,
            "rm"@,
            image,
        ],
        DockerCallView::Commit { container, image } => seq![
            "commit"@,
            container,
            image,
        ],
        DockerCallView::Build { image, directory } => seq![
            "build"@,
            "--tag"@,
            image,
            "--file"@,
            "-"@,
            directory,
        ],
        DockerCallView::Run { container, argv } => seq![
            "exec"@,
            "--user"@,
            "0"@,
            container,
        ] + argv,
    }
}

pub fn docker_arguments(call: &DockerCall) -> (r: Vec<String>)
    ensures
        texts(r@) == docker_arguments_of(call@),
{
    let r = match call {
        DockerCall::Version => arguments(
            vec!["version", "--format", "{{.Server.Os}}/{{.Server.Arch}}"],
        ),
        DockerCall::Owner { container } => arguments(
            vec![
                "inspect",
                "--format",
                "{{ index .Config.Labels \"dev.netsandbox.environment\" }}",
                container.as_str(),
            ],
        ),
        DockerCall::Inspect { container } => arguments(
            vec!["inspect", container.as_str()],
        ),
        DockerCall::State { container } => arguments(
            vec!["inspect", "--format", "{{.State.Running}}", container.as_str()],
        ),
        DockerCall::Start { container } => arguments(
            vec!["start", container.as_str()],
        ),
        DockerCall::Remove { container } => arguments(
            vec!["rm", "--force", container.as_str()],
        ),
        DockerCall::Changes { container } => arguments(
            vec!["diff", container.as_str()],
        ),
        DockerCall::System { container } => arguments(
            vec!["exec", "--user", "0", container.as_str(), "uname", "-s"],
        ),
        DockerCall::Test { container, check, path } => arguments(
            vec![
                "exec",
                "--user",
                "0",
                container.as_str(),
                "/bin/test",
                switch(*check),
                path.text.as_str(),
            ],
        ),
        DockerCall::Mode { container, path } => arguments(
            vec![
                "exec",
                "--user",
                "0",
                container.as_str(),
                "/bin/stat",
                "-c",
                "%a",
                path.text.as_str(),
            ],
        ),
        DockerCall::CopyIn { container, source, path } => {
            let address = container.clone().concat(":").concat(path.text.as_str());
            arguments(vec!["cp", source.text.as_str(), address.as_str()])
        },
        DockerCall::CopyOut { container, path, target } => {
            let address = container.clone().concat(":").concat(path.text.as_str());
            arguments(vec!["cp", address.as_str(), target.text.as_str()])
        },
        DockerCall::LookUpImage { image } => arguments(
            vec!["image", "inspect", image.as_str()],
        ),
        DockerCall::ImageProcess { image } => arguments(
            vec![
                "image",
                "inspect",
                "--format",
                "{{json .Config.Entrypoint}}\n{{json .Config.Cmd}}",
                image.as_str(),
            ],
        ),
        DockerCall::ImageId { image } => arguments(
            vec!["image", "inspect", "--format", "{{.Id}}", image.as_str()],
        ),
        DockerCall::RemoveImage { image } => arguments(
            vec!["image", "rm", image.as_str()],
        ),
        DockerCall::Commit { container, image } => arguments(
            vec!["commit", container.as_str(), image.as_str()],
        ),
        DockerCall::Build { image, directory } => arguments(
            vec!["build", "--tag", image.as_str(), "--file", "-", directory.text.as_str()],
        ),
        DockerCall::Run { container, argv } => {
            let mut r = arguments(vec!["exec", "--user", "0", container.as_str()]);
            append_texts(&mut r, argv);
            r
        },
    };
    assert(texts(r@) =~= docker_arguments_of(call@));
    r
}

/// What the Lima client is asked for.
pub enum VmCall {
    /// All that is known of a virtual machine.
    Status { instance: String },
    /// A question about a file of a virtual machine.
    Test { instance: String, check: FileCheck, path: FsPath },
    /// The permissions of a file of a virtual machine.
    Mode { instance: String, path: FsPath },
    /// Brings a file of the host into a virtual machine.
    CopyIn { instance: String, source: FsPath, path: FsPath },
    /// Brings a file of a virtual machine to the host.
    CopyOut { instance: String, path: FsPath, target: FsPath },
    /// Runs a command.
    Run { instance: String, argv: Vec<String> },
}

#[verifier::ext_equal]
pub enum VmCallView {
    Status { instance: Seq<char> },
    Test { instance: Seq<char>, check: FileCheck, path: Seq<char> },
    Mode { instance: Seq<char>, path: Seq<char> },
    CopyIn { instance: Seq<char>, source: Seq<char>, path: Seq<char> },
    CopyOut { instance: Seq<char>, path: Seq<char>, target: Seq<char> },
    Run { instance: Seq<char>, argv: Seq<Seq<char>> },
}

impl View for VmCall {
    type V = VmCallView;

    open spec fn view(&self) -> VmCallView {
        match self {
            VmCall::Status { instance } => VmCallView::Status {
                instance: instance@,
            },
            VmCall::Test { instance, check, path } => VmCallView::Test {
                instance: instance@,
                check: *check,
                path: path@,
            },
            VmCall::Mode { instance, path } => VmCallView::Mode {
                instance: instance@,
                path: path@,
            },
            VmCall::CopyIn { instance, source, path } => VmCallView::CopyIn {
                instance: instance@,
                source: source@,
                path: path@,
            },
            VmCall::CopyOut { instance, path, target } => VmCallView::CopyOut {
                instance: instance@,
                path: path@,
                target: target@,
            },
            VmCall::Run { instance, argv } => VmCallView::Run {
                instance: instance@,
                argv: texts(argv@),
            },
        }
    }
}

/// The arguments of the Lima client for a call.
pub open spec fn vm_call_arguments_of(call: VmCallView) -> Seq<Seq<char>> {
    match call {
        VmCallView::Status { instance } => seq![
            "list"@,
            instance,
            "--format"@,
            "json"@,
        ],
        VmCallView::Test { instance, check, path } => seq![
            "shell"@,
            "--tty=false"@,
            "--start"@,
            instance,
            "/usr/bin/test"@,
            test_switch(check),
            path,
        ],
        VmCallView::Mode { instance, path } => seq![
            "shell"@,
            "--tty=false"@,
            "--start"@,
            instance,
            "/usr/bin/stat"@,
            "-f"@,
            "%Lp"@,
            path,
        ],
        VmCallView::CopyIn { instance, source, path } => seq![
            "copy"@,
            "--backend=scp"@,
            source,
            instance + ":"@ + path,
        ],
        VmCallView::CopyOut { instance, path, target } => seq![
            "copy"@,
            "--backend=scp"@,
            instance + ":"@ + path,
            target,
        ],
        VmCallView::Run { instance, argv } => seq![
            "shell"@,
            "--tty=false"@,
            "--start"@,
            instance,
        ] + argv,
    }
}

pub fn vm_call_arguments(call: &VmCall) -> (r: Vec<String>)
    ensures
        texts(r@) == vm_call_arguments_of(call@),
{
    let r = match call {
        VmCall::Status { instance } => arguments(
            vec!["list", instance.as_str(), "--format", "json"],
        ),
        VmCall::Test { instance, check, path } => arguments(
            vec![
                "shell",
                "--tty=false",
                "--start",
                instance.as_str(),
                "/usr/bin/test",
                switch(*check),
                path.text.as_str(),
            ],
        ),
        VmCall::Mode { instance, path } => arguments(
            vec![
                "shell",
                "--tty=false",
                "--start",
                instance.as_str(),
                "/usr/bin/stat",
                "-f",
                "%Lp",
                path.text.as_str(),
            ],
        ),
        VmCall::CopyIn { instance, source, path } => {
            let address = instance.clone().concat(":").concat(path.text.as_str());
            arguments(vec!["copy", "--backend=scp", source.text.as_str(), address.as_str()])
        },
        VmCall::CopyOut { instance, path, target } => {
            let address = instance.clone().concat(":").concat(path.text.as_str());
            arguments(vec!["copy", "--backend=scp", address.as_str(), target.text.as_str()])
        },
        VmCall::Run { instance, argv } => {
            let mut r = arguments(vec!["shell", "--tty=false", "--start", instance.as_str()]);
            append_texts(&mut r, argv);
            r
        },
    };
    assert(texts(r@) =~= vm_call_arguments_of(call@));
    r
}

/// What Docker reports of a container, laid out.
pub fn status(output: &CommandOutput) -> (r: Result<String, String>)
    ensures
        match r {
            Ok(report) => output.succeeded() && json_document(output.stdout@) == Ok::<
                Seq<char>,
                Seq<char>,
            >(report@),
            Err(e) => if output.succeeded() {
                json_document(output.stdout@) matches Err(cause) && e@
                    == "parse Docker inspect output: "@ + cause
            } else {
                e@ == failure_or_status("inspect Linux image container"@, *output)
            },
        },
{
    match ensure_success_or_status(output, "inspect Linux image container") {
        Err(e) => return Err(e),
        Ok(()) => {},
    }
    match lay_out_json(&output.stdout) {
        Ok(report) => Ok(report),
        Err(cause) => Err("parse Docker inspect output: ".to_owned().concat(cause.as_str())),
    }
}

/// What Lima reports of a virtual machine, laid out.
pub fn vm_status(output: &CommandOutput) -> (r: Result<String, String>)
    ensures
        match r {
            Ok(report) => output.succeeded() && json_document(output.stdout@) == Ok::<
                Seq<char>,
                Seq<char>,
            >(report@),
            Err(e) => if output.succeeded() {
                json_document(output.stdout@) matches Err(cause) && e@
                    == "parse Lima instance status: "@ + cause
            } else {
                e@ == failure_message("inspect macOS VM"@, output.error_text())
            },
        },
{
    match ensure_success(output, "inspect macOS VM") {
        Err(e) => return Err(e),
        Ok(()) => {},
    }
    match lay_out_json(&output.stdout) {
        Ok(report) => Ok(report),
        Err(cause) => Err("parse Lima instance status: ".to_owned().concat(cause.as_str())),
    }
}

/// The command that removes the directory of the sandbox from its guest.
pub fn clear_command(directory: &FsPath) -> (r: Vec<String>)
    ensures
        texts(r@) == seq!["/bin/rm"@, "-rf"@, directory@],
{
    let r = arguments(vec!["/bin/rm", "-rf", directory.text.as_str()]);
    assert(texts(r@) =~= seq!["/bin/rm"@, "-rf"@, directory@]);
    r
}

/// The name of a file that is exported from a guest, before it is put in place.
pub open spec fn export_name_of(kind: GuestKind, process: nat, id: Seq<u8>) -> Seq<char> {
    match kind {
        GuestKind::Image => ".netsandbox-docker-sync-"@ + decimal(process),
        GuestKind::Machine => ".netsandbox-vm-sync-"@ + decimal(process) + "-"@ + hex_text(id),
    }
}

pub fn export_name(kind: GuestKind, process: u32, id: &EnvironmentId) -> (r: String)
    ensures
        r@ == export_name_of(kind, process as nat, id@),
{
    let number = number_text(process as u64);
    match kind {
        GuestKind::Image => ".netsandbox-docker-sync-".to_owned().concat(number.as_str()),
        GuestKind::Machine => ".netsandbox-vm-sync-".to_owned().concat(number.as_str()).concat(
            "-",
        ).concat(simple_text(id).as_str()),
    }
}

} // verus!
