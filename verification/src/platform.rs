//! What differs from system to system.
use vstd::prelude::*;

use crate::command::{CommandOutput, Host};
use crate::diff::{unsafe_path_message, validate_relative_path};
use crate::model::{
    views, DoctorCheck, DoctorCheckView, Environment, EnvironmentView, RouteCandidate,
    RouteCandidateView, RouteChange, RouteObservation, RouteObservationView,
};
use crate::path::{is_safe_relative, same_parts, FsPath};
use crate::platform::commit::{
    commit_fits, commit_started, uncommit_started, CommitAction, CommitActionView, CommitRun,
    CommitView, UncommitRun, UncommitView,
};
use crate::platform::docker::{
    container_of, guest_program_found, in_container, is_image_reference, managed_container,
    named_container, opt_path, recorded, GuestProgram, GuestProgramView, CONTAINER_KEY,
};
use crate::platform::guest::GuestKind;
use crate::platform::lima::{
    clone_script, deleted_machine, in_machine, is_machine_name, mac_report, machine_of,
    machine_reset, no_machine, MacFindings, VmScript, VmScriptView, VM_INSTANCE_KEY,
};
use crate::platform::linux::{check, check_of, linux_report, LinuxFindings};
use crate::platform::programs::Place;
use crate::platform::route::{
    apply_awaits, apply_next, is_installed, looked_up, rollback_awaits, rollback_next,
    InterfaceLookup, RouteAction, RouteActionView, RouteApply, RouteEvent, RouteRollback,
};
use crate::text::{opt_text, text_or, texts};

pub mod calls;
pub mod commit;
pub mod docker;
pub mod guest;
pub mod guest_course;
pub mod lima;
pub mod linux;
pub mod native;
pub mod programs;
pub mod route;
pub mod route_course;

verus! {

/// What stands against the staged candidates on a system.
pub open spec fn host_route_conflicts(
    host: Host,
    candidates: Seq<RouteCandidateView>,
    live: Seq<Result<RouteObservation, String>>,
) -> Result<Seq<Seq<char>>, Seq<char>> {
    if candidates.len() == 0 {
        Ok(Seq::empty())
    } else if host == Host::MacOs {
        route::candidate_conflicts(candidates, live, candidates.len() as int)
    } else {
        Err("route candidate application is supported only on macOS"@)
    }
}

/// What stands against the staged candidates. `live` holds the live route to each destination.
pub fn route_conflicts(
    host: Host,
    candidates: &Vec<RouteCandidate>,
    live: &Vec<Result<RouteObservation, String>>,
) -> (r: Result<Vec<String>, String>)
    requires
        live.len() == candidates.len(),
    ensures
        match r {
            Ok(list) => host_route_conflicts(host, views(candidates@), live@)
                == Ok::<Seq<Seq<char>>, Seq<char>>(texts(list@)),
            Err(e) => host_route_conflicts(host, views(candidates@), live@)
                == Err::<Seq<Seq<char>>, Seq<char>>(e@),
        },
{
    if candidates.len() == 0 {
        let list: Vec<String> = Vec::new();
        assert(texts(list@) =~= Seq::empty());
        Ok(list)
    } else if host == Host::MacOs {
        route::route_conflicts(candidates, live)
    } else {
        Err("route candidate application is supported only on macOS".to_owned())
    }
}

/// What a sandbox runs its commands in.
#[derive(Debug, Clone, Copy, PartialEq, Eq, Structural)]
pub enum Runtime {
    /// Namespaces of a Linux host.
    Namespaces,
    /// A container from a Linux image.
    Container,
    /// A macOS virtual machine.
    Machine,
    /// A workspace on a macOS host.
    Workspace,
}

/// What the sandbox of an environment runs its commands in.
pub open spec fn runtime_of(host: Host, environment: EnvironmentView) -> Option<Runtime> {
    match host {
        Host::Linux => Some(Runtime::Namespaces),
        Host::MacOs => if in_container(environment) {
            Some(Runtime::Container)
        } else if in_machine(environment) {
            Some(Runtime::Machine)
        } else {
            Some(Runtime::Workspace)
        },
        Host::Other => None,
    }
}

/// Picks what a command of an environment is run in.
pub fn run_in_environment(host: Host, environment: &Environment) -> (r: Result<Runtime, String>)
    ensures
        match r {
            Ok(runtime) => runtime_of(host, environment@) == Some(runtime),
            Err(e) => runtime_of(host, environment@) is None && e@
                == "isolated execution is supported only on Linux and macOS"@,
        },
{
    match host {
        Host::Linux => Ok(Runtime::Namespaces),
        Host::MacOs => if docker::has_container(environment) {
            Ok(Runtime::Container)
        } else if lima::has_vm(environment) {
            Ok(Runtime::Machine)
        } else {
            Ok(Runtime::Workspace)
        },
        Host::Other => Err("isolated execution is supported only on Linux and macOS".to_owned()),
    }
}

/// Whether the sandbox of an environment is a container.
pub open spec fn runs_image(host: Host, environment: EnvironmentView) -> bool {
    host == Host::MacOs && in_container(environment)
}

pub fn is_linux_image_runtime(host: Host, environment: &Environment) -> (r: bool)
    ensures
        r == runs_image(host, environment@),
{
    host == Host::MacOs && docker::has_container(environment)
}

/// Whether the sandbox of an environment is a virtual machine.
pub open spec fn runs_machine(host: Host, environment: EnvironmentView) -> bool {
    host == Host::MacOs && in_machine(environment)
}

pub fn is_macos_vm_runtime(host: Host, environment: &Environment) -> (r: bool)
    ensures
        r == runs_machine(host, environment@),
{
    host == Host::MacOs && lima::has_vm(environment)
}

/// Whether the sandbox of an environment is a guest system.
pub fn has_guest_runtime(host: Host, environment: &Environment) -> (r: bool)
    ensures
        r == (runs_machine(host, environment@) || runs_image(host, environment@)),
{
    host == Host::MacOs && (lima::has_vm(environment) || docker::has_container(environment))
}

/// Whether the commands of an environment can be isolated. `native` says whether a macOS host can
/// constrain them itself.
pub open spec fn is_isolated(host: Host, environment: EnvironmentView, native: bool) -> bool {
    match host {
        Host::Linux => true,
        Host::MacOs => in_machine(environment) || in_container(environment) || native,
        Host::Other => false,
    }
}

pub fn has_isolated_runtime(host: Host, environment: &Environment, native: bool) -> (r: bool)
    ensures
        r == is_isolated(host, environment@, native),
{
    match host {
        Host::Linux => true,
        Host::MacOs => lima::has_vm(environment) || docker::has_container(environment) || native,
        Host::Other => false,
    }
}

/// Whether the changes of an environment can be applied to the host.
pub fn supports_host_apply(host: Host, environment: &Environment) -> (r: bool)
    ensures
        r == !runs_image(host, environment@),
{
    !is_linux_image_runtime(host, environment)
}

/// What the sandbox of an environment is called, where there is more than one choice.
pub open spec fn description_of(
    host: Host,
    environment: EnvironmentView,
    native: bool,
) -> Option<Seq<char>> {
    if host != Host::MacOs {
        None
    } else if in_container(environment) {
        Some("lightweight Linux image"@)
    } else if in_machine(environment) {
        Some("isolated macOS VM"@)
    } else if native {
        Some("native macOS differential"@)
    } else {
        None
    }
}

pub fn runtime_description(host: Host, environment: &Environment, native: bool) -> (r: Option<
    String,
>)
    ensures
        opt_text(r) == description_of(host, environment@, native),
{
    if host != Host::MacOs {
        None
    } else if docker::has_container(environment) {
        Some("lightweight Linux image".to_owned())
    } else if lima::has_vm(environment) {
        Some("isolated macOS VM".to_owned())
    } else if native {
        Some("native macOS differential".to_owned())
    } else {
        None
    }
}

/// The shell of a sandbox: the user's own, but for a container, which need not have it.
pub fn default_shell(host: Host, environment: &Environment, shell: &Option<String>) -> (r: String)
    ensures
        r@ == if runs_image(host, environment@) {
            "/bin/sh"@
        } else {
            text_or(opt_text(*shell), "/bin/sh"@)
        },
{
    if is_linux_image_runtime(host, environment) {
        return "/bin/sh".to_owned();
    }
    match shell {
        Some(s) => s.clone(),
        None => "/bin/sh".to_owned(),
    }
}

/// What was found of the host for a report.
pub enum SystemFindings {
    Linux { linux: LinuxFindings },
    MacOs {
        mac: MacFindings,
        /// Whether the host can constrain commands itself.
        native: bool,
        /// The container engine and what it said of its system, or why there is none.
        engine: Result<(FsPath, CommandOutput), String>,
    },
    /// The name of the system.
    Other { system: String },
}

/// What the report says of the host's own means to constrain commands.
pub open spec fn native_check(native: bool) -> DoctorCheckView {
    check_of(
        "native enter/exec"@,
        native,
        true,
        if native {
            "dependency-free differential workspace with write-constrained command execution"@
        } else {
            "/usr/bin/sandbox-exec is unavailable"@
        },
    )
}

/// What the report says of containers.
pub open spec fn engine_check(engine: Result<(FsPath, CommandOutput), String>) -> DoctorCheckView {
    match docker::engine_detail(engine) {
        Ok(detail) => check_of("legacy Linux image runner"@, true, false, detail),
        Err(e) => check_of(
            "legacy Linux image runner"@,
            false,
            false,
            "optional lightweight backend unavailable: "@ + e,
        ),
    }
}

/// The report on a host.
pub open spec fn report_of(findings: SystemFindings) -> Seq<DoctorCheckView> {
    match findings {
        SystemFindings::Linux { linux } => linux_report(linux),
        SystemFindings::MacOs { mac, native, engine } => seq![native_check(native)] + mac_report(
            mac,
        ).push(engine_check(engine)),
        SystemFindings::Other { system } => seq![
            check_of("Linux kernel"@, false, true, "current platform is "@ + system@),
        ],
    }
}

/// Reports on a host.
pub fn doctor(findings: &SystemFindings) -> (r: Vec<DoctorCheck>)
    requires
        findings matches SystemFindings::Linux { linux } ==> linux.tools@.len() == 7,
    ensures
        views(r@) == report_of(*findings),
{
    match findings {
        SystemFindings::Linux { linux } => linux::doctor(linux),
        SystemFindings::MacOs { mac, native, engine } => {
            let mut checks = lima::doctor(mac);
            let ghost reported = views(checks@);
            let first = check(
                "native enter/exec",
                *native,
                true,
                if *native {
                    "dependency-free differential workspace with write-constrained command execution"
                } else {
                    "/usr/bin/sandbox-exec is unavailable"
                },
            );
            let mut legacy = docker::doctor_check(engine);
            legacy.name = "legacy Linux image runner".to_owned();
            legacy.required = false;
            checks.insert(0, first);
            checks.push(legacy);
            assert(legacy@ == engine_check(*engine));
            assert(views(checks@) =~= seq![native_check(*native)] + reported.push(
                engine_check(*engine),
            ));
            checks
        },
        SystemFindings::Other { system } => {
            let detail = "current platform is ".to_owned().concat(system.as_str());
            let checks = vec![check("Linux kernel", false, true, detail.as_str())];
            assert(views(checks@) =~= report_of(*findings));
            checks
        },
    }
}

/// What a lookup of the route to a destination gives. `parsed` tells why the destination is not an
/// address, unless it is one; `lookup` is what the lookup left behind, or why it could not be made.
pub open spec fn route_found(
    host: Host,
    destination: Seq<char>,
    parsed: Result<(), String>,
    lookup: Result<CommandOutput, String>,
) -> Result<RouteObservationView, Seq<char>> {
    if host != Host::MacOs {
        Err("macOS route preview is available only on macOS"@)
    } else {
        match (parsed, lookup) {
            (Err(cause), _) => Err("route destination must be an IP address: "@ + cause@),
            (Ok(_), Err(e)) => Err(e@),
            (Ok(_), Ok(output)) => looked_up(destination, output),
        }
    }
}

/// Reads the route to a destination.
pub fn observe_route(
    host: Host,
    destination: &str,
    parsed: &Result<(), String>,
    lookup: &Result<CommandOutput, String>,
) -> (r: Result<RouteObservation, String>)
    ensures
        match r {
            Ok(route) => route_found(host, destination@, *parsed, *lookup) == Ok::<
                RouteObservationView,
                Seq<char>,
            >(route@),
            Err(e) => route_found(host, destination@, *parsed, *lookup) == Err::<
                RouteObservationView,
                Seq<char>,
            >(e@),
        },
{
    if host != Host::MacOs {
        return Err("macOS route preview is available only on macOS".to_owned());
    }
    match parsed {
        Err(cause) => return Err(
            "route destination must be an IP address: ".to_owned().concat(cause.as_str()),
        ),
        Ok(_) => {},
    }
    match lookup {
        Err(e) => Err(e.clone()),
        Ok(output) => route::observe_route(destination, output),
    }
}

/// Refuses an interface that does not exist.
pub fn validate_interface(host: Host, interface: &str, lookup: InterfaceLookup) -> (r: Result<
    (),
    String,
>)
    ensures
        r is Ok <==> host == Host::MacOs && lookup == InterfaceLookup::Present,
        r matches Err(e) ==> if host != Host::MacOs {
            e@ == "macOS interface validation is available only on macOS"@
        } else {
            e@ == match lookup {
                InterfaceLookup::ZeroByte { position } =>
                    "invalid interface name: nul byte found in provided data at position: "@
                    + crate::text::decimal(position as nat),
                _ => "network interface '"@ + interface@ + "' does not exist"@,
            }
        },
{
    if host != Host::MacOs {
        return Err("macOS interface validation is available only on macOS".to_owned());
    }
    route::validate_interface(interface, lookup)
}

/// Why changes may not be applied to the host itself.
pub open spec fn host_refusal(
    host: Host,
    environment: EnvironmentView,
    privileged: bool,
) -> Option<Seq<char>> {
    if !same_parts(environment.base_root, "/"@) {
        None
    } else if host == Host::Other {
        Some("applying to the real host is supported only on Linux and macOS"@)
    } else if !privileged {
        Some("applying to the real host requires root privileges"@)
    } else {
        None
    }
}

/// Refuses to apply changes to the host itself without the means for it.
pub fn require_real_host_apply(host: Host, environment: &Environment, privileged: bool) -> (r:
    Result<(), String>)
    ensures
        match r {
            Ok(()) => host_refusal(host, environment@, privileged) is None,
            Err(e) => host_refusal(host, environment@, privileged) == Some(e@),
        },
{
    if !environment.base_root.same(&FsPath::new("/")) {
        Ok(())
    } else if host == Host::Other {
        Err("applying to the real host is supported only on Linux and macOS".to_owned())
    } else if !privileged {
        Err("applying to the real host requires root privileges".to_owned())
    } else {
        Ok(())
    }
}

/// Takes an apply of a route one step further; only macOS has any.
pub fn apply_route_change(host: Host, job: &mut RouteApply, event: &RouteEvent) -> (r: RouteAction)
    requires
        apply_awaits(old(job).phase, *event),
    ensures
        host == Host::MacOs ==> (final(job)@, r@) == apply_next(old(job)@, *event),
        host != Host::MacOs ==> final(job)@ == old(job)@ && r@ == (RouteActionView::Finish {
            failure: Some("route candidate application is supported only on macOS"@),
        }),
{
    if host == Host::MacOs {
        route::apply_route_change(job, event)
    } else {
        RouteAction::Finish {
            result: Err("route candidate application is supported only on macOS".to_owned()),
        }
    }
}

/// Takes a rollback of a route one step further; only macOS has any.
pub fn rollback_route_change(host: Host, job: &mut RouteRollback, event: &RouteEvent) -> (r:
    RouteAction)
    requires
        rollback_awaits(old(job).phase, *event),
    ensures
        host == Host::MacOs ==> (final(job)@, r@) == rollback_next(old(job)@, *event),
        host != Host::MacOs ==> final(job)@ == old(job)@ && r@ == (RouteActionView::Finish {
            failure: Some("route candidate rollback is supported only on macOS"@),
        }),
{
    if host == Host::MacOs {
        route::rollback_route_change(job, event)
    } else {
        RouteAction::Finish {
            result: Err("route candidate rollback is supported only on macOS".to_owned()),
        }
    }
}

/// Whether the live route is the one that a change asks for. `current` is the live route, or why
/// it could not be read.
pub fn verify_route_change(
    host: Host,
    change: &RouteChange,
    current: &Result<RouteObservation, String>,
) -> (r: Result<bool, String>)
    ensures
        match r {
            Ok(held) => host == Host::MacOs && (*current matches Ok(route) && held == is_installed(
                change@,
                route@,
            )),
            Err(e) => if host != Host::MacOs {
                e@ == "route candidate verification is supported only on macOS"@
            } else {
                *current matches Err(cause) && e@ == cause@
            },
        },
{
    if host != Host::MacOs {
        return Err("route candidate verification is supported only on macOS".to_owned());
    }
    match current {
        Err(e) => Err(e.clone()),
        Ok(route) => Ok(route::verify_route_change(change, route)),
    }
}

/// What a command for virtual machines is refused with elsewhere.
pub open spec fn no_machines_here() -> Seq<char> {
    "the macOS VM backend is available only on macOS"@
}

/// What a command for containers is refused with elsewhere.
pub open spec fn no_images_here() -> Seq<char> {
    "the lightweight Linux image runner is available only on macOS"@
}

/// Why an environment cannot be given a virtual machine of a name.
pub open spec fn machine_refusal(
    host: Host,
    environment: EnvironmentView,
    instance: Seq<char>,
) -> Option<Seq<char>> {
    if host != Host::MacOs {
        Some(no_machines_here())
    } else if in_container(environment) {
        Some("environment already has a Linux image runtime"@)
    } else if !is_machine_name(instance) {
        Some("invalid Lima instance name"@)
    } else if in_machine(environment) {
        Some("environment '"@ + environment.name + "' already has a macOS VM backend"@)
    } else {
        None
    }
}

fn check_machine(host: Host, environment: &Environment, instance: &str) -> (r: Result<(), String>)
    ensures
        match r {
            Ok(()) => machine_refusal(host, environment@, instance@) is None,
            Err(e) => machine_refusal(host, environment@, instance@) == Some(e@),
        },
{
    if host != Host::MacOs {
        return Err("the macOS VM backend is available only on macOS".to_owned());
    }
    if docker::has_container(environment) {
        return Err("environment already has a Linux image runtime".to_owned());
    }
    lima::check_new_vm(environment, instance)
}

/// The script that gives an environment a clone of a base.
pub fn mac_vm_clone(host: Host, environment: &Environment, base_instance: &str) -> (r: Result<
    VmScript,
    String,
>)
    ensures
        match r {
            Ok(script) => machine_refusal(host, environment@, base_instance@) is None && script@
                == clone_script(base_instance@, machine_of(environment@.id)),
            Err(e) => machine_refusal(host, environment@, base_instance@) == Some(e@),
        },
{
    match check_machine(host, environment, base_instance) {
        Err(e) => Err(e),
        Ok(()) => Ok(
            lima::clone_macos_vm(base_instance, lima::expected_instance(environment).as_str()),
        ),
    }
}

/// Refuses to let an environment use a virtual machine that it cannot use.
pub fn mac_vm_attach(host: Host, environment: &Environment, instance: &str) -> (r: Result<
    (),
    String,
>)
    ensures
        match r {
            Ok(()) => machine_refusal(host, environment@, instance@) is None,
            Err(e) => machine_refusal(host, environment@, instance@) == Some(e@),
        },
{
    check_machine(host, environment, instance)
}

/// The virtual machine of an environment, on a host that has any.
pub open spec fn machine_here(host: Host, environment: EnvironmentView) -> Result<
    Seq<char>,
    Seq<char>,
> {
    if host != Host::MacOs {
        Err(no_machines_here())
    } else {
        match recorded(environment, VM_INSTANCE_KEY@) {
            Some(instance) => Ok(instance),
            None => Err(no_machine(environment.name)),
        }
    }
}

/// The virtual machine whose state is asked for.
pub fn mac_vm_status(host: Host, environment: &Environment) -> (r: Result<String, String>)
    ensures
        match r {
            Ok(instance) => machine_here(host, environment@) == Ok::<Seq<char>, Seq<char>>(
                instance@,
            ),
            Err(e) => machine_here(host, environment@) == Err::<Seq<char>, Seq<char>>(e@),
        },
{
    if host != Host::MacOs {
        return Err("the macOS VM backend is available only on macOS".to_owned());
    }
    lima::vm_instance(environment)
}

/// The virtual machine whose files are taken over.
pub fn mac_vm_sync(host: Host, environment: &Environment) -> (r: Result<String, String>)
    ensures
        match r {
            Ok(instance) => machine_here(host, environment@) == Ok::<Seq<char>, Seq<char>>(
                instance@,
            ),
            Err(e) => machine_here(host, environment@) == Err::<Seq<char>, Seq<char>>(e@),
        },
{
    mac_vm_status(host, environment)
}

/// The guest whose files are taken over, if the sandbox is one.
pub fn sync_isolated_runtime(host: Host, environment: &Environment) -> (r: Option<GuestKind>)
    ensures
        r == if runs_image(host, environment@) {
            Some(GuestKind::Image)
        } else if runs_machine(host, environment@) {
            Some(GuestKind::Machine)
        } else {
            None
        },
{
    if is_linux_image_runtime(host, environment) {
        Some(GuestKind::Image)
    } else if is_macos_vm_runtime(host, environment) {
        Some(GuestKind::Machine)
    } else {
        None
    }
}

/// The script that starts the virtual machine of an environment over.
pub fn mac_vm_reset(host: Host, environment: &Environment) -> (r: Result<VmScript, String>)
    ensures
        match r {
            Ok(script) => host == Host::MacOs && machine_reset(environment@) == Ok::<
                VmScriptView,
                Seq<char>,
            >(script@),
            Err(e) => if host != Host::MacOs {
                e@ == no_machines_here()
            } else {
                machine_reset(environment@) == Err::<VmScriptView, Seq<char>>(e@)
            },
        },
{
    if host != Host::MacOs {
        return Err("the macOS VM backend is available only on macOS".to_owned());
    }
    lima::reset_managed_vm(environment)
}

/// What goes when an environment goes.
pub enum Cleanup {
    Nothing,
    Container { name: String },
    Machine { instance: String },
}

#[verifier::ext_equal]
pub enum CleanupView {
    Nothing,
    Container { name: Seq<char> },
    Machine { instance: Seq<char> },
}

impl View for Cleanup {
    type V = CleanupView;

    open spec fn view(&self) -> CleanupView {
        match self {
            Cleanup::Nothing => CleanupView::Nothing,
            Cleanup::Container { name } => CleanupView::Container { name: name@ },
            Cleanup::Machine { instance } => CleanupView::Machine { instance: instance@ },
        }
    }
}

/// What goes when an environment goes.
pub open spec fn cleanup_of(host: Host, environment: EnvironmentView) -> Result<
    CleanupView,
    Seq<char>,
> {
    if host != Host::MacOs {
        Ok(CleanupView::Nothing)
    } else if in_container(environment) {
        match managed_container(environment) {
            Err(e) => Err(e),
            Ok(None) => Ok(CleanupView::Nothing),
            Ok(Some(name)) => Ok(CleanupView::Container { name }),
        }
    } else {
        match deleted_machine(environment) {
            Err(e) => Err(e),
            Ok(None) => Ok(CleanupView::Nothing),
            Ok(Some(instance)) => Ok(CleanupView::Machine { instance }),
        }
    }
}

/// What has to be removed with an environment.
pub fn cleanup_environment(host: Host, environment: &Environment) -> (r: Result<Cleanup, String>)
    ensures
        match r {
            Ok(cleanup) => cleanup_of(host, environment@) == Ok::<CleanupView, Seq<char>>(cleanup@),
            Err(e) => cleanup_of(host, environment@) == Err::<CleanupView, Seq<char>>(e@),
        },
{
    if host != Host::MacOs {
        return Ok(Cleanup::Nothing);
    }
    if docker::has_container(environment) {
        match docker::delete_managed(environment) {
            Err(e) => Err(e),
            Ok(None) => Ok(Cleanup::Nothing),
            Ok(Some(name)) => Ok(Cleanup::Container { name }),
        }
    } else {
        match lima::delete_managed_vm(environment) {
            Err(e) => Err(e),
            Ok(None) => Ok(Cleanup::Nothing),
            Ok(Some(instance)) => Ok(Cleanup::Machine { instance }),
        }
    }
}

/// Why an environment cannot be given a container from an image.
pub open spec fn image_refusal(
    host: Host,
    environment: EnvironmentView,
    image: Seq<char>,
) -> Option<Seq<char>> {
    if host != Host::MacOs {
        Some(no_images_here())
    } else if in_machine(environment) {
        Some("environment already has a macOS VM runtime"@)
    } else if in_container(environment) {
        Some("environment '"@ + environment.name + "' already has a Linux image backend"@)
    } else if !is_image_reference(image) {
        Some("invalid Docker image reference"@)
    } else {
        None
    }
}

/// The name of the container that an environment is given from an image.
pub fn mac_linux_create(host: Host, environment: &Environment, image: &str) -> (r: Result<
    String,
    String,
>)
    ensures
        match r {
            Ok(container) => image_refusal(host, environment@, image@) is None && container@
                == container_of(environment@.id),
            Err(e) => image_refusal(host, environment@, image@) == Some(e@),
        },
{
    if host != Host::MacOs {
        return Err("the lightweight Linux image runner is available only on macOS".to_owned());
    }
    if lima::has_vm(environment) {
        return Err("environment already has a macOS VM runtime".to_owned());
    }
    docker::check_create(environment, image)
}

/// Finds the program that is brought into a container.
pub fn mac_linux_guest_binary(
    host: Host,
    configured: &Option<Place>,
    executable: &FsPath,
    places: &Vec<Place>,
    embedded: &Option<FsPath>,
) -> (r: Result<GuestProgram, String>)
    ensures
        match r {
            Ok(program) => host == Host::MacOs && guest_program_found(
                *configured,
                executable@,
                places@,
                opt_path(*embedded),
            ) == Ok::<GuestProgramView, Seq<char>>(program@),
            Err(e) => if host != Host::MacOs {
                e@ == no_images_here()
            } else {
                guest_program_found(
                    *configured,
                    executable@,
                    places@,
                    opt_path(*embedded),
                ) == Err::<GuestProgramView, Seq<char>>(e@)
            },
        },
{
    if host != Host::MacOs {
        return Err("the lightweight Linux image runner is available only on macOS".to_owned());
    }
    docker::discover_guest_binary(configured, executable, places, embedded)
}

/// The container whose state is asked for.
pub fn mac_linux_status(host: Host, environment: &Environment) -> (r: Result<String, String>)
    ensures
        match r {
            Ok(container) => host == Host::MacOs && recorded(environment@, CONTAINER_KEY@) == Some(
                container@,
            ),
            Err(e) => if host != Host::MacOs {
                e@ == no_images_here()
            } else {
                recorded(environment@, CONTAINER_KEY@) is None && e@
                    == "environment has no Linux image runtime"@
            },
        },
{
    if host != Host::MacOs {
        return Err("the lightweight Linux image runner is available only on macOS".to_owned());
    }
    docker::container_name(environment)
}

/// The container of an environment that an operation may be run on, as far as its name goes.
pub open spec fn container_here(host: Host, environment: EnvironmentView) -> Result<
    Seq<char>,
    Seq<char>,
> {
    if host != Host::MacOs {
        Err(no_images_here())
    } else {
        named_container(environment)
    }
}

fn container_for(host: Host, environment: &Environment) -> (r: Result<String, String>)
    ensures
        match r {
            Ok(container) => container_here(host, environment@) == Ok::<Seq<char>, Seq<char>>(
                container@,
            ),
            Err(e) => container_here(host, environment@) == Err::<Seq<char>, Seq<char>>(e@),
        },
{
    if host != Host::MacOs {
        return Err("the lightweight Linux image runner is available only on macOS".to_owned());
    }
    docker::checked_container(environment)
}

/// The container from which a path is exported from now on.
pub fn mac_linux_track(host: Host, environment: &Environment, relative: &FsPath) -> (r: Result<
    String,
    String,
>)
    ensures
        match r {
            Ok(container) => is_safe_relative(relative@) && container_here(host, environment@)
                == Ok::<Seq<char>, Seq<char>>(container@),
            Err(e) => if host == Host::MacOs && !is_safe_relative(relative@) {
                e@ == unsafe_path_message(relative@)
            } else {
                container_here(host, environment@) == Err::<Seq<char>, Seq<char>>(e@)
            },
        },
{
    if host == Host::MacOs {
        match validate_relative_path(relative) {
            Err(e) => return Err(e),
            Ok(()) => {},
        }
    }
    container_for(host, environment)
}

/// The container that is made anew.
pub fn mac_linux_reset(host: Host, environment: &Environment) -> (r: Result<String, String>)
    ensures
        match r {
            Ok(container) => container_here(host, environment@) == Ok::<Seq<char>, Seq<char>>(
                container@,
            ),
            Err(e) => container_here(host, environment@) == Err::<Seq<char>, Seq<char>>(e@),
        },
{
    container_for(host, environment)
}

/// The container whose changes are listed.
pub fn mac_linux_changes(host: Host, environment: &Environment) -> (r: Result<String, String>)
    ensures
        match r {
            Ok(container) => container_here(host, environment@) == Ok::<Seq<char>, Seq<char>>(
                container@,
            ),
            Err(e) => container_here(host, environment@) == Err::<Seq<char>, Seq<char>>(e@),
        },
{
    container_for(host, environment)
}

/// Starts to turn the container of an environment into an image.
pub fn mac_linux_commit(host: Host, environment: &Environment, image: &str, process: u32) -> (r:
    Result<(CommitRun, CommitAction), String>)
    ensures
        match r {
            Ok((run, action)) => host == Host::MacOs && commit_started(
                environment@,
                image@,
                process as nat,
            ) == Ok::<CommitView, Seq<char>>(run@) && action@ == (CommitActionView::CheckOwner {
                container: run@.container,
            }) && commit_fits(run@, environment@),
            Err(e) => if host != Host::MacOs {
                e@ == no_images_here()
            } else {
                commit_started(environment@, image@, process as nat) == Err::<
                    CommitView,
                    Seq<char>,
                >(e@)
            },
        },
{
    if host != Host::MacOs {
        return Err("the lightweight Linux image runner is available only on macOS".to_owned());
    }
    commit::commit(environment, image, process)
}

/// Starts to take a commit back.
pub fn mac_linux_rollback(host: Host, environment: &Environment) -> (r: Result<
    (UncommitRun, CommitAction),
    String,
>)
    ensures
        match r {
            Ok((run, action)) => host == Host::MacOs && uncommit_started(environment@) == Ok::<
                UncommitView,
                Seq<char>,
            >(run@) && action@ == (CommitActionView::Identify { image: run@.image }),
            Err(e) => if host != Host::MacOs {
                e@ == no_images_here()
            } else {
                uncommit_started(environment@) == Err::<UncommitView, Seq<char>>(e@)
            },
        },
{
    if host != Host::MacOs {
        return Err("the lightweight Linux image runner is available only on macOS".to_owned());
    }
    commit::rollback_commit(environment)
}

} // verus!
