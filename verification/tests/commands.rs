use netsandbox::apply_command::{
    ApplyCommand, ApplyRequest, CommandAction, CommandEvent,
};
use netsandbox::circuits::command_circuit;
use netsandbox::clock::Timestamp;
use netsandbox::command::Host;
use netsandbox::connectivity::{ProbeReply, ProbeReport};
use netsandbox::identity::EnvironmentId;
use netsandbox::model::{
    ApplyPlan, Change, ChangeKind, DoctorCheck, Environment, EnvironmentPolicy, EnvironmentStatus,
    FailurePolicy, LinuxImageChange, Origin, RouteObservation, Transaction, ValidationState,
};
use netsandbox::path::FsPath;
use netsandbox::probe::Span;
use netsandbox::report;
use netsandbox::session::{
    self, CommandKind, Consent, Entry, GuardStep, StageKind, Watch,
};
use netsandbox::staged_routes::{
    add_route_canary, check_preview, check_route_test, refresh_pre_apply_capabilities, refreshes,
    remove_route, route_candidate_needs_guarded_trial, sort_ports, stage_route, test_routes,
    validation_blockers, validation_blockers_at, HostAddress, RouteRequest, RouteTest,
};

fn at(seconds: i64) -> Timestamp {
    Timestamp { seconds, nanoseconds: 0 }
}

fn environment(name: &str, root: &str) -> Environment {
    Environment::with_identity(
        EnvironmentId { bytes: [7; 16] },
        at(100),
        name.to_owned(),
        None,
        FsPath::new(root),
        EnvironmentPolicy::default(),
        Vec::new(),
    )
}

fn existing() -> Origin {
    Origin {
        existed: true,
        kind: Some("file".to_owned()),
        digest: Some("d".to_owned()),
    }
}

fn request() -> ApplyRequest {
    ApplyRequest {
        host: Host::Linux,
        native: false,
        privileged: true,
        dry_run: false,
        trial: false,
        yes: true,
    }
}

/// Drives an apply; gives its end and what it asked for.
fn drive(
    request: ApplyRequest,
    sandbox: &mut Environment,
    allowed: bool,
    failed_routes: Result<Vec<String>, String>,
) -> (Result<i32, String>, Vec<&'static str>) {
    let (mut command, mut action) = ApplyCommand::start(request, sandbox, "demo");
    let mut failed_routes = Some(failed_routes);
    let mut log: Vec<&'static str> = Vec::new();
    loop {
        let done = CommandEvent::Done { result: Ok(()) };
        let event = match action {
            CommandAction::Sync => {
                log.push("sync");
                done
            }
            CommandAction::Refresh => {
                log.push("refresh");
                done
            }
            CommandAction::Plan => {
                log.push("plan");
                CommandEvent::Planned { allowed: Ok(allowed) }
            }
            CommandAction::Save => {
                log.push("save");
                done
            }
            CommandAction::Apply => {
                log.push("apply");
                CommandEvent::Applied { transaction: Ok("apply-1".to_owned()) }
            }
            CommandAction::Validate => {
                log.push("validate");
                done
            }
            CommandAction::VerifyRoutes => {
                log.push("verify");
                CommandEvent::Verified { failed: failed_routes.take().unwrap() }
            }
            CommandAction::RollBack => {
                log.push("roll back");
                done
            }
            CommandAction::Release => {
                log.push("release");
                done
            }
            CommandAction::Commit { transaction } => {
                assert_eq!(transaction, "apply-1");
                log.push("commit");
                done
            }
            CommandAction::Finish { result, .. } => return (result, log),
        };
        action = command.next(sandbox, event, at(900));
    }
}

#[test]
fn an_apply_asks_for_everything_in_order() {
    let mut sandbox = environment("demo", "/");
    let (result, log) = drive(request(), &mut sandbox, true, Ok(Vec::new()));
    assert_eq!(result.unwrap(), 0);
    assert_eq!(
        log,
        ["refresh", "plan", "save", "apply", "validate", "verify", "save", "commit"]
    );
    assert_eq!(sandbox.status, EnvironmentStatus::Applied);
    assert_eq!(sandbox.applied_transaction.as_deref(), Some("apply-1"));
    assert!(sandbox.updated_at == at(900));
}

#[test]
fn dry_runs_only_plan() {
    let mut sandbox = environment("demo", "/");
    let mut dry = request();
    dry.dry_run = true;
    dry.yes = false;
    dry.privileged = false;
    let (result, log) = drive(dry, &mut sandbox, false, Ok(Vec::new()));
    assert_eq!(result.unwrap(), 2);
    assert_eq!(log, ["plan", "save"]);
    let (result, _) = drive(dry, &mut sandbox, true, Ok(Vec::new()));
    assert_eq!(result.unwrap(), 0);
    assert_eq!(sandbox.status, EnvironmentStatus::Created);
}

#[test]
fn applies_need_consent_and_privileges() {
    let mut sandbox = environment("demo", "/");
    let mut unconfirmed = request();
    unconfirmed.yes = false;
    let (result, log) = drive(unconfirmed, &mut sandbox, true, Ok(Vec::new()));
    assert_eq!(result.unwrap_err(), "applying host changes requires --yes");
    assert!(log.is_empty());
    let mut unprivileged = request();
    unprivileged.privileged = false;
    let (result, _) = drive(unprivileged, &mut sandbox, true, Ok(Vec::new()));
    assert_eq!(result.unwrap_err(), "applying to the real host requires root privileges");
    let mut elsewhere = environment("demo", "/base");
    let (result, _) = drive(unprivileged, &mut elsewhere, true, Ok(Vec::new()));
    assert!(result.is_ok());
}

#[test]
fn blocked_applies_stop_after_the_plan() {
    let mut sandbox = environment("demo", "/");
    let (result, log) = drive(request(), &mut sandbox, false, Ok(Vec::new()));
    assert_eq!(result.unwrap_err(), "apply is blocked");
    assert_eq!(log, ["refresh", "plan", "save"]);
}

#[test]
fn lost_circuits_take_an_apply_back() {
    let mut sandbox = environment("demo", "/");
    sandbox.baseline.push(command_circuit("control", vec!["true".to_owned()]));
    sandbox.baseline[0].validation = ValidationState::Lost;
    let (result, log) = drive(request(), &mut sandbox, true, Ok(Vec::new()));
    assert_eq!(
        result.unwrap_err(),
        "post-apply circuit validation failed; host changes were automatically rolled back"
    );
    assert_eq!(log[log.len() - 3..], ["roll back", "release", "save"]);
    assert_eq!(sandbox.status, EnvironmentStatus::ValidationFailed);
    sandbox.policy.auto_rollback = false;
    let (result, log) = drive(request(), &mut sandbox, true, Ok(Vec::new()));
    assert_eq!(
        result.unwrap_err(),
        "post-apply circuit validation failed; automatic rollback is disabled"
    );
    assert_eq!(log.last(), Some(&"save"));
    assert!(!log.contains(&"roll back"));
}

#[test]
fn wrong_routes_take_an_apply_back() {
    let mut sandbox = environment("demo", "/");
    let (result, log) = drive(request(), &mut sandbox, true, Ok(vec!["1.1.1.1".to_owned()]));
    assert!(result.is_err());
    assert!(log.contains(&"roll back"));
    let (result, log) = drive(request(), &mut sandbox, true, Err("no route".to_owned()));
    assert_eq!(
        result.unwrap_err(),
        "post-apply route verification failed; changes were rolled back: no route"
    );
    assert!(log.contains(&"roll back"));
    sandbox.policy.auto_rollback = false;
    let (result, _) = drive(request(), &mut sandbox, true, Err("no route".to_owned()));
    assert_eq!(result.unwrap_err(), "post-apply route verification failed: no route");
}

#[test]
fn images_are_not_applied_to_a_mac() {
    let mut sandbox = environment("demo", "/");
    sandbox.metadata.insert("docker_linux_container".to_owned(), "c".to_owned());
    let mut mac = request();
    mac.host = Host::MacOs;
    let (result, _) = drive(mac, &mut sandbox, true, Ok(Vec::new()));
    assert_eq!(
        result.unwrap_err(),
        "a Linux image environment cannot be applied to the Mac host; use 'netsandbox mac linux-diff demo' and 'linux-commit'"
    );
    let mut plain = environment("demo", "/");
    mac.native = true;
    let (_, log) = drive(mac, &mut plain, true, Ok(Vec::new()));
    assert_eq!(log[0], "sync");
}

#[test]
fn finished_environments_cannot_be_entered() {
    let mut sandbox = environment("demo", "/");
    assert!(session::ensure_enterable(&sandbox).is_ok());
    sandbox.status = EnvironmentStatus::Applied;
    assert_eq!(
        session::ensure_enterable(&sandbox).unwrap_err(),
        "environment 'demo' is applied and cannot be entered"
    );
    sandbox.status = EnvironmentStatus::Discarded;
    assert!(session::ensure_enterable(&sandbox).is_err());
}

#[test]
fn user_paths_are_taken_below_the_root() {
    let path = |text: &str| session::normalize_user_path(&FsPath::new(text));
    assert_eq!(path("/etc/hosts").ok().unwrap().display(), "etc/hosts");
    assert_eq!(path("etc/hosts").ok().unwrap().display(), "etc/hosts");
    assert_eq!(path("/etc/../x").err().unwrap(), "unsafe relative path 'etc/../x'");
    let list = session::normalize_user_paths(&vec![FsPath::new("/a"), FsPath::new("b")])
        .ok()
        .unwrap();
    assert_eq!(list.len(), 2);
    assert_eq!(
        session::normalize_user_paths(&vec![FsPath::new("/a"), FsPath::new("../b")])
            .err()
            .unwrap(),
        "unsafe relative path '../b'"
    );
}

#[test]
fn runs_leave_their_status() {
    let mut sandbox = environment("demo", "/");
    session::begin_run(&mut sandbox, at(200));
    assert_eq!(sandbox.status, EnvironmentStatus::Running);
    session::finish_exec(&mut sandbox, &Ok(0), at(201));
    assert_eq!(sandbox.status, EnvironmentStatus::Ready);
    session::finish_exec(&mut sandbox, &Ok(3), at(202));
    assert_eq!(sandbox.status, EnvironmentStatus::ValidationFailed);
    session::finish_enter(&mut sandbox, at(203));
    assert_eq!(sandbox.status, EnvironmentStatus::Ready);
    sandbox.baseline.push(command_circuit("control", vec!["true".to_owned()]));
    sandbox.baseline[0].validation = ValidationState::Unverifiable;
    session::finish_enter(&mut sandbox, at(204));
    assert_eq!(sandbox.status, EnvironmentStatus::Ready);
    assert_eq!(session::finish_probe(&mut sandbox, at(205)), 2);
    assert_eq!(sandbox.status, EnvironmentStatus::ValidationFailed);
    sandbox.baseline[0].validation = ValidationState::Preserved;
    assert_eq!(session::finish_probe(&mut sandbox, at(206)), 0);
    let mut probed = environment("other", "/x");
    probed.status = EnvironmentStatus::ValidationFailed;
    session::import_probe_result(&mut sandbox, &probed);
    assert!(sandbox.baseline.is_empty());
    assert_eq!(sandbox.name, "demo");
    assert_eq!(sandbox.status, EnvironmentStatus::ValidationFailed);
}

#[test]
fn staging_and_resetting_undo_each_other() {
    let mut sandbox = environment("demo", "/");
    let path = FsPath::new("etc/proxy.conf");
    session::stage(
        &mut sandbox,
        &path,
        existing(),
        StageKind::File { directory: false },
        at(200),
    )
    .unwrap();
    assert_eq!(sandbox.origins.len(), 1);
    session::stage(&mut sandbox, &path, existing(), StageKind::Deletion, at(201)).unwrap();
    assert_eq!(sandbox.deleted_paths.len(), 1);
    session::stage(
        &mut sandbox,
        &path,
        Origin::absent(),
        StageKind::File { directory: false },
        at(202),
    )
    .unwrap();
    assert!(sandbox.deleted_paths.is_empty());
    assert!(sandbox.origins.get(&path).unwrap().existed);
    session::reset(&mut sandbox, &vec![FsPath::new("etc/proxy.conf")], at(203));
    assert_eq!(sandbox.origins.len(), 0);
    assert!(sandbox.updated_at == at(203));
}

#[test]
fn what_cannot_be_staged_is_refused() {
    let mut sandbox = environment("demo", "/base");
    let path = FsPath::new("gone");
    assert_eq!(
        session::stage(&mut sandbox, &path, Origin::absent(), StageKind::Deletion, at(200))
            .unwrap_err(),
        "cannot stage deletion because /base/gone does not exist"
    );
    assert_eq!(
        session::stage(
            &mut sandbox,
            &path,
            existing(),
            StageKind::File { directory: true },
            at(200)
        )
        .unwrap_err(),
        "staging directories is not supported; stage the changed files individually"
    );
    assert_eq!(sandbox.origins.len(), 0);
    assert_eq!(
        session::check_stage(true, true).unwrap_err(),
        "--delete and --from cannot be used together"
    );
    assert_eq!(session::check_reset(false, 0, true).unwrap_err(), "provide paths, or use --all");
    assert_eq!(session::check_reset(true, 1, true).unwrap_err(), "provide paths, or use --all");
    assert_eq!(
        session::check_reset(true, 0, false).unwrap_err(),
        "resetting all changes requires --yes"
    );
    assert!(session::check_reset(false, 2, false).is_ok());
}

#[test]
fn destructive_commands_need_consent() {
    assert!(session::require_consent(Consent::Remove, true).is_ok());
    for (consent, message) in [
        (
            Consent::RefreshBaseline,
            "baseline refresh requires --yes because it changes the safety reference",
        ),
        (Consent::ResetImage, "resetting a Linux image environment requires --yes"),
        (Consent::CommitImage, "committing a Linux image requires --yes"),
        (Consent::RemoveImage, "removing a committed Linux image requires --yes"),
        (Consent::ResetMachine, "resetting a macOS VM clone requires --yes"),
        (Consent::Apply, "applying host changes requires --yes"),
        (Consent::Discard, "discarding unapplied changes requires --yes"),
        (Consent::Remove, "removing an environment requires --yes"),
        (Consent::RollBack, "rolling back host changes requires --yes"),
    ] {
        assert_eq!(session::require_consent(consent, false).unwrap_err(), message);
    }
}

#[test]
fn environments_are_not_lost_by_accident() {
    let mut sandbox = environment("demo", "/");
    assert_eq!(
        session::check_remove(&sandbox, 1, true).unwrap_err(),
        "environment has unapplied changes; use discard --yes"
    );
    assert!(session::check_remove(&sandbox, 0, true).is_ok());
    assert!(session::check_discard(&sandbox, true).is_ok());
    sandbox.status = EnvironmentStatus::Applied;
    assert!(session::check_remove(&sandbox, 1, true).is_ok());
    assert_eq!(
        session::check_discard(&sandbox, true).unwrap_err(),
        "an applied environment must be rolled back or removed from history"
    );
    session::finish_rollback(&mut sandbox, at(300));
    assert_eq!(sandbox.status, EnvironmentStatus::Ready);
}

#[test]
fn guards_take_back_abandoned_applies() {
    let old = Some(Span { seconds: 15, nanoseconds: 0 });
    let young = Some(Span { seconds: 4, nanoseconds: 999_999_999 });
    assert_eq!(session::rollback_guard(true, false, &old, 15), GuardStep::Stop);
    assert_eq!(session::rollback_guard(false, true, &old, 15), GuardStep::Stop);
    assert_eq!(session::rollback_guard(false, false, &old, 15), GuardStep::RollBack);
    assert_eq!(session::rollback_guard(false, false, &None, 15), GuardStep::RollBack);
    assert_eq!(session::rollback_guard(false, false, &young, 0), GuardStep::Wait);
    assert_eq!(
        session::rollback_guard(false, false, &Some(Span { seconds: 5, nanoseconds: 0 }), 0),
        GuardStep::RollBack
    );
}

#[test]
fn watches_stop_after_their_count() {
    let mut watch = Watch { count: 2, done: 0, interval: 0 };
    assert_eq!(watch.next(), Some(1));
    assert_eq!(watch.next(), None);
    let mut endless = Watch { count: 0, done: 0, interval: 7 };
    assert_eq!(endless.next(), Some(7));
    assert_eq!(endless.next(), Some(7));
    assert_eq!(session::check_seconds(0), 1);
    assert_eq!(session::check_seconds(9), 9);
}

#[test]
fn commands_are_run_where_they_belong() {
    let active = Some("demo".to_owned());
    assert_eq!(session::run(CommandKind::RollbackGuard, "", &None, true), Entry::Unlocked);
    assert_eq!(session::run(CommandKind::Probe, "demo", &None, true), Entry::Supervised);
    assert_eq!(session::run(CommandKind::Probe, "demo", &active, false), Entry::Locked);
    assert_eq!(session::run(CommandKind::Check, "demo", &active, true), Entry::Supervised);
    assert_eq!(session::run(CommandKind::Check, "other", &active, true), Entry::Locked);
    assert_eq!(session::run(CommandKind::Other, "demo", &active, true), Entry::Locked);
    let sandbox = environment("demo", "/");
    assert!(session::probes_directly(Host::MacOs, &sandbox, false, "demo", &None, false));
    assert!(!session::probes_directly(Host::MacOs, &sandbox, true, "demo", &None, false));
    assert!(session::probes_directly(Host::Linux, &sandbox, false, "demo", &active, false));
    assert_eq!(
        session::check_command("/bin/netsandbox", "demo", 3),
        ["/bin/netsandbox", "__probe", "demo", "--timeout", "3"]
    );
}

#[test]
fn guests_are_kept_apart_from_hosts() {
    let mut sandbox = environment("demo", "/");
    assert_eq!(
        session::require_image(Host::MacOs, &sandbox, "demo").unwrap_err(),
        "environment 'demo' has no Linux image runtime"
    );
    assert_eq!(
        session::require_machine(Host::MacOs, &sandbox, "demo").unwrap_err(),
        "environment 'demo' has no isolated macOS VM"
    );
    assert_eq!(
        session::check_new_guest("demo", true).unwrap_err(),
        "environment 'demo' already has a guest runtime"
    );
    session::export_path(&mut sandbox, &FsPath::new("etc/b"), existing(), at(200));
    session::export_path(&mut sandbox, &FsPath::new("etc/a"), existing(), at(201));
    assert_eq!(sandbox.tracked_paths[0].display(), "etc/a");
    sandbox.deleted_paths.push(FsPath::new("etc/a"));
    session::restart_guest(&mut sandbox, false, at(202));
    assert!(sandbox.deleted_paths.is_empty());
    assert_eq!(sandbox.origins.len(), 2);
    session::restart_guest(&mut sandbox, true, at(203));
    assert_eq!(sandbox.origins.len(), 0);
    assert_eq!(sandbox.tracked_paths.len(), 2);
    assert_eq!(
        session::check_circuits_for_commit(&sandbox, &vec!["a".to_owned(), "b".to_owned()])
            .unwrap_err(),
        "Linux image commit is blocked by connectivity validation: a, b; run 'netsandbox check demo'"
    );
    assert_eq!(
        session::check_changes_for_commit(&Vec::new()).unwrap_err(),
        "Linux image has no changes to commit"
    );
    session::finish_commit(&mut sandbox, at(204));
    assert_eq!(sandbox.status, EnvironmentStatus::Applied);
}

fn route_request(interface: &str, gateway: Option<&str>) -> RouteRequest {
    RouteRequest {
        destination: "127.0.0.1".to_owned(),
        address: HostAddress { text: "127.0.0.1".to_owned(), v6: false },
        interface: interface.to_owned(),
        gateway: gateway.map(|g| g.to_owned()),
        ports: vec![22, 443],
        observed_route: RouteObservation {
            destination: "127.0.0.1".to_owned(),
            gateway: None,
            interface: Some("lo0".to_owned()),
            ifscope: None,
            flags: vec!["HOST".to_owned()],
        },
    }
}

#[test]
fn previews_are_checked() {
    let v4 = || Ok(HostAddress { text: "1.1.1.1".to_owned(), v6: false });
    let v6 = || Ok(HostAddress { text: "::1".to_owned(), v6: true });
    let none = || Err("invalid IP address syntax".to_owned());
    assert_eq!(sort_ports(&vec![443, 22, 443]), [22, 443]);
    assert_eq!(
        check_preview(&v4(), &Ok(()), &Some(v4()), &vec![443, 22, 22]).unwrap(),
        [22, 443]
    );
    assert_eq!(
        check_preview(&none(), &Ok(()), &None, &vec![1]).unwrap_err(),
        "route-preview destination must be an IP address: invalid IP address syntax"
    );
    assert_eq!(
        check_preview(&v4(), &Err("no en9".to_owned()), &None, &vec![1]).unwrap_err(),
        "no en9"
    );
    assert_eq!(
        check_preview(&v4(), &Ok(()), &Some(none()), &vec![1]).unwrap_err(),
        "route-preview gateway must be an IP address: invalid IP address syntax"
    );
    assert_eq!(
        check_preview(&v4(), &Ok(()), &Some(v6()), &vec![1]).unwrap_err(),
        "route-preview destination and gateway must use the same address family"
    );
    assert_eq!(
        check_preview(&v4(), &Ok(()), &None, &vec![1, 0]).unwrap_err(),
        "port zero is not a valid circuit endpoint"
    );
}

#[test]
fn mac_route_candidate_uses_loopback_without_changing_routes() {
    let mut sandbox = environment("mac-route", "/");
    let candidate =
        stage_route(&mut sandbox, "mac-route", &route_request("lo0", None), at(200)).ok().unwrap();
    let shown = report::staged_route(&candidate, "mac-route");
    assert!(shown[0].starts_with("Staged macOS route candidate '"));
    assert!(shown.contains(&"The host routing table was not changed.".to_owned()));
    assert_eq!(sandbox.baseline.len(), 2);
    assert_eq!(sandbox.baseline[0].remote, "127.0.0.1:22");
    assert_eq!(candidate.capability_ids[1], sandbox.baseline[1].id);
    assert!(!route_candidate_needs_guarded_trial(&candidate));
    assert_eq!(
        stage_route(&mut sandbox, "mac-route", &route_request("lo0", None), at(201))
            .err()
            .unwrap(),
        format!("route candidate '{}' already exists", candidate.id)
    );
    let id = add_route_canary(
        &mut sandbox,
        &candidate.id,
        "synthetic-loopback",
        vec!["true".to_owned()],
        at(202),
    )
    .unwrap();
    assert_eq!(sandbox.route_candidates[0].capability_ids.len(), 3);
    assert_eq!(
        add_route_canary(
            &mut sandbox,
            &candidate.id,
            "again",
            vec!["true".to_owned()],
            at(203)
        )
        .unwrap_err(),
        "that route canary already exists"
    );
    assert_eq!(
        add_route_canary(&mut sandbox, "none", "x", vec!["true".to_owned()], at(203)).unwrap_err(),
        "route candidate 'none' does not exist"
    );
    let reports = vec![
        ProbeReport { reply: ProbeReply::Connected, at: at(204) },
        ProbeReport { reply: ProbeReply::Connected, at: at(204) },
        ProbeReport { reply: ProbeReply::Passed("passed".to_owned()), at: at(204) },
    ];
    let test = test_routes(&mut sandbox, &reports, at(205));
    assert_eq!(test, RouteTest { failed: false, guarded: false });
    assert_eq!(test.exit_code(), 0);
    assert_eq!(RouteTest { failed: true, guarded: true }.exit_code(), 2);
    assert!(sandbox.baseline.iter().all(|c| c.validation == ValidationState::Preserved));
    assert!(report::route_test(test, "mac-route")[1].starts_with("Candidate checks passed."));
    assert!(sandbox.baseline.iter().any(|c| c.id == id));
    remove_route(&mut sandbox, &candidate.id, at(206)).unwrap();
    assert!(sandbox.baseline.is_empty());
    assert!(sandbox.route_candidates.is_empty());
    assert_eq!(
        remove_route(&mut sandbox, &candidate.id, at(207)).unwrap_err(),
        format!("route candidate '{}' does not exist", candidate.id)
    );
}

#[test]
fn removing_a_route_takes_its_canaries_along() {
    let mut sandbox = environment("mac-route", "/");
    let kept =
        stage_route(&mut sandbox, "mac-route", &route_request("lo0", None), at(200)).ok().unwrap();
    let before: Vec<String> = sandbox.baseline.iter().map(|c| c.id.clone()).collect();
    let route = route_request("lo0", Some("192.0.2.1"));
    let removed = stage_route(&mut sandbox, "mac-route", &route, at(201)).ok().unwrap();
    for (label, command) in [("first", "true"), ("second", "false")] {
        let argv = vec![command.to_owned()];
        add_route_canary(&mut sandbox, &removed.id, label, argv, at(202)).unwrap();
    }
    assert_eq!(sandbox.baseline.len(), 2 * before.len() + 2);
    remove_route(&mut sandbox, &removed.id, at(203)).unwrap();
    let after: Vec<String> = sandbox.baseline.iter().map(|c| c.id.clone()).collect();
    assert_eq!(after, before);
    assert_eq!(sandbox.route_candidates.len(), 1);
    assert_eq!(sandbox.route_candidates[0].id, kept.id);
    assert_eq!(sandbox.route_candidates[0].capability_ids, kept.capability_ids);
    assert!(sandbox.updated_at == at(203));
}

#[test]
fn mac_gateway_candidate_is_deferred_to_guarded_trial() {
    let mut sandbox = environment("mac-gateway", "/");
    assert_eq!(
        check_route_test(&sandbox, "mac-gateway").unwrap_err(),
        "environment 'mac-gateway' has no macOS route candidates"
    );
    let candidate = stage_route(
        &mut sandbox,
        "mac-gateway",
        &route_request("lo0", Some("192.0.2.1")),
        at(200),
    )
    .ok()
    .unwrap();
    assert!(route_candidate_needs_guarded_trial(&candidate));
    assert!(check_route_test(&sandbox, "mac-gateway").is_ok());
    let reports = vec![
        ProbeReport { reply: ProbeReply::NotRun, at: at(204) },
        ProbeReport { reply: ProbeReply::NotRun, at: at(204) },
    ];
    let test = test_routes(&mut sandbox, &reports, at(205));
    assert_eq!(test, RouteTest { failed: true, guarded: true });
    assert!(sandbox.baseline.iter().all(|c| c.validation == ValidationState::Unverifiable));
    assert_eq!(sandbox.status, EnvironmentStatus::ValidationFailed);
    let lines = report::route_test(test, "mac-gateway");
    assert!(lines[1].starts_with("Exact candidate-route checks require a guarded live trial"));
}

#[test]
fn version_six_endpoints_are_bracketed() {
    let mut sandbox = environment("demo", "/");
    let mut request = route_request("lo0", None);
    request.destination = "::1".to_owned();
    request.address = HostAddress { text: "::1".to_owned(), v6: true };
    stage_route(&mut sandbox, "demo", &request, at(200)).ok().unwrap();
    assert_eq!(sandbox.baseline[0].remote, "[::1]:22");
}

#[test]
fn real_apply_refreshes_stale_required_circuits_before_planning() {
    let mut sandbox = environment("fresh-apply", "/base");
    sandbox.baseline.push(command_circuit("control", vec!["true".to_owned()]));
    sandbox.baseline[0].last_checked_at = Some(at(100));
    sandbox.baseline[0].validation = ValidationState::Preserved;
    assert_eq!(validation_blockers_at(&sandbox, at(161)).len(), 1);
    assert!(validation_blockers_at(&sandbox, at(160)).is_empty());
    assert_eq!(validation_blockers(&sandbox).len(), 1);
    assert!(refreshes(&sandbox, false, &sandbox.baseline[0]));
    let reports = vec![ProbeReport { reply: ProbeReply::Passed("ok".to_owned()), at: at(161) }];
    let count = refresh_pre_apply_capabilities(&mut sandbox, false, &reports);
    assert_eq!(
        report::refreshed(count),
        "Refreshed 1 required circuit immediately before apply."
    );
    assert_eq!(report::refreshed(2), "Refreshed 2 required circuits immediately before apply.");
    assert!(validation_blockers_at(&sandbox, at(161)).is_empty());
    sandbox.baseline[0].required = false;
    assert_eq!(refresh_pre_apply_capabilities(&mut sandbox, false, &reports), 0);
}

#[test]
fn tables_are_laid_out() {
    assert_eq!(report::list(&Vec::new()), ["No environments."]);
    let rows = vec![report::ListRow {
        name: "demo".to_owned(),
        status: EnvironmentStatus::Ready,
        changes: 3,
        connections: 12,
    }];
    assert_eq!(
        report::list(&rows),
        [
            "NAME                     STATE                CHANGES   CONNECTIONS",
            "demo                     ready 3         12",
        ]
    );
    assert_eq!(
        report::connections(&Vec::new(), true),
        ["No connection capabilities were captured."]
    );
    let mut circuit = command_circuit("control", vec!["true".to_owned()]);
    circuit.id = "0123456789abcdef".to_owned();
    let shown = report::connections(&vec![circuit], true);
    assert_eq!(shown[0], "ID                 DIRECTION RESULT       LOCAL                  REMOTE");
    assert_eq!(shown[1], "0123456789abcdef   outbound Pending sandbox                true");
    assert_eq!(shown[2], "  name: control");
    assert_eq!(shown[3], "  user or agent supplied application-level canary");
    assert_eq!(report::history(&Vec::new()), ["No apply transactions."]);
    let transaction = Transaction {
        version: 1,
        id: "apply-1".to_owned(),
        environment: "demo".to_owned(),
        created_at: at(1),
        rolled_back_at: Some(at(2)),
        base_root: FsPath::new("/"),
        changes: Vec::new(),
        backups: Vec::new(),
        route_changes: Vec::new(),
    };
    assert_eq!(
        session::check_rollback(&transaction, false).unwrap_err(),
        "rolling back the real host requires root privileges"
    );
    assert!(session::check_rollback(&transaction, true).is_ok());
    assert!(report::history(&vec![transaction])[1].ends_with(" rolled_back"));
    assert_eq!(report::changes(&Vec::new()), ["No filesystem changes."]);
    let change = Change {
        path: FsPath::new("etc/hosts"),
        kind: ChangeKind::Modified,
        original_digest: None,
        sandbox_digest: None,
        binary: false,
    };
    assert!(report::selects(&None, &change));
    assert!(report::selects(&Some(FsPath::new("etc/hosts")), &change));
    assert!(!report::selects(&Some(FsPath::new("etc")), &change));
    assert_eq!(report::changes(&vec![change]), ["modified etc/hosts"]);
    assert_eq!(
        report::image_changes(&vec![LinuxImageChange {
            kind: "C".to_owned(),
            path: FsPath::new("/etc"),
            is_tracked: true,
        }]),
        ["C  tracked   /etc"]
    );
    assert_eq!(report::image_changes(&Vec::new()), ["No Linux image changes."]);
}

#[test]
fn summaries_name_what_matters() {
    let mut sandbox = environment("demo", "/");
    sandbox.baseline.push(command_circuit("control", vec!["true".to_owned()]));
    sandbox.baseline[0].validation = ValidationState::Lost;
    assert_eq!(
        report::status(&sandbox, 2, &None),
        [
            "Environment: demo",
            "State:       created",
            "Changes:     2",
            "Connections: 1",
            "Lost:        1",
        ]
    );
    assert_eq!(report::status(&sandbox, 2, &Some("x".to_owned())).len(), 7);
    assert_eq!(
        report::creation(Host::Linux, &sandbox),
        [
            "Created environment 'demo'.",
            "Captured 1 active connection capabilities.",
            "Enter with: netsandbox enter demo",
        ]
    );
    assert_eq!(report::creation(Host::MacOs, &sandbox).len(), 6);
    let (lines, code) = report::doctor(&vec![
        DoctorCheck {
            name: "ip".to_owned(),
            ok: false,
            required: true,
            detail: "missing".to_owned(),
        },
        DoctorCheck {
            name: "extra".to_owned(),
            ok: false,
            required: false,
            detail: "optional".to_owned(),
        },
    ]);
    assert_eq!(lines[0], "FAIL  ip                     missing");
    assert_eq!(lines[1], "INFO  extra                  optional");
    assert_eq!(code, 2);
    let route = route_request("lo0", None).observed_route;
    assert_eq!(
        report::route(&route),
        ["Destination: 127.0.0.1", "Interface:   lo0", "Gateway:     none", "Flags:       HOST"]
    );
    assert_eq!(report::route_candidates(&Vec::new()), ["No macOS route candidates."]);
}

#[test]
fn plans_are_shown() {
    let plan = ApplyPlan {
        environment: "demo".to_owned(),
        generated_at: at(1),
        changes: Vec::new(),
        route_candidates: Vec::new(),
        lost_required: Vec::new(),
        unverifiable_required: vec!["a".to_owned()],
        conflicts: Vec::new(),
        route_conflicts: vec!["blocked".to_owned()],
        guarded_trial: true,
        deferred_required: Vec::new(),
        allowed: false,
    };
    let lines = report::print_plan(&plan);
    assert_eq!(lines[1], "Validation mode:         GUARDED ROUTE TRIAL");
    assert_eq!(lines[6], "Unverifiable circuits:  1");
    assert_eq!(lines[9], "  route blocker: blocked");
    assert_eq!(lines[10], "Result:                 APPLY BLOCKED");
}

#[test]
fn policies_are_read_by_name() {
    assert_eq!(FailurePolicy::from_str("warn").unwrap(), FailurePolicy::Warn);
    assert_eq!(FailurePolicy::from_str("block-apply").unwrap(), FailurePolicy::BlockApply);
    assert_eq!(FailurePolicy::from_str("stop").unwrap(), FailurePolicy::Stop);
    assert_eq!(
        FailurePolicy::from_str("never").unwrap_err(),
        "expected warn, block-apply, or stop"
    );
}

#[test]
fn refreshed_baselines_replace_the_old_ones() {
    let mut sandbox = environment("demo", "/");
    sandbox.baseline.push(command_circuit("old", vec!["true".to_owned()]));
    session::refresh_baseline(
        &mut sandbox,
        vec![
            command_circuit("new", vec!["true".to_owned()]),
            command_circuit("newer", vec!["true".to_owned()]),
        ],
        at(300),
    );
    assert_eq!(sandbox.baseline.len(), 2);
    assert_eq!(sandbox.baseline[0].name.as_deref(), Some("new"));
}

#[test]
fn failed_steps_tell_what_is_left() {
    assert_eq!(
        session::undone("save Linux image environment", "container", &None, "disk full"),
        "save Linux image environment: disk full"
    );
    assert_eq!(
        session::undone(
            "save Linux image environment",
            "container",
            &Some("no engine".to_owned()),
            "disk full"
        ),
        "save Linux image environment; container cleanup also failed: no engine: disk full"
    );
}
