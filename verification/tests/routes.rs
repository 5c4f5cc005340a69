use netsandbox::command::{CommandOutput, Host};
use netsandbox::model::{RouteCandidate, RouteChange, RouteChangeState, RouteObservation};
use netsandbox::clock::Timestamp;
use netsandbox::platform;
use netsandbox::platform::route::{
    add_candidate_args, apply_route_change, delete_host_args, parse_route_output,
    require_route_privileges, restore_route_args, rollback_route_change, routes_equivalent,
    verify_route_change, InterfaceLookup, RouteAction, RouteApply, RouteEvent, RoutePrivileges,
    RouteRollback,
};

fn observation(interface: &str, flags: &[&str]) -> RouteObservation {
    RouteObservation {
        destination: "8.135.241.49".to_owned(),
        gateway: Some("10.3.131.254".to_owned()),
        interface: Some(interface.to_owned()),
        ifscope: None,
        flags: flags.iter().map(|flag| flag.to_string()).collect(),
    }
}

fn change() -> RouteChange {
    RouteChange {
        candidate_id: "candidate".to_owned(),
        destination: "8.135.241.49".to_owned(),
        interface: "utun6".to_owned(),
        gateway: None,
        original: RouteObservation {
            destination: "8.135.241.49".to_owned(),
            gateway: Some("10.3.131.254".to_owned()),
            interface: Some("en0".to_owned()),
            ifscope: Some("en0".to_owned()),
            flags: vec![
                "UP".to_owned(),
                "GATEWAY".to_owned(),
                "HOST".to_owned(),
                "STATIC".to_owned(),
            ],
        },
        state: RouteChangeState::Prepared,
    }
}

#[test]
fn parses_route_get_output() {
    let route = parse_route_output(
        "8.135.241.49",
        "   route to: 8.135.241.49\n\
         destination: 8.135.241.49\n\
         gateway: 10.3.131.254\n\
         interface: en0\n\
         flags: <UP,GATEWAY,HOST,DONE,STATIC>\n",
    )
    .ok()
    .unwrap();

    assert_eq!(route.gateway.as_deref(), Some("10.3.131.254"));
    assert_eq!(route.interface.as_deref(), Some("en0"));
    assert!(route.flags.contains(&"STATIC".to_owned()));
    assert_eq!(route.flags, ["UP", "GATEWAY", "HOST", "DONE", "STATIC"]);
    assert_eq!(route.ifscope, None);
}

#[test]
fn builds_candidate_and_restore_commands() {
    let change = change();

    assert_eq!(
        add_candidate_args(&change, false),
        ["-n", "add", "-host", "8.135.241.49", "-interface", "utun6"]
    );
    assert_eq!(
        restore_route_args(&change.original, false),
        [
            "-n",
            "add",
            "-host",
            "-ifscope",
            "en0",
            "8.135.241.49",
            "10.3.131.254"
        ]
    );

    let mut gateway_change = change;
    gateway_change.gateway = Some("192.0.2.1".to_owned());
    assert_eq!(
        add_candidate_args(&gateway_change, false),
        [
            "-n",
            "add",
            "-host",
            "-ifscope",
            "utun6",
            "8.135.241.49",
            "192.0.2.1"
        ]
    );
}

#[test]
fn version_six_commands_name_the_family() {
    let mut change = change();
    change.destination = "2001:db8::1".to_owned();
    assert_eq!(
        add_candidate_args(&change, true),
        ["-n", "add", "-inet6", "-host", "2001:db8::1", "-interface", "utun6"]
    );
    assert_eq!(
        delete_host_args(&change.original, true),
        ["-n", "delete", "-inet6", "-host", "-ifscope", "en0", "8.135.241.49"]
    );
}

#[test]
fn unknown_lines_and_missing_fields_are_skipped() {
    let route = parse_route_output("1.2.3.4", "nonsense\n mtu: 1500\n flags: <>\n").ok().unwrap();
    assert_eq!(route.destination, "1.2.3.4");
    assert_eq!(route.gateway, None);
    assert!(route.flags.is_empty());
}

#[test]
fn routes_are_compared_by_what_matters() {
    let left = observation("en0", &["UP", "HOST", "STATIC"]);
    let right = observation("en0", &["HOST", "STATIC", "DONE"]);
    assert!(routes_equivalent(&left, &left));
    assert!(routes_equivalent(&left, &right) && routes_equivalent(&right, &left));
    assert!(!routes_equivalent(&left, &observation("en1", &["HOST", "STATIC"])));
    assert!(!routes_equivalent(&left, &observation("en0", &["HOST"])));
}

#[test]
fn route_changes_need_privileges() {
    assert_eq!(
        require_route_privileges(RoutePrivileges { privileged: false, tool_available: true })
            .unwrap_err(),
        "applying or rolling back a macOS route requires root privileges"
    );
    assert_eq!(
        require_route_privileges(RoutePrivileges { privileged: true, tool_available: false })
            .unwrap_err(),
        "/sbin/route is not available"
    );
}

fn lookups(change: &RouteChange) -> (RouteObservation, RouteObservation) {
    let mut original = observation("en0", &["UP", "GATEWAY", "HOST", "STATIC"]);
    original.ifscope = Some("en0".to_owned());
    let mut installed = observation(&change.interface, &["UP", "HOST", "STATIC"]);
    installed.gateway = None;
    (original, installed)
}

#[test]
fn an_apply_removes_the_host_route_and_installs_the_candidate() {
    let change = change();
    let (original, installed) = lookups(&change);
    let mut job = RouteApply::new(&change, false, false);
    let mut ran: Vec<Vec<String>> = Vec::new();
    let mut observed = vec![installed, original];
    let mut event = RouteEvent::Begin;
    let result = loop {
        event = match apply_route_change(&mut job, &event) {
            RouteAction::CheckPrivileges => RouteEvent::Privileges {
                found: RoutePrivileges { privileged: true, tool_available: true },
            },
            RouteAction::CheckInterface { interface } => {
                assert_eq!(interface, "utun6");
                RouteEvent::Interface { result: Ok(()) }
            }
            RouteAction::Observe { destination } => {
                assert_eq!(destination, "8.135.241.49");
                RouteEvent::Observed { route: Ok(observed.pop().unwrap()), v6: false }
            }
            RouteAction::Run { arguments } => {
                ran.push(arguments);
                RouteEvent::Ran { result: Ok(()) }
            }
            RouteAction::Finish { result } => break result,
        };
    };
    assert!(result.is_ok());
    assert_eq!(ran.len(), 2);
    assert_eq!(ran[0], ["-n", "delete", "-host", "-ifscope", "en0", "8.135.241.49"]);
    assert_eq!(ran[1], ["-n", "add", "-host", "8.135.241.49", "-interface", "utun6"]);
}

#[test]
fn a_candidate_that_cannot_be_installed_puts_the_original_back() {
    let change = change();
    let (original, _) = lookups(&change);
    let mut job = RouteApply::new(&change, false, false);
    let mut ran: Vec<Vec<String>> = Vec::new();
    let mut observed = vec![original];
    let mut event = RouteEvent::Begin;
    let result = loop {
        event = match apply_route_change(&mut job, &event) {
            RouteAction::CheckPrivileges => RouteEvent::Privileges {
                found: RoutePrivileges { privileged: true, tool_available: true },
            },
            RouteAction::CheckInterface { .. } => RouteEvent::Interface { result: Ok(()) },
            RouteAction::Observe { .. } => {
                RouteEvent::Observed { route: Ok(observed.pop().unwrap()), v6: false }
            }
            RouteAction::Run { arguments } => {
                let failing = arguments.contains(&"utun6".to_owned());
                ran.push(arguments);
                RouteEvent::Ran {
                    result: if failing { Err("no such interface".to_owned()) } else { Ok(()) },
                }
            }
            RouteAction::Finish { result } => break result,
        };
    };
    let error = result.unwrap_err();
    assert!(error.contains("install route to 8.135.241.49 through utun6"));
    assert!(error.contains("no such interface"));
    assert_eq!(
        ran.last().unwrap(),
        &["-n", "add", "-host", "-ifscope", "en0", "8.135.241.49", "10.3.131.254"]
    );
}

#[test]
fn a_route_that_changed_since_the_plan_is_left_alone() {
    let change = change();
    let mut job = RouteApply::new(&change, false, false);
    let mut event = RouteEvent::Begin;
    let result = loop {
        event = match apply_route_change(&mut job, &event) {
            RouteAction::CheckPrivileges => RouteEvent::Privileges {
                found: RoutePrivileges { privileged: true, tool_available: true },
            },
            RouteAction::CheckInterface { .. } => RouteEvent::Interface { result: Ok(()) },
            RouteAction::Observe { .. } => RouteEvent::Observed {
                route: Ok(observation("en7", &["HOST", "STATIC"])),
                v6: false,
            },
            RouteAction::Run { .. } => panic!("nothing may be run"),
            RouteAction::Finish { result } => break result,
        };
    };
    assert!(result.unwrap_err().contains("changed after the apply plan was created"));
}

#[test]
fn a_rollback_of_a_route_that_is_back_already_runs_nothing() {
    let change = change();
    let (original, _) = lookups(&change);
    let mut job = RouteRollback {
        change: netsandbox::model::Duplicate::duplicate(&change),
        v6: false,
        phase: netsandbox::platform::route::RollbackPhase::Start,
    };
    let mut observed = vec![original];
    let mut event = RouteEvent::Begin;
    let result = loop {
        event = match rollback_route_change(&mut job, &event) {
            RouteAction::CheckPrivileges => RouteEvent::Privileges {
                found: RoutePrivileges { privileged: true, tool_available: true },
            },
            RouteAction::Observe { .. } => {
                RouteEvent::Observed { route: Ok(observed.pop().unwrap()), v6: false }
            }
            RouteAction::Run { .. } => panic!("nothing may be run"),
            RouteAction::CheckInterface { .. } => panic!("no interface is looked up"),
            RouteAction::Finish { result } => break result,
        };
    };
    assert!(result.is_ok());
}

/// A change of a version 6 route, and its destination as the host reports it.
fn version_six() -> RouteChange {
    let mut change = change();
    change.destination = "2001:db8::1".to_owned();
    change.original.destination = "2001:db8::1".to_owned();
    change.original.gateway = Some("fe80::1".to_owned());
    change
}

fn shown(route: &RouteObservation) -> RouteObservation {
    RouteObservation {
        destination: route.destination.clone(),
        gateway: route.gateway.clone(),
        interface: route.interface.clone(),
        ifscope: route.ifscope.clone(),
        flags: route.flags.clone(),
    }
}

/// The route that stands when the candidate of a change is installed.
fn in_place(change: &RouteChange) -> RouteObservation {
    RouteObservation {
        destination: change.destination.clone(),
        gateway: None,
        interface: Some(change.interface.clone()),
        ifscope: None,
        flags: vec!["UP".to_owned(), "HOST".to_owned(), "STATIC".to_owned()],
    }
}

/// Answers what a job asks for; `observed` holds the routes that it finds, the next one last.
fn answered(
    action: RouteAction,
    observed: &mut Vec<RouteObservation>,
    ran: &mut Vec<Vec<String>>,
) -> Result<RouteEvent, Result<(), String>> {
    Ok(match action {
        RouteAction::CheckPrivileges => RouteEvent::Privileges {
            found: RoutePrivileges { privileged: true, tool_available: true },
        },
        RouteAction::CheckInterface { .. } => RouteEvent::Interface { result: Ok(()) },
        RouteAction::Observe { .. } => {
            let route = observed.pop().unwrap();
            let v6 = route.destination.contains(':');
            RouteEvent::Observed { route: Ok(route), v6 }
        }
        RouteAction::Run { arguments } => {
            ran.push(arguments);
            RouteEvent::Ran { result: Ok(()) }
        }
        RouteAction::Finish { result } => return Err(result),
    })
}

fn apply_on_macos(
    change: &RouteChange,
    v6: bool,
    mut observed: Vec<RouteObservation>,
) -> (Result<(), String>, Vec<Vec<String>>) {
    let mut job = RouteApply::new(change, v6, v6);
    let mut ran = Vec::new();
    let mut event = RouteEvent::Begin;
    loop {
        let action = platform::apply_route_change(Host::MacOs, &mut job, &event);
        match answered(action, &mut observed, &mut ran) {
            Ok(next) => event = next,
            Err(result) => {
                assert!(observed.is_empty());
                assert_eq!((job.v6, job.original_v6), (v6, v6));
                return (result, ran);
            }
        }
    }
}

fn roll_back_on_macos(
    change: &RouteChange,
    v6: bool,
    mut observed: Vec<RouteObservation>,
) -> (Result<(), String>, Vec<Vec<String>>) {
    let mut job = RouteRollback::new(change, v6);
    let mut ran = Vec::new();
    let mut event = RouteEvent::Begin;
    loop {
        let action = platform::rollback_route_change(Host::MacOs, &mut job, &event);
        match answered(action, &mut observed, &mut ran) {
            Ok(next) => event = next,
            Err(result) => {
                assert!(observed.is_empty());
                assert_eq!(job.v6, v6);
                return (result, ran);
            }
        }
    }
}

#[test]
fn a_route_is_applied_to_the_end_on_macos() {
    let change = change();
    let (result, ran) =
        apply_on_macos(&change, false, vec![in_place(&change), shown(&change.original)]);
    assert!(result.is_ok());
    assert_eq!(ran.len(), 2);
    assert_eq!(ran[0], ["-n", "delete", "-host", "-ifscope", "en0", "8.135.241.49"]);
    assert_eq!(ran[1], ["-n", "add", "-host", "8.135.241.49", "-interface", "utun6"]);
}

#[test]
fn a_version_six_route_is_applied_to_the_end_on_macos() {
    let change = version_six();
    let (result, ran) =
        apply_on_macos(&change, true, vec![in_place(&change), shown(&change.original)]);
    assert!(result.is_ok());
    assert_eq!(ran.len(), 2);
    assert_eq!(ran[0], ["-n", "delete", "-inet6", "-host", "-ifscope", "en0", "2001:db8::1"]);
    assert_eq!(ran[1], ["-n", "add", "-inet6", "-host", "2001:db8::1", "-interface", "utun6"]);
}

#[test]
fn a_version_six_route_that_is_not_selected_is_taken_back() {
    let change = version_six();
    let mut other = in_place(&change);
    other.gateway = Some("fe80::9".to_owned());
    let mut wanted = version_six();
    wanted.gateway = Some("fe80::2".to_owned());
    let (result, ran) = apply_on_macos(
        &wanted,
        true,
        vec![
            shown(&wanted.original),
            shown(&other),
            shown(&other),
            shown(&wanted.original),
        ],
    );
    assert_eq!(
        result.unwrap_err(),
        "installed route to 2001:db8::1 did not select utun6; the original route was restored"
    );
    assert_eq!(ran.len(), 4);
    assert_eq!(ran[2], ["-n", "delete", "-inet6", "-host", "2001:db8::1"]);
    assert_eq!(
        ran[3],
        ["-n", "add", "-inet6", "-host", "-ifscope", "en0", "2001:db8::1", "fe80::1"]
    );
}

#[test]
fn a_route_is_rolled_back_to_the_end_on_macos() {
    let change = change();
    let (result, ran) =
        roll_back_on_macos(&change, false, vec![shown(&change.original), in_place(&change)]);
    assert!(result.is_ok());
    assert_eq!(ran.len(), 2);
    assert_eq!(ran[0], ["-n", "delete", "-host", "8.135.241.49"]);
    assert_eq!(
        ran[1],
        ["-n", "add", "-host", "-ifscope", "en0", "8.135.241.49", "10.3.131.254"]
    );
}

#[test]
fn a_version_six_route_is_rolled_back_to_the_end_on_macos() {
    let change = version_six();
    let (result, ran) =
        roll_back_on_macos(&change, true, vec![shown(&change.original), in_place(&change)]);
    assert!(result.is_ok());
    assert_eq!(ran.len(), 2);
    assert_eq!(ran[0], ["-n", "delete", "-inet6", "-host", "2001:db8::1"]);
    assert_eq!(
        ran[1],
        ["-n", "add", "-inet6", "-host", "-ifscope", "en0", "2001:db8::1", "fe80::1"]
    );
}

#[test]
fn routes_are_changed_on_macos_only() {
    let change = change();
    let mut job = RouteApply::new(&change, false, false);
    match platform::apply_route_change(Host::Linux, &mut job, &RouteEvent::Begin) {
        RouteAction::Finish { result } => assert_eq!(
            result.unwrap_err(),
            "route candidate application is supported only on macOS"
        ),
        _ => panic!("must stop"),
    }
    let mut back = RouteRollback::new(&change, false);
    match platform::rollback_route_change(Host::Linux, &mut back, &RouteEvent::Begin) {
        RouteAction::Finish { result } => assert_eq!(
            result.unwrap_err(),
            "route candidate rollback is supported only on macOS"
        ),
        _ => panic!("must stop"),
    }
    assert_eq!(
        platform::verify_route_change(Host::Linux, &change, &Err("x".to_owned())).unwrap_err(),
        "route candidate verification is supported only on macOS"
    );
    let installed = lookups(&change).1;
    assert!(verify_route_change(&change, &installed));
    assert!(platform::verify_route_change(Host::MacOs, &change, &Ok(installed)).unwrap());
}

#[test]
fn lookups_are_read_or_refused() {
    let output = CommandOutput {
        code: Some(0),
        status: "exit status: 0".to_owned(),
        stdout: b"destination: 1.1.1.1\ninterface: en0\n".to_vec(),
        stderr: Vec::new(),
    };
    let found = platform::observe_route(Host::MacOs, "1.1.1.1", &Ok(()), &Ok(output)).ok().unwrap();
    assert_eq!(found.interface.as_deref(), Some("en0"));
    let failed = CommandOutput {
        code: Some(1),
        status: "exit status: 1".to_owned(),
        stdout: Vec::new(),
        stderr: b" not in table \n".to_vec(),
    };
    assert_eq!(
        platform::observe_route(Host::MacOs, "1.1.1.1", &Ok(()), &Ok(failed)).err().unwrap(),
        "route lookup for 1.1.1.1 failed: not in table"
    );
    assert_eq!(
        platform::observe_route(
            Host::MacOs,
            "host",
            &Err("invalid IP address syntax".to_owned()),
            &Err(String::new())
        )
        .err()
        .unwrap(),
        "route destination must be an IP address: invalid IP address syntax"
    );
    assert_eq!(
        platform::observe_route(Host::Linux, "1.1.1.1", &Ok(()), &Err(String::new())).err().unwrap(),
        "macOS route preview is available only on macOS"
    );
}

#[test]
fn interfaces_are_looked_up_on_macos_only() {
    assert!(platform::validate_interface(Host::MacOs, "en0", InterfaceLookup::Present).is_ok());
    assert_eq!(
        platform::validate_interface(Host::MacOs, "en9", InterfaceLookup::Missing).unwrap_err(),
        "network interface 'en9' does not exist"
    );
    assert_eq!(
        platform::validate_interface(Host::MacOs, "e\0", InterfaceLookup::ZeroByte { position: 1 })
            .unwrap_err(),
        "invalid interface name: nul byte found in provided data at position: 1"
    );
    assert_eq!(
        platform::validate_interface(Host::Linux, "en0", InterfaceLookup::Present).unwrap_err(),
        "macOS interface validation is available only on macOS"
    );
}

#[test]
fn candidates_conflict_with_what_is_live() {
    let candidate = RouteCandidate {
        id: "one".to_owned(),
        destination: "8.135.241.49".to_owned(),
        interface: "utun6".to_owned(),
        gateway: None,
        ports: vec![443],
        created_at: Timestamp { seconds: 0, nanoseconds: 0 },
        observed_route: observation("en0", &["HOST", "STATIC"]),
        capability_ids: Vec::new(),
    };
    let candidates = vec![candidate];
    let same = vec![Ok(observation("en0", &["HOST", "STATIC"]))];
    assert!(platform::route_conflicts(Host::MacOs, &candidates, &same).unwrap().is_empty());
    let other = vec![Ok(observation("en5", &["HOST", "STATIC"]))];
    assert_eq!(platform::route_conflicts(Host::MacOs, &candidates, &other).unwrap().len(), 1);
    assert_eq!(
        platform::route_conflicts(Host::Linux, &candidates, &same).unwrap_err(),
        "route candidate application is supported only on macOS"
    );
    assert!(platform::route_conflicts(Host::Linux, &Vec::new(), &Vec::new()).unwrap().is_empty());
}
