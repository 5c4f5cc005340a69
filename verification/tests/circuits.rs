use netsandbox::circuits::{
    add_capability, command_circuit, remove_capability, tcp_circuit, update_capability,
    utf8_arguments,
};
use netsandbox::clock::Timestamp;
use netsandbox::command::{CommandOutput, Host};
use netsandbox::connectivity::{
    capability_id, describe_capture_support, netstat_output, observed_capabilities,
    parse_macos_netstat, parse_macos_netstat_endpoint, parse_macos_netstat_rows,
    parse_proc_address, parse_proc_tcp, probe_action, probe_error_is_connectivity, proc_state,
    validate_capabilities, validate_capability, ObservedSocket, ProbeAction, ProbeError,
    ProbeReply, ProbeReport, ResolvedRow, SocketAddress, SocketState,
};
use netsandbox::identity::EnvironmentId;
use netsandbox::model::{
    Capability, Direction, Environment, EnvironmentPolicy, EnvironmentStatus, ProbeSpec,
    ValidationState,
};
use netsandbox::path::FsPath;
use netsandbox::probe::{
    finish_probe, next_probe_step, probe_streams, retain_diagnostic, Poll, ProbeStep, ProbeStreams,
    Span, MAX_DIAGNOSTIC_BYTES,
};

fn at(seconds: i64) -> Timestamp {
    Timestamp { seconds, nanoseconds: 0 }
}

fn environment() -> Environment {
    Environment::with_identity(
        EnvironmentId { bytes: [7; 16] },
        at(100),
        "demo".to_owned(),
        None,
        FsPath::new("/"),
        EnvironmentPolicy::default(),
        Vec::new(),
    )
}

fn run_command_probe(exit: (bool, &str), stderr: &[&[u8]]) -> Result<String, String> {
    let timeout = Span { seconds: 1, nanoseconds: 0 };
    let mut retained: Vec<u8> = Vec::new();
    for chunk in stderr {
        retain_diagnostic(&mut retained, &chunk.to_vec());
    }
    let running = Poll::Running { elapsed: Span { seconds: 0, nanoseconds: 5 } };
    match next_probe_step(&running, timeout) {
        ProbeStep::Wait { milliseconds } => assert_eq!(milliseconds, 25),
        _ => panic!("a running command is waited for"),
    }
    let step = next_probe_step(
        &Poll::Exited { success: exit.0, status: exit.1.to_owned() },
        timeout,
    );
    match finish_probe(step, &retained) {
        ProbeReply::Passed(detail) => Ok(detail),
        ProbeReply::Failed(detail) => Err(detail),
        _ => panic!("a command passes or fails"),
    }
}

#[test]
fn ids_are_stable() {
    let first = capability_id("tcp", &Direction::Outbound, "127.0.0.1:1", "1.1.1.1:443");
    let second = capability_id("tcp", &Direction::Outbound, "127.0.0.1:1", "1.1.1.1:443");
    assert_eq!(first, second);
}

#[test]
fn ids_tell_their_parts_apart() {
    let id = capability_id("tcp", &Direction::Outbound, "a", "b");
    assert_eq!(id.len(), 16);
    assert!(id.chars().all(|c| matches!(c, '0'..='9' | 'a'..='f')));
    assert_ne!(id, capability_id("tcp", &Direction::Inbound, "a", "b"));
    assert_ne!(id, capability_id("tcp", &Direction::Outbound, "b", "a"));
    assert_ne!(
        capability_id("tcp", &Direction::Outbound, "ab", "c"),
        capability_id("tcp", &Direction::Outbound, "a", "bc")
    );
}

#[test]
fn command_probes_report_success_and_failure() {
    assert!(run_command_probe((true, "exit status: 0"), &[]).is_ok());
    assert!(run_command_probe((false, "exit status: 1"), &[]).is_err());
}

#[test]
fn command_probe_failure_retains_bounded_stderr() {
    let detail =
        run_command_probe((false, "exit status: 7"), &[b"ssh-diagnostic-marker\n"]).unwrap_err();

    assert!(detail.contains("ssh-diagnostic-marker"), "{detail}");
    let mut retained: Vec<u8> = Vec::new();
    for _ in 0..10 {
        retain_diagnostic(&mut retained, &vec![b'x'; 1000]);
    }
    assert_eq!(retained.len(), MAX_DIAGNOSTIC_BYTES);
}

#[test]
fn commands_that_cannot_be_run_or_take_too_long_fail() {
    let timeout = Span { seconds: 3, nanoseconds: 0 };
    let late = next_probe_step(
        &Poll::Running { elapsed: Span { seconds: 3, nanoseconds: 0 } },
        timeout,
    );
    match late {
        ProbeStep::Fail { message, stop } => {
            assert_eq!(message, "application-level circuit check timed out after 3s");
            assert!(stop);
        }
        _ => panic!("must fail"),
    }
    let missing = next_probe_step(&Poll::NotStarted { error: "gone".to_owned() }, timeout);
    match missing {
        ProbeStep::Fail { message, stop } => {
            assert_eq!(message, "could not start application probe: gone");
            assert!(!stop);
        }
        _ => panic!("must fail"),
    }
    let unknown = next_probe_step(&Poll::Unknown { error: "lost".to_owned() }, timeout);
    assert!(matches!(unknown, ProbeStep::Fail { stop: true, .. }));
}

#[test]
fn parses_macos_established_connections() {
    let rows = parse_macos_netstat_rows(
        "tcp4 0 0 *.22 *.* LISTEN\n\
         tcp4 0 0 192.0.2.10.22 198.51.100.2.55000 ESTABLISHED\n\
         tcp4 0 0 192.0.2.10.55001 203.0.113.8.443 ESTABLISHED\n",
    );
    let resolved: Vec<ResolvedRow> = rows
        .iter()
        .map(|row| ResolvedRow {
            local: Some(format!(
                "{}:{}",
                row.local.host.as_deref().unwrap_or("0.0.0.0"),
                row.local.port
            )),
            remote: row
                .remote
                .as_ref()
                .map(|r| format!("{}:{}", r.host.as_deref().unwrap_or("0.0.0.0"), r.port)),
        })
        .collect();
    let capabilities = parse_macos_netstat(&rows, &resolved);

    assert_eq!(capabilities.len(), 2);
    assert_eq!(capabilities[0].direction, Direction::Inbound);
    assert_eq!(capabilities[1].direction, Direction::Outbound);
    assert_eq!(capabilities[1].remote, "203.0.113.8:443");
}

#[test]
fn netstat_endpoints_end_in_a_port() {
    let endpoint = parse_macos_netstat_endpoint("192.0.2.10.22").unwrap();
    assert_eq!(endpoint.port, 22);
    assert_eq!(endpoint.host.as_deref(), Some("192.0.2.10"));
    assert!(parse_macos_netstat_endpoint("nonsense").is_none());
    assert!(parse_macos_netstat_endpoint("192.0.2.10.*").is_none());
}

#[test]
fn parses_ipv4_proc_addresses() {
    let address = parse_proc_address("0100007F:0016", false).unwrap();
    assert_eq!(address.v4_text().unwrap(), "127.0.0.1:22");
}

#[test]
fn version_six_proc_addresses_are_read_word_by_word() {
    let address = parse_proc_address("00000000000000000000000001000000:01BB", true).unwrap();
    match &address {
        SocketAddress::V6 { bytes, port } => {
            assert_eq!(*port, 443);
            assert_eq!(bytes[..], [0, 0, 0, 0, 0, 0, 0, 0, 0, 0, 0, 0, 0, 0, 0, 1]);
        }
        _ => panic!("must be version six"),
    }
    match parse_proc_address("0100007F:0016", true).unwrap() {
        SocketAddress::V6 { bytes, port } => {
            assert_eq!(port, 22);
            assert_eq!(bytes[..5], [127, 0, 0, 1, 0]);
        }
        _ => panic!("must be version six"),
    }
    assert!(parse_proc_address("0100007G:0016", true).is_none());
    assert!(parse_proc_address("0100007F", false).is_none());
    assert!(parse_proc_address("0100007F:10016", false).is_none());
    assert_eq!(
        parse_proc_address("01007F:0016", false).unwrap().v4_text().unwrap(),
        "127.0.1.0:22"
    );
}

#[test]
fn proc_tables_give_sockets() {
    let sockets = parse_proc_tcp(
        "  sl  local_address rem_address   st\n\
         0: 0100007F:0016 00000000:0000 0A rest\n\
         1: 0100007F:0016 0200007F:C350 01 rest\n",
        false,
    )
    .unwrap();
    assert_eq!(sockets.len(), 2);
    assert!(matches!(proc_state(0x0a), SocketState::Listening));
    assert!(matches!(proc_state(1), SocketState::Established));
    assert!(matches!(proc_state(6), SocketState::Other));
}

#[test]
fn connections_to_a_listening_port_are_inbound() {
    let sockets = vec![
        ObservedSocket {
            port: 22,
            local: "0.0.0.0:22".to_owned(),
            remote: None,
            state: SocketState::Listening,
        },
        ObservedSocket {
            port: 22,
            local: "10.0.0.1:22".to_owned(),
            remote: Some("10.0.0.2:5000".to_owned()),
            state: SocketState::Established,
        },
        ObservedSocket {
            port: 6000,
            local: "10.0.0.1:6000".to_owned(),
            remote: Some("1.1.1.1:443".to_owned()),
            state: SocketState::Established,
        },
    ];
    let found = observed_capabilities(&sockets);
    assert_eq!(found.len(), 2);
    let inbound = found.iter().find(|c| c.local == "10.0.0.1:22").unwrap();
    assert_eq!(inbound.direction, Direction::Inbound);
    let outbound = found.iter().find(|c| c.local == "10.0.0.1:6000").unwrap();
    assert_eq!(outbound.direction, Direction::Outbound);
    assert_eq!(
        outbound.id,
        capability_id("tcp", &Direction::Outbound, "10.0.0.1:6000", "1.1.1.1:443")
    );
}

#[test]
fn failed_netstat_is_reported() {
    let output = CommandOutput {
        code: Some(1),
        status: "exit status: 1".to_owned(),
        stdout: Vec::new(),
        stderr: b"boom\n".to_vec(),
    };
    assert_eq!(netstat_output(&output).unwrap_err(), "macOS netstat failed: boom");
}

#[test]
fn capture_support_depends_on_the_host() {
    assert_eq!(
        describe_capture_support(Host::Linux),
        "automatic TCP baseline capture is available"
    );
    assert_eq!(
        describe_capture_support(Host::Other),
        "automatic TCP baseline capture is unavailable; add circuits explicitly"
    );
}

#[test]
fn connection_errors_are_told_apart() {
    assert!(probe_error_is_connectivity(&ProbeError::ConnectionRefused));
    assert!(probe_error_is_connectivity(&ProbeError::TimedOut));
    assert!(probe_error_is_connectivity(&ProbeError::ConnectionReset));
    assert!(probe_error_is_connectivity(&ProbeError::NotConnected));
    assert!(probe_error_is_connectivity(&ProbeError::AddrNotAvailable));
    assert!(!probe_error_is_connectivity(&ProbeError::AddrInUse));
    assert!(!probe_error_is_connectivity(&ProbeError::HostUnreachable));
    assert!(!probe_error_is_connectivity(&ProbeError::PermissionDenied));
    assert!(!probe_error_is_connectivity(&ProbeError::Other));
}

#[test]
fn circuits_get_the_verdict_of_their_check() {
    let through = Some("en0".to_owned());
    let mut circuit = tcp_circuit("web", "1.1.1.1:443", &through, &Ok(())).ok().unwrap();
    assert!(matches!(probe_action(&circuit), ProbeAction::Connect { .. }));
    validate_capability(
        &mut circuit,
        &ProbeReport { reply: ProbeReply::Connected, at: at(5) },
    );
    assert_eq!(circuit.validation, ValidationState::Preserved);
    assert_eq!(circuit.detail.as_deref(), Some("TCP connection established via en0"));
    assert!(circuit.last_checked_at == Some(at(5)));
    validate_capability(
        &mut circuit,
        &ProbeReport { reply: ProbeReply::NotConnected("refused".to_owned()), at: at(6) },
    );
    assert_eq!(circuit.validation, ValidationState::Lost);
    validate_capability(
        &mut circuit,
        &ProbeReport { reply: ProbeReply::BadEndpoint("bad".to_owned()), at: at(7) },
    );
    assert_eq!(circuit.validation, ValidationState::Unverifiable);
    assert_eq!(circuit.detail.as_deref(), Some("unsupported endpoint: bad"));
}

#[test]
fn ignored_circuits_are_not_checked() {
    let mut circuits = vec![command_circuit("control", vec!["true".to_owned()])];
    circuits[0].validation = ValidationState::Ignored;
    assert!(matches!(probe_action(&circuits[0]), ProbeAction::Skip));
    validate_capabilities(
        &mut circuits,
        &vec![ProbeReport { reply: ProbeReply::NotRun, at: at(9) }],
    );
    assert_eq!(circuits[0].validation, ValidationState::Ignored);
    assert!(circuits[0].last_checked_at.is_none());
}

#[test]
fn circuits_without_a_probe_cannot_be_shown_to_be_preserved() {
    let mut circuit = command_circuit("control", vec!["true".to_owned()]);
    circuit.probe = ProbeSpec::Unknown;
    circuit.direction = Direction::Inbound;
    validate_capability(&mut circuit, &ProbeReport { reply: ProbeReply::NotRun, at: at(1) });
    assert_eq!(circuit.validation, ValidationState::Unverifiable);
    assert_eq!(
        circuit.detail.as_deref(),
        Some("an external paired probe is required for an inbound circuit")
    );
    circuit.probe = ProbeSpec::External { description: "ask".to_owned() };
    validate_capability(&mut circuit, &ProbeReport { reply: ProbeReply::NotRun, at: at(1) });
    assert_eq!(circuit.detail.as_deref(), Some("external probe required: ask"));
}

#[test]
fn command_circuits_name_their_command() {
    let circuit = command_circuit("control", vec!["curl".to_owned(), "-s".to_owned()]);
    assert_eq!(circuit.remote, "curl -s");
    assert_eq!(
        circuit.id,
        capability_id("command", &Direction::Outbound, "control", "curl\0-s")
    );
    assert!(circuit.required);
    assert_eq!(circuit.validation, ValidationState::Pending);
}

#[test]
fn endpoints_have_to_be_addresses() {
    let cause = Err("invalid socket address syntax".to_owned());
    assert_eq!(
        tcp_circuit("web", "example.com:443", &None, &cause).err().unwrap(),
        "endpoint must be an IP address and port, such as 1.1.1.1:443: invalid socket address syntax"
    );
    let circuit = tcp_circuit("web", "1.1.1.1:443", &None, &Ok(())).ok().unwrap();
    assert_eq!(circuit.local, "sandbox");
    assert_eq!(
        circuit.id,
        capability_id("tcp", &Direction::Outbound, "web", "1.1.1.1:443@default")
    );
}

#[test]
fn circuits_are_added_changed_and_removed() {
    let mut sandbox = environment();
    let circuit = command_circuit("control", vec!["true".to_owned()]);
    let id = circuit.id.clone();
    add_capability(&mut sandbox, circuit, at(200)).unwrap();
    assert!(sandbox.updated_at == at(200));
    assert_eq!(
        add_capability(&mut sandbox, command_circuit("control", vec!["true".to_owned()]), at(201))
            .unwrap_err(),
        "that circuit already exists"
    );
    update_capability(&mut sandbox, &id, false, at(202)).unwrap();
    assert!(!sandbox.baseline[0].required);
    assert_eq!(sandbox.baseline[0].validation, ValidationState::Ignored);
    update_capability(&mut sandbox, &id, true, at(203)).unwrap();
    assert!(sandbox.baseline[0].required);
    assert_eq!(sandbox.baseline[0].validation, ValidationState::Pending);
    assert_eq!(
        update_capability(&mut sandbox, "other", true, at(204)).unwrap_err(),
        "circuit 'other' does not exist"
    );
    assert_eq!(
        remove_capability(&mut sandbox, "other", at(204)).unwrap_err(),
        "circuit 'other' does not exist"
    );
    remove_capability(&mut sandbox, &id, at(205)).unwrap();
    assert!(sandbox.baseline.is_empty());
    assert_eq!(sandbox.status, EnvironmentStatus::Created);
}

#[test]
fn probe_arguments_must_be_texts() {
    let fine = utf8_arguments(&vec![b"curl".to_vec(), "\u{e9}".as_bytes().to_vec()]).unwrap();
    assert_eq!(fine, ["curl", "\u{e9}"]);
    assert_eq!(
        utf8_arguments(&vec![vec![0xff, 0xfe]]).unwrap_err(),
        "probe arguments must be valid UTF-8"
    );
}

#[test]
fn observed_connections_keep_the_records_small() {
    let none: Vec<Capability> = observed_capabilities(&Vec::new());
    assert!(none.is_empty());
}

#[test]
fn native_checks_show_what_their_commands_write() {
    assert_eq!(probe_streams(&Some("macos-native".to_owned())), ProbeStreams::Shown);
    assert_eq!(probe_streams(&Some("other".to_owned())), ProbeStreams::ErrorsKept);
    assert_eq!(probe_streams(&None), ProbeStreams::ErrorsKept);
}
