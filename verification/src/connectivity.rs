//! Circuits: how they are found, checked and judged.
use vstd::prelude::*;

use crate::clock::Timestamp;
use crate::command::{failure_message, CommandOutput, Host};
use crate::identity::{
    hex_bytes, hex_decode, hex_text, is_hex, is_lower_hex, lemma_zero_separated, sha256_digest,
    short_digest, short_digest_text, zero_separated,
};
use crate::model::{
    views, Capability, CapabilityView, Direction, ProbeSpec, ProbeView, ValidationState,
};
use crate::text::{
    arguments, contains_text, copy_option, decimal, lines, number_text, opt_text, parse_unsigned,
    rsplit_once, same_text, split_first, split_last, split_lines, split_once, split_words,
    starts_with, strip_back, strip_front, texts, trim_back, trim_front, unsigned, words, has_prefix,
    Margin,
};

verus! {

/// The identifier of a circuit: a digest of what sets it apart.
pub open spec fn capability_key(
    protocol: Seq<char>,
    direction: Direction,
    local: Seq<char>,
    remote: Seq<char>,
) -> Seq<char> {
    short_digest(seq![protocol, direction.name(), local, remote])
}

/// The identifier of a circuit.
pub fn capability_id(
    protocol: &str,
    direction: &Direction,
    local: &str,
    remote: &str,
) -> (r: String)
    ensures
        r@ == capability_key(protocol@, *direction, local@, remote@),
        r@.len() == 16,
        forall|i: int| 0 <= i < 16 ==> is_lower_hex(#[trigger] r@[i]),
{
    let parts = arguments(vec![protocol, direction.label(), local, remote]);
    assert(texts(parts@) =~= seq![protocol@, direction.name(), local@, remote@]);
    short_digest_text(&parts)
}

/// The bytes that the identifier of a circuit is a digest of.
pub open spec fn capability_bytes(
    protocol: Seq<char>,
    direction: Direction,
    local: Seq<char>,
    remote: Seq<char>,
) -> Seq<u8> {
    zero_separated(seq![protocol, direction.name(), local, remote])
}

/// The identifier of a circuit is made of the first bytes of a digest. What it is a digest of sets
/// circuits apart: two that differ in a part, none of which holds a zero character, have different
/// bytes, so that their identifiers are equal only by a collision of the digest.
pub proof fn law_circuits_are_told_apart(
    protocol: Seq<char>,
    direction: Direction,
    local: Seq<char>,
    remote: Seq<char>,
    other_protocol: Seq<char>,
    other_direction: Direction,
    other_local: Seq<char>,
    other_remote: Seq<char>,
)
    requires
        !protocol.contains('\0'),
        !local.contains('\0'),
        !remote.contains('\0'),
        !other_protocol.contains('\0'),
        !other_local.contains('\0'),
        !other_remote.contains('\0'),
    ensures
        capability_key(protocol, direction, local, remote) == hex_text(
            sha256_digest(capability_bytes(protocol, direction, local, remote)).take(8),
        ),
        capability_bytes(protocol, direction, local, remote) == capability_bytes(
            other_protocol,
            other_direction,
            other_local,
            other_remote,
        ) <==> protocol == other_protocol && direction == other_direction && local == other_local
            && remote == other_remote,
{
    let a = seq![protocol, direction.name(), local, remote];
    let b = seq![other_protocol, other_direction.name(), other_local, other_remote];
    lemma_direction_names(direction);
    lemma_direction_names(other_direction);
    if capability_bytes(protocol, direction, local, remote) == capability_bytes(
        other_protocol,
        other_direction,
        other_local,
        other_remote,
    ) {
        lemma_zero_separated(a, b);
        assert(a[0] == b[0] && a[1] == b[1] && a[2] == b[2] && a[3] == b[3]);
    }
}

proof fn lemma_direction_names(direction: Direction)
    ensures
        !direction.name().contains('\0'),
        forall|other: Direction| #[trigger] other.name() == direction.name() ==> other == direction,
{
    reveal_strlit("inbound");
    reveal_strlit("outbound");
    reveal_strlit("unknown");
    assert("inbound"@.len() == 7 && "outbound"@.len() == 8 && "unknown"@.len() == 7);
    assert("inbound"@[0] != "unknown"@[0]);
}

/// What came of an attempt to check a circuit.
pub enum ProbeReply {
    /// There was nothing to try.
    NotRun,
    /// The endpoint could not be understood.
    BadEndpoint(String),
    Connected,
    NotConnected(String),
    Passed(String),
    Failed(String),
}

/// What came of a check, and when.
pub struct ProbeReport {
    pub reply: ProbeReply,
    pub at: Timestamp,
}

/// What has to be done to check a circuit.
pub enum ProbeAction {
    /// The circuit is ignored and keeps its state.
    Skip,
    Connect { endpoint: String, interface: Option<String> },
    Run { argv: Vec<String> },
    /// Nothing can be done from here.
    Nothing,
}

/// Whether an action is the one that checks a circuit.
pub open spec fn checks(action: ProbeAction, capability: CapabilityView) -> bool {
    if capability.validation == ValidationState::Ignored {
        action == ProbeAction::Skip
    } else {
        match capability.probe {
            ProbeView::Tcp { endpoint, interface } => action matches ProbeAction::Connect {
                endpoint: e,
                interface: i,
            } && e@ == endpoint && opt_text(i) == interface,
            ProbeView::Command { argv } => action matches ProbeAction::Run { argv: a } && texts(a@)
                == argv,
            _ => action == ProbeAction::Nothing,
        }
    }
}

/// What has to be done to check a circuit.
pub fn probe_action(capability: &Capability) -> (r: ProbeAction)
    ensures
        checks(r, capability@),
{
    if capability.validation == ValidationState::Ignored {
        return ProbeAction::Skip;
    }
    match &capability.probe {
        ProbeSpec::Tcp { endpoint, interface } => ProbeAction::Connect {
            endpoint: endpoint.clone(),
            interface: copy_option(interface),
        },
        ProbeSpec::Command { argv } => ProbeAction::Run { argv: crate::text::copy_texts(argv) },
        _ => ProbeAction::Nothing,
    }
}

/// Whether a reply is one that the check of a circuit can bring.
pub open spec fn answers(reply: ProbeReply, capability: CapabilityView) -> bool {
    capability.validation == ValidationState::Ignored || match capability.probe {
        ProbeView::Tcp { .. } => reply is BadEndpoint || reply is Connected || reply
            is NotConnected,
        ProbeView::Command { .. } => reply is Passed || reply is Failed,
        _ => reply is NotRun,
    }
}

/// The state and the detail that a check leaves.
pub open spec fn verdict(capability: CapabilityView, reply: ProbeReply) -> (
    ValidationState,
    Seq<char>,
) {
    match capability.probe {
        ProbeView::Tcp { endpoint, interface } => match reply {
            ProbeReply::BadEndpoint(error) => (
                ValidationState::Unverifiable,
                "unsupported endpoint: "@ + error@,
            ),
            ProbeReply::NotConnected(error) => (
                ValidationState::Lost,
                "TCP connection failed: "@ + error@,
            ),
            _ => (
                ValidationState::Preserved,
                match interface {
                    Some(name) => "TCP connection established via "@ + name,
                    None => "TCP connection established"@,
                },
            ),
        },
        ProbeView::Command { argv } => match reply {
            ProbeReply::Failed(detail) => (ValidationState::Lost, detail@),
            ProbeReply::Passed(detail) => (ValidationState::Preserved, detail@),
            _ => (ValidationState::Lost, Seq::empty()),
        },
        ProbeView::External { description } => (
            ValidationState::Unverifiable,
            "external probe required: "@ + description,
        ),
        ProbeView::Unknown => (
            ValidationState::Unverifiable,
            if capability.direction == Direction::Inbound {
                "an external paired probe is required for an inbound circuit"@
            } else {
                "no safe replay method is available for this connection"@
            },
        ),
    }
}

/// A circuit after a check.
pub open spec fn checked(
    capability: CapabilityView,
    reply: ProbeReply,
    at: Timestamp,
) -> CapabilityView {
    if capability.validation == ValidationState::Ignored {
        capability
    } else {
        let (validation, detail) = verdict(capability, reply);
        CapabilityView {
            validation,
            detail: Some(detail),
            last_checked_at: Some(at),
            ..capability
        }
    }
}

/// Records the result of a check in its circuit.
pub fn validate_capability(capability: &mut Capability, report: &ProbeReport)
    requires
        answers(report.reply, old(capability)@),
    ensures
        final(capability)@ == checked(old(capability)@, report.reply, report.at),
{
    if capability.validation == ValidationState::Ignored {
        return;
    }
    let (validation, detail) = match &capability.probe {
        ProbeSpec::Tcp { endpoint: _, interface } => match &report.reply {
            ProbeReply::BadEndpoint(error) => (
                ValidationState::Unverifiable,
                "unsupported endpoint: ".to_owned().concat(error.as_str()),
            ),
            ProbeReply::NotConnected(error) => (
                ValidationState::Lost,
                "TCP connection failed: ".to_owned().concat(error.as_str()),
            ),
            _ => (
                ValidationState::Preserved,
                match interface {
                    Some(name) => "TCP connection established via ".to_owned().concat(
                        name.as_str(),
                    ),
                    None => "TCP connection established".to_owned(),
                },
            ),
        },
        ProbeSpec::Command { argv: _ } => match &report.reply {
            ProbeReply::Passed(detail) => (ValidationState::Preserved, detail.clone()),
            ProbeReply::Failed(detail) => (ValidationState::Lost, detail.clone()),
            _ => (ValidationState::Lost, String::new()),
        },
        ProbeSpec::External { description } => (
            ValidationState::Unverifiable,
            "external probe required: ".to_owned().concat(description.as_str()),
        ),
        ProbeSpec::Unknown => (
            ValidationState::Unverifiable,
            if capability.direction == Direction::Inbound {
                "an external paired probe is required for an inbound circuit".to_owned()
            } else {
                "no safe replay method is available for this connection".to_owned()
            },
        ),
    };
    capability.validation = validation;
    capability.detail = Some(detail);
    capability.last_checked_at = Some(report.at);
}

/// The circuits after a check of each.
pub open spec fn all_checked(
    capabilities: Seq<CapabilityView>,
    reports: Seq<ProbeReport>,
) -> Seq<CapabilityView> {
    Seq::new(
        capabilities.len(),
        |i: int| checked(capabilities[i], reports[i].reply, reports[i].at),
    )
}

/// Records the results of a check of every circuit.
pub fn validate_capabilities(capabilities: &mut Vec<Capability>, reports: &Vec<ProbeReport>)
    requires
        reports.len() == old(capabilities).len(),
        forall|i: int|
            0 <= i < reports.len() ==> answers(
                (#[trigger] reports@[i]).reply,
                old(capabilities)@[i]@,
            ),
    ensures
        views(final(capabilities)@) == all_checked(views(old(capabilities)@), reports@),
{
    let ghost before = capabilities@;
    let mut i: usize = 0;
    while i < capabilities.len()
        invariant
            i <= capabilities.len(),
            reports.len() == capabilities.len(),
            before.len() == capabilities.len(),
            forall|k: int|
                0 <= k < reports.len() ==> answers((#[trigger] reports@[k]).reply, before[k]@),
            forall|k: int|
                0 <= k < i ==> (#[trigger] capabilities@[k])@ == checked(
                    before[k]@,
                    reports@[k].reply,
                    reports@[k].at,
                ),
            forall|k: int| i <= k < before.len() ==> #[trigger] capabilities@[k] == before[k],
        decreases capabilities.len() - i,
    {
        assert(answers(reports@[i as int].reply, before[i as int]@));
        validate_capability(&mut capabilities[i], &reports[i]);
        i += 1;
    }
    assert(views(capabilities@) =~= all_checked(views(before), reports@));
}

/// A check never finds an inbound circuit that was merely observed, or one with an external
/// probe, to be preserved: nothing on this host can show that.
pub proof fn law_unprobed_is_never_preserved(
    capability: CapabilityView,
    reply: ProbeReply,
    at: Timestamp,
)
    requires
        capability.probe is External || capability.probe is Unknown,
    ensures
        checked(capability, reply, at).validation != ValidationState::Preserved,
{
}

/// A check leaves an ignored circuit as it is, and of any other it changes nothing but the state,
/// the detail and the time of the check.
pub proof fn law_check_changes_only_the_verdict(
    capability: CapabilityView,
    reply: ProbeReply,
    at: Timestamp,
)
    ensures
        capability.validation == ValidationState::Ignored ==> checked(capability, reply, at)
            == capability,
        checked(capability, reply, at) == (CapabilityView {
            validation: checked(capability, reply, at).validation,
            detail: checked(capability, reply, at).detail,
            last_checked_at: checked(capability, reply, at).last_checked_at,
            ..capability
        }),
        capability.validation != ValidationState::Ignored ==> checked(
            capability,
            reply,
            at,
        ).last_checked_at == Some(at),
{
}

/// A check asks for what its circuit says: a connection to the endpoint, through the interface if
/// there is one, or a run of the command, word by word. An ignored circuit is left alone, and where
/// nothing on this host can tell, nothing is tried.
pub proof fn law_checks_try_what_the_circuit_says(action: ProbeAction, capability: CapabilityView)
    requires
        checks(action, capability),
    ensures
        capability.validation == ValidationState::Ignored <==> action is Skip,
        capability.validation != ValidationState::Ignored ==> {
            &&& capability.probe is Tcp <==> action is Connect
            &&& capability.probe is Command <==> action is Run
            &&& (capability.probe is External || capability.probe is Unknown) <==> action is Nothing
        },
        action matches ProbeAction::Connect { endpoint, interface } ==> capability.probe
            == (ProbeView::Tcp { endpoint: endpoint@, interface: opt_text(interface) }),
        action matches ProbeAction::Run { argv } ==> capability.probe == (ProbeView::Command {
            argv: texts(argv@),
        }),
{
}

/// Whatever a check can bring is taken: of a connection that it was made, that it was not or that
/// there is no such endpoint, of a command that it passed or failed, and of a circuit that cannot
/// be tried that it was not.
pub proof fn law_every_reply_is_taken(capability: CapabilityView, reply: ProbeReply)
    requires
        match reply {
            ProbeReply::NotRun => capability.probe is External || capability.probe is Unknown,
            ProbeReply::BadEndpoint(_) => capability.probe is Tcp,
            ProbeReply::Connected => capability.probe is Tcp,
            ProbeReply::NotConnected(_) => capability.probe is Tcp,
            ProbeReply::Passed(_) => capability.probe is Command,
            ProbeReply::Failed(_) => capability.probe is Command,
        } || capability.validation == ValidationState::Ignored,
    ensures
        answers(reply, capability),
{
}

/// A check judges a circuit by the reply and by nothing else. One that is not ignored is preserved
/// exactly if a connection was made or a command passed; it is lost exactly if the connection or
/// the command failed; and otherwise nothing could be told, which is no success either. What the
/// attempt said is kept for the report, with the time of the check. Each circuit is judged by its
/// own reply, whatever came of the others.
pub proof fn law_checks_judge_by_the_reply(
    capabilities: Seq<CapabilityView>,
    reports: Seq<ProbeReport>,
    i: int,
)
    requires
        0 <= i < capabilities.len(),
        reports.len() == capabilities.len(),
        answers(reports[i].reply, capabilities[i]),
    ensures
        all_checked(capabilities, reports).len() == capabilities.len(),
        ({
            let before = capabilities[i];
            let after = all_checked(capabilities, reports)[i];
            let reply = reports[i].reply;
            if before.validation == ValidationState::Ignored {
                after == before
            } else {
                &&& after.validation == ValidationState::Preserved <==> reply is Connected || reply
                    is Passed
                &&& after.validation == ValidationState::Lost <==> reply is NotConnected || reply
                    is Failed
                &&& after.validation == ValidationState::Unverifiable <==> reply is BadEndpoint
                    || reply is NotRun
                &&& after.last_checked_at == Some(reports[i].at)
                &&& after.detail is Some
                &&& reply matches ProbeReply::Passed(said) ==> after.detail == Some(said@)
                &&& reply matches ProbeReply::Failed(said) ==> after.detail == Some(said@)
                &&& reply matches ProbeReply::NotConnected(said) ==> ends_with(
                    after.detail->Some_0,
                    said@,
                )
                &&& reply matches ProbeReply::BadEndpoint(said) ==> ends_with(
                    after.detail->Some_0,
                    said@,
                )
                &&& before.probe matches ProbeView::External { description } ==> ends_with(
                    after.detail->Some_0,
                    description,
                )
                &&& after.id == before.id
                &&& after.name == before.name
                &&& after.protocol == before.protocol
                &&& after.direction == before.direction
                &&& after.local == before.local
                &&& after.remote == before.remote
                &&& after.process == before.process
                &&& after.probe == before.probe
                &&& after.required == before.required
            }
        }),
{
    let before = capabilities[i];
    match (before.probe, reports[i].reply) {
        (ProbeView::Tcp { .. }, ProbeReply::NotConnected(said)) => {
            lemma_ends_with("TCP connection failed: "@, said@);
        },
        (ProbeView::Tcp { .. }, ProbeReply::BadEndpoint(said)) => {
            lemma_ends_with("unsupported endpoint: "@, said@);
        },
        (ProbeView::External { description }, _) => {
            lemma_ends_with("external probe required: "@, description);
        },
        _ => {},
    }
}

/// Whether a text ends with another.
pub open spec fn ends_with(s: Seq<char>, end: Seq<char>) -> bool {
    end.len() <= s.len() && s.skip(s.len() - end.len()) == end
}

proof fn lemma_ends_with(front: Seq<char>, end: Seq<char>)
    ensures
        ends_with(front + end, end),
{
    assert((front + end).skip(front.len() as int) =~= end);
}

/// Whether circuits are found by themselves on a system.
pub open spec fn capture_support(host: Host) -> Seq<char> {
    if host == Host::Linux || host == Host::MacOs {
        "automatic TCP baseline capture is available"@
    } else {
        "automatic TCP baseline capture is unavailable; add circuits explicitly"@
    }
}

pub fn describe_capture_support(host: Host) -> (r: &'static str)
    ensures
        r@ == capture_support(host),
{
    if host == Host::Linux || host == Host::MacOs {
        "automatic TCP baseline capture is available"
    } else {
        "automatic TCP baseline capture is unavailable; add circuits explicitly"
    }
}

/// The kinds of errors that an attempt to connect can end with, as `std::io::ErrorKind` names them.
#[derive(Debug, Clone, Copy, PartialEq, Eq, Structural)]
pub enum ProbeError {
    NotFound,
    PermissionDenied,
    ConnectionRefused,
    ConnectionReset,
    HostUnreachable,
    NetworkUnreachable,
    ConnectionAborted,
    NotConnected,
    AddrInUse,
    AddrNotAvailable,
    NetworkDown,
    BrokenPipe,
    AlreadyExists,
    WouldBlock,
    InvalidInput,
    InvalidData,
    TimedOut,
    WriteZero,
    ResourceBusy,
    Interrupted,
    Unsupported,
    UnexpectedEof,
    OutOfMemory,
    Other,
}

/// Whether a failure says something about the connection rather than about the attempt.
pub open spec fn is_connectivity(error: ProbeError) -> bool {
    ||| error == ProbeError::TimedOut
    ||| error == ProbeError::ConnectionRefused
    ||| error == ProbeError::ConnectionReset
    ||| error == ProbeError::NotConnected
    ||| error == ProbeError::AddrNotAvailable
}

pub fn probe_error_is_connectivity(error: &ProbeError) -> (r: bool)
    ensures
        r == is_connectivity(*error),
{
    matches!(
        error,
        ProbeError::TimedOut
        | ProbeError::ConnectionRefused
        | ProbeError::ConnectionReset
        | ProbeError::NotConnected
        | ProbeError::AddrNotAvailable
    )
}

/// An address and a port.
#[derive(Debug, Clone, Copy)]
pub enum SocketAddress {
    V4 { octets: [u8; 4], port: u16 },
    V6 { bytes: [u8; 16], port: u16 },
}

impl SocketAddress {
    pub open spec fn port_number(self) -> u16 {
        match self {
            SocketAddress::V4 { octets, port } => port,
            SocketAddress::V6 { bytes, port } => port,
        }
    }

    pub fn port(&self) -> (r: u16)
        ensures
            r == self.port_number(),
    {
        match self {
            SocketAddress::V4 { octets: _, port } => *port,
            SocketAddress::V6 { bytes: _, port } => *port,
        }
    }
}

/// A version 4 address and port in the usual notation.
pub open spec fn v4_notation(octets: Seq<u8>, port: u16) -> Seq<char> {
    decimal(octets[0] as nat) + "."@ + decimal(octets[1] as nat) + "."@ + decimal(
        octets[2] as nat,
    ) + "."@ + decimal(octets[3] as nat) + ":"@ + decimal(port as nat)
}

impl SocketAddress {
    /// The usual notation of a version 4 address and its port.
    pub fn v4_text(&self) -> (r: Option<String>)
        ensures
            match *self {
                SocketAddress::V4 { octets, port } => opt_text(r) == Some(
                    v4_notation(octets@, port),
                ),
                SocketAddress::V6 { .. } => r is None,
            },
    {
        match self {
            SocketAddress::V4 { octets, port } => Some(
                number_text(octets[0] as u64).concat(".").concat(
                    number_text(octets[1] as u64).as_str(),
                ).concat(".").concat(number_text(octets[2] as u64).as_str()).concat(".").concat(
                    number_text(octets[3] as u64).as_str(),
                ).concat(":").concat(number_text(*port as u64).as_str()),
            ),
            SocketAddress::V6 { .. } => None,
        }
    }
}

/// The octets of a version 4 address, which the kernel writes as one hexadecimal number whose
/// lowest byte comes first.
pub open spec fn kernel_v4(number: nat) -> Seq<u8> {
    seq![
        (number % 256) as u8,
        (number / 256 % 256) as u8,
        (number / 65_536 % 256) as u8,
        (number / 16_777_216) as u8,
    ]
}

/// The octets of a version 6 address, which the kernel writes as words of four bytes, the lowest
/// byte of each first. Bytes after the sixteenth, and a rest that fills no word, do not count;
/// missing words are zero.
pub open spec fn kernel_v6(bytes: Seq<u8>) -> Seq<u8> {
    Seq::new(
        16,
        |i: int|
            if i / 4 * 4 + 4 <= bytes.len() {
                bytes[i / 4 * 4 + 3 - i % 4]
            } else {
                0u8
            },
    )
}

/// The octets of a version 4 address are the bytes of the number that the kernel wrote, the lowest
/// one first: put together again they give the number.
pub proof fn law_kernel_octets_make_the_number(number: nat)
    requires
        number < 4_294_967_296,
    ensures
        kernel_v4(number).len() == 4,
        number == kernel_v4(number)[0] + 256 * kernel_v4(number)[1] + 65_536 * kernel_v4(number)[2]
            + 16_777_216 * kernel_v4(number)[3],
{
}

/// Reading a version 6 address turns the bytes of each word around and moves none to another word.
pub proof fn law_kernel_words_are_turned_around(bytes: Seq<u8>)
    requires
        bytes.len() == 16,
    ensures
        kernel_v6(bytes) == bytes.subrange(0, 4).reverse() + bytes.subrange(4, 8).reverse()
            + bytes.subrange(8, 12).reverse() + bytes.subrange(12, 16).reverse(),
{
    let once = kernel_v6(bytes);
    assert(once[0] == bytes[3]);
    assert(once[1] == bytes[2]);
    assert(once[2] == bytes[1]);
    assert(once[3] == bytes[0]);
    assert(once[4] == bytes[7]);
    assert(once[5] == bytes[6]);
    assert(once[6] == bytes[5]);
    assert(once[7] == bytes[4]);
    assert(once[8] == bytes[11]);
    assert(once[9] == bytes[10]);
    assert(once[10] == bytes[9]);
    assert(once[11] == bytes[8]);
    assert(once[12] == bytes[15]);
    assert(once[13] == bytes[14]);
    assert(once[14] == bytes[13]);
    assert(once[15] == bytes[12]);
    assert(once =~= bytes.subrange(0, 4).reverse() + bytes.subrange(4, 8).reverse()
        + bytes.subrange(8, 12).reverse() + bytes.subrange(12, 16).reverse());
}

/// Whether an address is the one that the kernel wrote as `value`.
pub open spec fn is_kernel_address(value: Seq<char>, ipv6: bool, address: SocketAddress) -> bool {
    match split_first(value, ':') {
        None => false,
        Some((host, port)) => unsigned(port, 16, 65_535) == Some(address.port_number() as nat) && (
        if ipv6 {
            is_hex(host) && (address matches SocketAddress::V6 { bytes, .. } && bytes@
                == kernel_v6(hex_bytes(host)))
        } else {
            match unsigned(host, 16, 4_294_967_295) {
                Some(number) => address matches SocketAddress::V4 { octets, .. } && octets@
                    == kernel_v4(number),
                None => false,
            }
        }),
    }
}

/// Whether a text is an address as the kernel writes it.
pub open spec fn has_kernel_address(value: Seq<char>, ipv6: bool) -> bool {
    match split_first(value, ':') {
        None => false,
        Some((host, port)) => unsigned(port, 16, 65_535) is Some && (if ipv6 {
            is_hex(host)
        } else {
            unsigned(host, 16, 4_294_967_295) is Some
        }),
    }
}

/// Reads an address as the kernel lists it.
pub fn parse_proc_address(value: &str, ipv6: bool) -> (r: Option<SocketAddress>)
    ensures
        r is Some <==> has_kernel_address(value@, ipv6),
        r matches Some(address) ==> is_kernel_address(value@, ipv6, address),
{
    let (host, port_text) = match split_once(value, ':') {
        Some(pair) => pair,
        None => return None,
    };
    let port = match parse_unsigned(port_text.as_str(), 16, 65_535) {
        Some(port) => port as u16,
        None => return None,
    };
    if ipv6 {
        let bytes = match hex_decode(host.as_str()) {
            Some(bytes) => bytes,
            None => return None,
        };
        let mut octets: [u8; 16] = [0u8, 0, 0, 0, 0, 0, 0, 0, 0, 0, 0, 0, 0, 0, 0, 0];
        let mut i: usize = 0;
        while i < 16
            invariant
                i <= 16,
                forall|k: int| 0 <= k < i ==> octets@[k] == kernel_v6(bytes@)[k],
            decreases 16 - i,
        {
            let word = i / 4 * 4;
            if word <= bytes.len() && bytes.len() - word >= 4 {
                octets[i] = bytes[word + 3 - i % 4];
            } else {
                octets[i] = 0u8;
            }
            i += 1;
        }
        assert(octets@ =~= kernel_v6(bytes@));
        Some(SocketAddress::V6 { bytes: octets, port })
    } else {
        let number = match parse_unsigned(host.as_str(), 16, 4_294_967_295) {
            Some(number) => number,
            None => return None,
        };
        let octets: [u8; 4] = [
            (number % 256) as u8,
            (number / 256 % 256) as u8,
            (number / 65_536 % 256) as u8,
            (number / 16_777_216) as u8,
        ];
        assert(octets@ =~= kernel_v4(number as nat));
        Some(SocketAddress::V4 { octets, port })
    }
}

/// One line of the kernel's list of TCP sockets.
pub struct ProcSocket {
    pub local: SocketAddress,
    pub remote: SocketAddress,
    pub state: u8,
}

/// Whether a line is read at all.
pub open spec fn is_socket_line(line: Seq<char>) -> bool {
    words(line).len() >= 4
}

/// Whether the fields of a line can be read.
pub open spec fn reads_socket(line: Seq<char>, ipv6: bool) -> bool {
    let fields = words(line);
    has_kernel_address(fields[1], ipv6) && has_kernel_address(fields[2], ipv6) && unsigned(
        fields[3],
        16,
        255,
    ) is Some
}

/// Whether a socket is the one that a line lists.
pub open spec fn is_listed_socket(line: Seq<char>, ipv6: bool, socket: ProcSocket) -> bool {
    let fields = words(line);
    is_kernel_address(fields[1], ipv6, socket.local) && is_kernel_address(
        fields[2],
        ipv6,
        socket.remote,
    ) && unsigned(fields[3], 16, 255) == Some(socket.state as nat)
}

/// The lines that list a socket, in order.
pub open spec fn socket_lines(all: Seq<Seq<char>>) -> Seq<Seq<char>>
    decreases all.len(),
{
    if all.len() == 0 {
        Seq::empty()
    } else {
        let before = socket_lines(all.drop_last());
        if is_socket_line(all.last()) {
            before.push(all.last())
        } else {
            before
        }
    }
}

/// The lines of the kernel's list that list a socket; the first line is a heading.
pub open spec fn proc_lines(contents: Seq<char>) -> Seq<Seq<char>> {
    let all = lines(contents);
    if all.len() == 0 {
        Seq::empty()
    } else {
        socket_lines(all.skip(1))
    }
}

/// Reads the kernel's list of TCP sockets. One line that cannot be read spoils the list.
pub fn parse_proc_tcp(contents: &str, ipv6: bool) -> (r: Option<Vec<ProcSocket>>)
    ensures
        r is Some <==> forall|i: int|
            0 <= i < proc_lines(contents@).len() ==> reads_socket(
                #[trigger] proc_lines(contents@)[i],
                ipv6,
            ),
        r matches Some(sockets) ==> sockets@.len() == proc_lines(contents@).len() && forall|i: int|
            0 <= i < sockets@.len() ==> is_listed_socket(
                proc_lines(contents@)[i],
                ipv6,
                #[trigger] sockets@[i],
            ),
{
    let all = split_lines(contents);
    let ghost every = texts(all@);
    let ghost rest: Seq<Seq<char>> = if every.len() == 0 {
        Seq::empty()
    } else {
        every.skip(1)
    };
    let mut sockets: Vec<ProcSocket> = Vec::new();
    let mut i: usize = 1;
    while i < all.len()
        invariant
            1 <= i,
            i <= all.len() || (all.len() == 0 && i == 1),
            every == texts(all@),
            every == lines(contents@),
            rest == (if every.len() == 0 {
                Seq::<Seq<char>>::empty()
            } else {
                every.skip(1)
            }),
            sockets@.len() == socket_lines(rest.take(i - 1)).len(),
            forall|k: int|
                0 <= k < sockets@.len() ==> is_listed_socket(
                    socket_lines(rest.take(i - 1))[k],
                    ipv6,
                    #[trigger] sockets@[k],
                ) && reads_socket(socket_lines(rest.take(i - 1))[k], ipv6),
        decreases all.len() - i,
    {
        let ghost before = socket_lines(rest.take(i - 1));
        proof {
            assert(rest.take(i as int).drop_last() =~= rest.take(i - 1));
            assert(rest.take(i as int).last() == all@[i as int]@);
        }
        let fields = split_words(all[i].as_str());
        assert(texts(fields@) == words(all@[i as int]@));
        if fields.len() >= 4 {
            assert(texts(fields@)[1] == fields@[1]@);
            assert(texts(fields@)[2] == fields@[2]@);
            assert(texts(fields@)[3] == fields@[3]@);
            let ghost spoiled = before.push(all@[i as int]@);
            assert(socket_lines(rest.take(i as int)) == spoiled);
            let local = parse_proc_address(fields[1].as_str(), ipv6);
            let remote = parse_proc_address(fields[2].as_str(), ipv6);
            let state = parse_unsigned(fields[3].as_str(), 16, 255);
            match (local, remote, state) {
                (Some(local), Some(remote), Some(state)) => {
                    sockets.push(ProcSocket { local, remote, state: state as u8 });
                },
                _ => {
                    proof {
                        lemma_socket_lines_grow(rest, i as int);
                        assert(rest.len() == every.len() - 1);
                        assert(rest.take(rest.len() as int) =~= rest);
                        assert(proc_lines(contents@)[before.len() as int] == all@[i as int]@);
                    }
                    return None;
                },
            }
        }
        i += 1;
    }
    proof {
        if every.len() > 0 {
            assert(rest.take(i - 1) =~= rest);
        } else {
            assert(rest.take(0) =~= rest);
        }
        assert forall|k: int| 0 <= k < proc_lines(contents@).len() implies reads_socket(
            #[trigger] proc_lines(contents@)[k],
            ipv6,
        ) by {
            assert(is_listed_socket(proc_lines(contents@)[k], ipv6, sockets@[k]));
        }
    }
    Some(sockets)
}

proof fn lemma_socket_lines_grow(all: Seq<Seq<char>>, n: int)
    requires
        0 <= n <= all.len(),
    ensures
        socket_lines(all.take(n)).len() <= socket_lines(all).len(),
        forall|i: int|
            0 <= i < socket_lines(all.take(n)).len() ==> socket_lines(all)[i] == socket_lines(
                all.take(n),
            )[i],
    decreases all.len() - n,
{
    if n == all.len() {
        assert(all.take(n) =~= all);
    } else {
        assert(all.take(n + 1).drop_last() =~= all.take(n));
        lemma_socket_lines_grow(all, n + 1);
    }
}

/// What a TCP socket is doing.
#[derive(Debug, Clone, Copy, PartialEq, Eq, Structural)]
pub enum SocketState {
    Listening,
    Established,
    Other,
}

/// The state that the kernel writes as a number.
pub fn proc_state(state: u8) -> (r: SocketState)
    ensures
        r == if state == 0x0a {
            SocketState::Listening
        } else if state == 0x01 {
            SocketState::Established
        } else {
            SocketState::Other
        },
{
    if state == 0x0a {
        SocketState::Listening
    } else if state == 0x01 {
        SocketState::Established
    } else {
        SocketState::Other
    }
}

/// A TCP socket of the host, its addresses in text form.
pub struct ObservedSocket {
    pub port: u16,
    pub local: String,
    pub remote: Option<String>,
    pub state: SocketState,
}

pub struct ObservedSocketView {
    pub port: u16,
    pub local: Seq<char>,
    pub remote: Option<Seq<char>>,
    pub state: SocketState,
}

impl View for ObservedSocket {
    type V = ObservedSocketView;

    open spec fn view(&self) -> ObservedSocketView {
        ObservedSocketView {
            port: self.port,
            local: self.local@,
            remote: opt_text(self.remote),
            state: self.state,
        }
    }
}

/// Whether the host accepts connections on a port.
pub open spec fn listens(sockets: Seq<ObservedSocketView>, port: u16) -> bool {
    exists|i: int|
        0 <= i < sockets.len() && (#[trigger] sockets[i]).state == SocketState::Listening
            && sockets[i].port == port
}

/// A connection is inbound if the host accepts connections on its local port.
pub open spec fn observed_direction(sockets: Seq<ObservedSocketView>, port: u16) -> Direction {
    if listens(sockets, port) {
        Direction::Inbound
    } else {
        Direction::Outbound
    }
}

/// What sets a connection apart from the others.
pub open spec fn connection_key(
    direction: Direction,
    local: Seq<char>,
    remote: Seq<char>,
) -> Seq<char> {
    direction.name() + ":"@ + local + ":"@ + remote
}

/// The circuit that an established connection stands for.
pub open spec fn observed_capability(
    direction: Direction,
    local: Seq<char>,
    remote: Seq<char>,
) -> CapabilityView {
    CapabilityView {
        id: capability_key("tcp"@, direction, local, remote),
        name: None,
        protocol: "tcp"@,
        direction,
        local,
        remote,
        process: None,
        probe: if direction == Direction::Outbound {
            ProbeView::Tcp { endpoint: remote, interface: None }
        } else {
            ProbeView::External { description: "reconnect from the original client"@ }
        },
        required: true,
        validation: ValidationState::Pending,
        detail: Some("automatically observed established TCP connection"@),
        last_checked_at: None,
    }
}

/// Whether a circuit for the same connection is in a list.
pub open spec fn has_connection(list: Seq<CapabilityView>, key: Seq<char>) -> bool {
    exists|i: int|
        0 <= i < list.len() && connection_key(
            (#[trigger] list[i]).direction,
            list[i].local,
            list[i].remote,
        ) == key
}

/// The circuits of the established connections among the first sockets, one for each connection.
pub open spec fn observed(
    sockets: Seq<ObservedSocketView>,
    first: Seq<ObservedSocketView>,
) -> Seq<CapabilityView>
    decreases first.len(),
{
    if first.len() == 0 {
        Seq::empty()
    } else {
        let before = observed(sockets, first.drop_last());
        let socket = first.last();
        match socket.remote {
            Some(remote) if socket.state == SocketState::Established => {
                let direction = observed_direction(sockets, socket.port);
                if has_connection(before, connection_key(direction, socket.local, remote)) {
                    before
                } else {
                    before.push(observed_capability(direction, socket.local, remote))
                }
            },
            _ => before,
        }
    }
}

/// Whether a socket is an established connection between two addresses.
pub open spec fn is_connection(
    socket: ObservedSocketView,
    local: Seq<char>,
    remote: Seq<char>,
) -> bool {
    &&& socket.state == SocketState::Established
    &&& socket.local == local
    &&& socket.remote == Some(remote)
}

/// Whether no two connections of the host are written alike when their addresses are put side by
/// side with a colon between them. Addresses with their ports never are.
pub open spec fn are_told_apart(sockets: Seq<ObservedSocketView>) -> bool {
    forall|i: int, j: int|
        0 <= i < sockets.len() && 0 <= j < sockets.len() && (#[trigger] sockets[i]).remote is Some
            && (#[trigger] sockets[j]).remote is Some && sockets[i].state
            == SocketState::Established && sockets[j].state == SocketState::Established
            && sockets[i].local + ":"@
            + sockets[i].remote->Some_0 == sockets[j].local + ":"@ + sockets[j].remote->Some_0
            ==> sockets[i].local == sockets[j].local && sockets[i].remote == sockets[j].remote
}

/// Whether some socket of the host accepts connections on a port.
pub open spec fn accepts_on(sockets: Seq<ObservedSocketView>, port: u16) -> bool {
    exists|i: int|
        0 <= i < sockets.len() && (#[trigger] sockets[i]).state == SocketState::Listening
            && sockets[i].port == port
}

/// Whether a circuit stands for a connection of the host in the way that it can be checked: one
/// that was made from here by connecting to its remote end again, without an interface, and one
/// that came in only from the other side.
pub open spec fn stands_for(
    sockets: Seq<ObservedSocketView>,
    socket: ObservedSocketView,
    circuit: CapabilityView,
) -> bool {
    &&& is_connection(socket, circuit.local, circuit.remote)
    &&& circuit.direction == Direction::Inbound <==> accepts_on(sockets, socket.port)
    &&& circuit.direction == Direction::Outbound <==> !accepts_on(sockets, socket.port)
    &&& circuit.direction == Direction::Outbound ==> circuit.probe == (ProbeView::Tcp {
        endpoint: socket.remote->Some_0,
        interface: None,
    })
    &&& circuit.direction == Direction::Inbound ==> circuit.probe is External
    &&& circuit.required
    &&& circuit.validation == ValidationState::Pending
    &&& circuit.last_checked_at is None
    &&& circuit.protocol == "tcp"@
    &&& circuit.id == capability_key("tcp"@, circuit.direction, circuit.local, circuit.remote)
}

proof fn lemma_keys_apart(
    direction: Direction,
    local: Seq<char>,
    remote: Seq<char>,
    other_direction: Direction,
    other_local: Seq<char>,
    other_remote: Seq<char>,
)
    requires
        connection_key(direction, local, remote) == connection_key(
            other_direction,
            other_local,
            other_remote,
        ),
        direction != Direction::Unknown,
        other_direction != Direction::Unknown,
    ensures
        direction == other_direction,
        local + ":"@ + remote == other_local + ":"@ + other_remote,
{
    reveal_strlit("inbound");
    reveal_strlit("outbound");
    let a = connection_key(direction, local, remote);
    let b = connection_key(other_direction, other_local, other_remote);
    if direction != other_direction {
        assert(a[0] == direction.name()[0]);
        assert(b[0] == other_direction.name()[0]);
        assert("inbound"@[0] != "outbound"@[0]);
    }
    let n = direction.name().len() as int + ":"@.len() as int;
    assert(a.skip(n) =~= local + ":"@ + remote);
    assert(b.skip(n) =~= other_local + ":"@ + other_remote);
}

proof fn lemma_observed(sockets: Seq<ObservedSocketView>, first: Seq<ObservedSocketView>)
    requires
        first.len() <= sockets.len(),
        forall|i: int| 0 <= i < first.len() ==> #[trigger] first[i] == sockets[i],
    ensures
        forall|k: int|
            0 <= k < observed(sockets, first).len() ==> exists|i: int|
                0 <= i < first.len() && stands_for(
                    sockets,
                    #[trigger] sockets[i],
                    #[trigger] observed(sockets, first)[k],
                ),
        forall|i: int|
            0 <= i < first.len() && (#[trigger] sockets[i]).state == SocketState::Established
                && sockets[i].remote is Some ==> has_connection(
                observed(sockets, first),
                connection_key(
                    observed_direction(sockets, sockets[i].port),
                    sockets[i].local,
                    sockets[i].remote->Some_0,
                ),
            ),
        forall|j: int, k: int|
            0 <= j < k < observed(sockets, first).len() ==> {
                let a = #[trigger] observed(sockets, first)[j];
                let b = #[trigger] observed(sockets, first)[k];
                connection_key(a.direction, a.local, a.remote) != connection_key(
                    b.direction,
                    b.local,
                    b.remote,
                )
            },
    decreases first.len(),
{
    let now = observed(sockets, first);
    if first.len() > 0 {
        let shorter = first.drop_last();
        let before = observed(sockets, shorter);
        let n = first.len() - 1;
        let socket = sockets[n];
        assert(first.last() == socket);
        assert forall|i: int| 0 <= i < shorter.len() implies #[trigger] shorter[i]
            == sockets[i] by {
            assert(first[i] == sockets[i]);
        }
        lemma_observed(sockets, shorter);
        assert(accepts_on(sockets, socket.port) == listens(sockets, socket.port));
        assert forall|k: int| 0 <= k < now.len() implies exists|i: int|
            0 <= i < first.len() && stands_for(
                sockets,
                #[trigger] sockets[i],
                #[trigger] now[k],
            ) by {
            if k < before.len() {
                assert(now[k] == before[k]);
                let i = choose|i: int|
                    0 <= i < shorter.len() && stands_for(
                        sockets,
                        #[trigger] sockets[i],
                        before[k],
                    );
                assert(stands_for(sockets, sockets[i], now[k]));
            } else {
                assert(stands_for(sockets, sockets[n], now[k]));
            }
        }
        assert forall|i: int|
            0 <= i < first.len() && (#[trigger] sockets[i]).state == SocketState::Established
                && sockets[i].remote is Some implies has_connection(
            now,
            connection_key(
                observed_direction(sockets, sockets[i].port),
                sockets[i].local,
                sockets[i].remote->Some_0,
            ),
        ) by {
            let key = connection_key(
                observed_direction(sockets, sockets[i].port),
                sockets[i].local,
                sockets[i].remote->Some_0,
            );
            if has_connection(before, key) {
                let k = choose|k: int|
                    0 <= k < before.len() && connection_key(
                        (#[trigger] before[k]).direction,
                        before[k].local,
                        before[k].remote,
                    ) == key;
                assert(now[k] == before[k]);
            } else {
                assert(i == n);
                assert(now[before.len() as int].local == socket.local);
            }
        }
        assert forall|j: int, k: int| 0 <= j < k < now.len() implies {
            let a = #[trigger] now[j];
            let b = #[trigger] now[k];
            connection_key(a.direction, a.local, a.remote) != connection_key(
                b.direction,
                b.local,
                b.remote,
            )
        } by {
            assert(now[j] == before[j]);
            if k < before.len() {
                assert(now[k] == before[k]);
            }
        }
    }
}

/// Every circuit of a host is that of an established connection: one that was made from here is
/// checked by a connection to its remote end, and one that came in only from the other side.
pub proof fn law_circuits_are_connections(
    sockets: Seq<ObservedSocketView>,
    k: int,
    action: ProbeAction,
)
    requires
        0 <= k < observed(sockets, sockets).len(),
        checks(action, observed(sockets, sockets)[k]),
    ensures
        ({
            let circuit = observed(sockets, sockets)[k];
            &&& exists|i: int|
                0 <= i < sockets.len() && stands_for(sockets, #[trigger] sockets[i], circuit)
            &&& circuit.direction == Direction::Outbound ==> (action matches ProbeAction::Connect {
                endpoint,
                interface,
            } && endpoint@ == circuit.remote && interface is None)
            &&& circuit.direction != Direction::Outbound ==> action is Nothing
        }),
{
    let i = lemma_origin(sockets, k);
    assert(stands_for(sockets, sockets[i], observed(sockets, sockets)[k]));
}

/// Every established connection of a host has a circuit: one that was made from here has one whose
/// check asks for a connection to its remote end.
pub proof fn law_connections_are_checked_at_their_remote_end(
    sockets: Seq<ObservedSocketView>,
    i: int,
)
    requires
        are_told_apart(sockets),
        0 <= i < sockets.len(),
        sockets[i].state == SocketState::Established,
        sockets[i].remote is Some,
    ensures
        exists|k: int|
            0 <= k < observed(sockets, sockets).len() && stands_for(
                sockets,
                sockets[i],
                #[trigger] observed(sockets, sockets)[k],
            ),
{
    let all = observed(sockets, sockets);
    let direction = observed_direction(sockets, sockets[i].port);
    let remote = sockets[i].remote->Some_0;
    let k = lemma_covered(sockets, i);
    let j = lemma_origin(sockets, k);
    lemma_keys_apart(
        all[k].direction,
        all[k].local,
        all[k].remote,
        direction,
        sockets[i].local,
        remote,
    );
    assert(sockets[j].local == sockets[i].local && sockets[j].remote == sockets[i].remote);
    assert(accepts_on(sockets, sockets[i].port) == listens(sockets, sockets[i].port));
    assert(stands_for(sockets, sockets[i], all[k]));
}

proof fn lemma_covered(sockets: Seq<ObservedSocketView>, i: int) -> (k: int)
    requires
        0 <= i < sockets.len(),
        sockets[i].state == SocketState::Established,
        sockets[i].remote is Some,
    ensures
        0 <= k < observed(sockets, sockets).len(),
        connection_key(
            observed(sockets, sockets)[k].direction,
            observed(sockets, sockets)[k].local,
            observed(sockets, sockets)[k].remote,
        ) == connection_key(
            observed_direction(sockets, sockets[i].port),
            sockets[i].local,
            sockets[i].remote->Some_0,
        ),
{
    let all = observed(sockets, sockets);
    lemma_observed(sockets, sockets);
    let key = connection_key(
        observed_direction(sockets, sockets[i].port),
        sockets[i].local,
        sockets[i].remote->Some_0,
    );
    assert(has_connection(all, key));
    choose|k: int|
        0 <= k < all.len() && connection_key(
            (#[trigger] all[k]).direction,
            all[k].local,
            all[k].remote,
        ) == key
}

proof fn lemma_origin(sockets: Seq<ObservedSocketView>, k: int) -> (i: int)
    requires
        0 <= k < observed(sockets, sockets).len(),
    ensures
        0 <= i < sockets.len(),
        stands_for(sockets, sockets[i], observed(sockets, sockets)[k]),
{
    lemma_observed(sockets, sockets);
    let circuit = observed(sockets, sockets)[k];
    choose|i: int| 0 <= i < sockets.len() && stands_for(sockets, #[trigger] sockets[i], circuit)
}

/// No connection has two circuits.
pub proof fn law_connections_have_one_circuit(sockets: Seq<ObservedSocketView>, j: int, k: int)
    requires
        0 <= j < k < observed(sockets, sockets).len(),
    ensures
        ({
            let a = observed(sockets, sockets)[j];
            let b = observed(sockets, sockets)[k];
            a.direction != b.direction || a.local != b.local || a.remote != b.remote
        }),
{
    lemma_observed(sockets, sockets);
}

fn is_listening(sockets: &Vec<ObservedSocket>, port: u16) -> (r: bool)
    ensures
        r == listens(views(sockets@), port),
{
    let mut i: usize = 0;
    while i < sockets.len()
        invariant
            i <= sockets.len(),
            forall|k: int|
                0 <= k < i ==> !((#[trigger] views(sockets@)[k]).state == SocketState::Listening
                    && views(sockets@)[k].port == port),
        decreases sockets.len() - i,
    {
        if sockets[i].state == SocketState::Listening && sockets[i].port == port {
            assert(views(sockets@)[i as int].port == port);
            return true;
        }
        i += 1;
    }
    false
}

/// The circuits of the established connections of the host, one for each connection.
pub fn observed_capabilities(sockets: &Vec<ObservedSocket>) -> (r: Vec<Capability>)
    ensures
        views(r@) == observed(views(sockets@), views(sockets@)),
{
    let mut r: Vec<Capability> = Vec::new();
    let mut seen: Vec<String> = Vec::new();
    let ghost all = views(sockets@);
    let mut i: usize = 0;
    assert(views(r@) =~= Seq::empty());
    while i < sockets.len()
        invariant
            i <= sockets.len(),
            all == views(sockets@),
            views(r@) == observed(all, all.take(i as int)),
            seen@.len() == r@.len(),
            forall|k: int|
                0 <= k < r@.len() ==> #[trigger] texts(seen@)[k] == connection_key(
                    views(r@)[k].direction,
                    views(r@)[k].local,
                    views(r@)[k].remote,
                ),
        decreases sockets.len() - i,
    {
        let ghost before = views(r@);
        let ghost keys = texts(seen@);
        let socket = &sockets[i];
        proof {
            assert(all.take(i + 1).drop_last() =~= all.take(i as int));
            assert(all.take(i + 1).last() == socket@);
        }
        if let Some(remote) = &socket.remote {
            if socket.state == SocketState::Established {
                let direction = if is_listening(sockets, socket.port) {
                    Direction::Inbound
                } else {
                    Direction::Outbound
                };
                let key = direction.label().to_owned().concat(":").concat(
                    socket.local.as_str(),
                ).concat(":").concat(remote.as_str());
                let known = contains_text(&seen, key.as_str());
                proof {
                    if known {
                        let k = choose|k: int| 0 <= k < keys.len() && keys[k] == key@;
                        assert(keys[k] == connection_key(
                            before[k].direction,
                            before[k].local,
                            before[k].remote,
                        ));
                        assert(has_connection(before, key@));
                    } else if has_connection(before, key@) {
                        let k = choose|k: int|
                            0 <= k < before.len() && connection_key(
                                (#[trigger] before[k]).direction,
                                before[k].local,
                                before[k].remote,
                            ) == key@;
                        assert(keys[k] == key@);
                    }
                }
                if !known {
                    let capability = Capability {
                        id: capability_id(
                            "tcp",
                            &direction,
                            socket.local.as_str(),
                            remote.as_str(),
                        ),
                        name: None,
                        protocol: "tcp".to_owned(),
                        direction,
                        local: socket.local.clone(),
                        remote: remote.clone(),
                        process: None,
                        probe: if direction == Direction::Outbound {
                            ProbeSpec::Tcp { endpoint: remote.clone(), interface: None }
                        } else {
                            ProbeSpec::External {
                                description: "reconnect from the original client".to_owned(),
                            }
                        },
                        required: true,
                        validation: ValidationState::Pending,
                        detail: Some(
                            "automatically observed established TCP connection".to_owned(),
                        ),
                        last_checked_at: None,
                    };
                    assert(capability@ == observed_capability(direction, socket.local@, remote@));
                    r.push(capability);
                    seen.push(key);
                    assert(views(r@) =~= before.push(capability@));
                    assert(texts(seen@) =~= keys.push(key@));
                    assert forall|k: int| 0 <= k < r@.len() implies #[trigger] texts(seen@)[k]
                        == connection_key(
                        views(r@)[k].direction,
                        views(r@)[k].local,
                        views(r@)[k].remote,
                    ) by {
                        if k < before.len() {
                            assert(texts(seen@)[k] == keys[k]);
                            assert(views(r@)[k] == before[k]);
                        }
                    }
                }
            }
        }
        i += 1;
    }
    assert(all.take(sockets.len() as int) =~= all);
    r
}

/// An endpoint as `netstat` prints it on macOS; no host stands for any.
pub struct NetstatEndpoint {
    pub host: Option<String>,
    pub port: u16,
}

pub struct NetstatEndpointView {
    pub host: Option<Seq<char>>,
    pub port: u16,
}

impl View for NetstatEndpoint {
    type V = NetstatEndpointView;

    open spec fn view(&self) -> NetstatEndpointView {
        NetstatEndpointView { host: opt_text(self.host), port: self.port }
    }
}

/// What an endpoint that `netstat` printed stands for: a host and a port with a dot between them.
pub open spec fn netstat_endpoint(value: Seq<char>) -> Option<NetstatEndpointView> {
    match split_last(value, '.') {
        None => None,
        Some((host, port)) => match unsigned(port, 10, 65_535) {
            None => None,
            Some(number) => Some(
                NetstatEndpointView {
                    host: if host == "*"@ {
                        None
                    } else {
                        Some(strip_back(strip_front(host, Margin::Brackets), Margin::Brackets))
                    },
                    port: number as u16,
                },
            ),
        },
    }
}

pub fn parse_macos_netstat_endpoint(value: &str) -> (r: Option<NetstatEndpoint>)
    ensures
        match r {
            Some(endpoint) => netstat_endpoint(value@) == Some(endpoint@),
            None => netstat_endpoint(value@) is None,
        },
{
    let (host, port_text) = match rsplit_once(value, '.') {
        Some(pair) => pair,
        None => return None,
    };
    let port = match parse_unsigned(port_text.as_str(), 10, 65_535) {
        Some(port) => port as u16,
        None => return None,
    };
    if same_text(host.as_str(), "*") {
        Some(NetstatEndpoint { host: None, port })
    } else {
        let front = trim_front(host.as_str(), Margin::Brackets);
        Some(
            NetstatEndpoint { host: Some(trim_back(front.as_str(), Margin::Brackets)), port },
        )
    }
}

/// A TCP line of `netstat`.
pub struct NetstatRow {
    pub local: NetstatEndpoint,
    pub remote: Option<NetstatEndpoint>,
    pub state: String,
}

pub struct NetstatRowView {
    pub local: NetstatEndpointView,
    pub remote: Option<NetstatEndpointView>,
    pub state: Seq<char>,
}

pub open spec fn endpoint_view(o: Option<NetstatEndpoint>) -> Option<NetstatEndpointView> {
    match o {
        Some(e) => Some(e@),
        None => None,
    }
}

impl View for NetstatRow {
    type V = NetstatRowView;

    open spec fn view(&self) -> NetstatRowView {
        NetstatRowView {
            local: self.local@,
            remote: endpoint_view(self.remote),
            state: self.state@,
        }
    }
}

/// The socket that a line of `netstat` lists, if it lists one.
pub open spec fn netstat_row(line: Seq<char>) -> Option<NetstatRowView> {
    let fields = words(line);
    if fields.len() < 6 || !has_prefix(fields[0], "tcp"@) {
        None
    } else {
        match netstat_endpoint(fields[3]) {
            None => None,
            Some(local) => Some(
                NetstatRowView {
                    local,
                    remote: netstat_endpoint(fields[4]),
                    state: fields[5],
                },
            ),
        }
    }
}

/// The sockets that lines of `netstat` list, in order.
pub open spec fn netstat_rows(all: Seq<Seq<char>>) -> Seq<NetstatRowView>
    decreases all.len(),
{
    if all.len() == 0 {
        Seq::empty()
    } else {
        let before = netstat_rows(all.drop_last());
        match netstat_row(all.last()) {
            Some(row) => before.push(row),
            None => before,
        }
    }
}

/// Reads what `netstat` printed on macOS. The hosts stay in the notation of `netstat`.
pub fn parse_macos_netstat_rows(contents: &str) -> (r: Vec<NetstatRow>)
    ensures
        views(r@) == netstat_rows(lines(contents@)),
{
    let all = split_lines(contents);
    let ghost every = texts(all@);
    let mut r: Vec<NetstatRow> = Vec::new();
    let mut i: usize = 0;
    assert(views(r@) =~= Seq::empty());
    while i < all.len()
        invariant
            i <= all.len(),
            every == texts(all@),
            views(r@) == netstat_rows(every.take(i as int)),
        decreases all.len() - i,
    {
        let ghost before = views(r@);
        proof {
            assert(every.take(i + 1).drop_last() =~= every.take(i as int));
            assert(every.take(i + 1).last() == all@[i as int]@);
        }
        let fields = split_words(all[i].as_str());
        assert(texts(fields@) == words(all@[i as int]@));
        if fields.len() >= 6 {
            assert(texts(fields@)[0] == fields@[0]@);
            assert(texts(fields@)[3] == fields@[3]@);
            assert(texts(fields@)[4] == fields@[4]@);
            assert(texts(fields@)[5] == fields@[5]@);
            if starts_with(fields[0].as_str(), "tcp") {
                if let Some(local) = parse_macos_netstat_endpoint(fields[3].as_str()) {
                    let row = NetstatRow {
                        local,
                        remote: parse_macos_netstat_endpoint(fields[4].as_str()),
                        state: fields[5].clone(),
                    };
                    assert(netstat_row(all@[i as int]@) == Some(row@));
                    r.push(row);
                    assert(views(r@) =~= before.push(row@));
                }
            }
        }
        i += 1;
    }
    assert(every.take(all.len() as int) =~= every);
    r
}

/// The state that `netstat` names.
pub open spec fn netstat_state(name: Seq<char>) -> SocketState {
    if name == "LISTEN"@ {
        SocketState::Listening
    } else if name == "ESTABLISHED"@ {
        SocketState::Established
    } else {
        SocketState::Other
    }
}

/// A line of `netstat` whose hosts have been read: the addresses in their usual notation, none
/// where a host is no address.
pub struct ResolvedRow {
    pub local: Option<String>,
    pub remote: Option<String>,
}

/// The sockets of the rows whose local address could be read.
pub open spec fn resolved_sockets(
    rows: Seq<NetstatRowView>,
    resolved: Seq<ResolvedRow>,
) -> Seq<ObservedSocketView>
    decreases rows.len(),
{
    if rows.len() == 0 {
        Seq::empty()
    } else {
        let before = resolved_sockets(rows.drop_last(), resolved);
        let row = rows.last();
        let addresses = resolved[rows.len() - 1];
        match addresses.local {
            None => before,
            Some(local) => before.push(
                ObservedSocketView {
                    port: row.local.port,
                    local: local@,
                    remote: if row.remote is Some {
                        opt_text(addresses.remote)
                    } else {
                        None
                    },
                    state: netstat_state(row.state),
                },
            ),
        }
    }
}

/// Every line of `netstat` whose local address could be read is a socket of the host, in order,
/// with what the line and the addresses say of it; a line whose local address could not be read is
/// left out.
pub proof fn law_netstat_lines_are_sockets(rows: Seq<NetstatRowView>, resolved: Seq<ResolvedRow>)
    requires
        rows.len() == resolved.len(),
    ensures
        forall|i: int|
            0 <= i < rows.len() && (#[trigger] resolved[i]).local is Some ==> exists|k: int|
                0 <= k < resolved_sockets(rows, resolved).len() && is_socket_of(
                    rows[i],
                    resolved[i],
                    #[trigger] resolved_sockets(rows, resolved)[k],
                ),
        forall|k: int|
            0 <= k < resolved_sockets(rows, resolved).len() ==> exists|i: int|
                0 <= i < rows.len() && is_socket_of(
                    rows[i],
                    #[trigger] resolved[i],
                    #[trigger] resolved_sockets(rows, resolved)[k],
                ),
    decreases rows.len(),
{
    reveal_strlit("LISTEN");
    reveal_strlit("ESTABLISHED");
    assert("LISTEN"@.len() != "ESTABLISHED"@.len());
    if rows.len() > 0 {
        let n = rows.len() - 1;
        let shorter = rows.drop_last();
        let fewer = resolved.drop_last();
        lemma_resolved_prefix(shorter, resolved, fewer);
        law_netstat_lines_are_sockets(shorter, fewer);
        let before = resolved_sockets(shorter, resolved);
        let now = resolved_sockets(rows, resolved);
        assert forall|i: int| 0 <= i < rows.len() && (#[trigger] resolved[i]).local is Some implies
            exists|k: int|
            0 <= k < now.len() && is_socket_of(rows[i], resolved[i], #[trigger] now[k]) by {
            if i < n {
                assert(fewer[i] == resolved[i]);
                let k = choose|k: int|
                    0 <= k < before.len() && is_socket_of(
                        shorter[i],
                        fewer[i],
                        #[trigger] before[k],
                    );
                assert(now[k] == before[k]);
            } else {
                assert(is_socket_of(rows[i], resolved[i], now[before.len() as int]));
            }
        }
        assert forall|k: int| 0 <= k < now.len() implies exists|i: int|
            0 <= i < rows.len() && is_socket_of(
                rows[i],
                #[trigger] resolved[i],
                #[trigger] now[k],
            ) by {
            if k < before.len() {
                assert(now[k] == before[k]);
                let i = choose|i: int|
                    0 <= i < shorter.len() && is_socket_of(
                        shorter[i],
                        #[trigger] fewer[i],
                        before[k],
                    );
                assert(resolved[i] == fewer[i]);
                assert(is_socket_of(rows[i], resolved[i], now[k]));
            } else {
                assert(is_socket_of(rows[n], resolved[n], now[k]));
            }
        }
    }
}

/// Whether a socket is the one that a line of `netstat` lists, with these addresses.
pub open spec fn is_socket_of(
    row: NetstatRowView,
    addresses: ResolvedRow,
    socket: ObservedSocketView,
) -> bool {
    &&& opt_text(addresses.local) == Some(socket.local)
    &&& socket.port == row.local.port
    &&& row.remote is Some ==> socket.remote == opt_text(addresses.remote)
    &&& row.remote is None ==> socket.remote is None
    &&& socket.state == SocketState::Listening <==> row.state == "LISTEN"@
    &&& socket.state == SocketState::Established <==> row.state == "ESTABLISHED"@
}

proof fn lemma_resolved_prefix(
    rows: Seq<NetstatRowView>,
    resolved: Seq<ResolvedRow>,
    fewer: Seq<ResolvedRow>,
)
    requires
        rows.len() <= fewer.len() <= resolved.len(),
        forall|i: int| 0 <= i < fewer.len() ==> #[trigger] fewer[i] == resolved[i],
    ensures
        resolved_sockets(rows, resolved) == resolved_sockets(rows, fewer),
    decreases rows.len(),
{
    if rows.len() > 0 {
        lemma_resolved_prefix(rows.drop_last(), resolved, fewer);
        assert(fewer[rows.len() - 1] == resolved[rows.len() - 1]);
    }
}

/// The circuits of the connections that `netstat` printed on macOS.
pub fn parse_macos_netstat(
    rows: &Vec<NetstatRow>,
    resolved: &Vec<ResolvedRow>,
) -> (r: Vec<Capability>)
    requires
        resolved.len() == rows.len(),
    ensures
        views(r@) == ({
            let sockets = resolved_sockets(views(rows@), resolved@);
            observed(sockets, sockets)
        }),
{
    let mut sockets: Vec<ObservedSocket> = Vec::new();
    let ghost all = views(rows@);
    let mut i: usize = 0;
    assert(views(sockets@) =~= Seq::empty());
    while i < rows.len()
        invariant
            i <= rows.len(),
            resolved.len() == rows.len(),
            all == views(rows@),
            views(sockets@) == resolved_sockets(all.take(i as int), resolved@),
        decreases rows.len() - i,
    {
        let ghost before = views(sockets@);
        proof {
            assert(all.take(i + 1).drop_last() =~= all.take(i as int));
            assert(all.take(i + 1).last() == rows@[i as int]@);
        }
        if let Some(local) = &resolved[i].local {
            let state = if same_text(rows[i].state.as_str(), "LISTEN") {
                SocketState::Listening
            } else if same_text(rows[i].state.as_str(), "ESTABLISHED") {
                SocketState::Established
            } else {
                SocketState::Other
            };
            let socket = ObservedSocket {
                port: rows[i].local.port,
                local: local.clone(),
                remote: match &rows[i].remote {
                    Some(_) => copy_option(&resolved[i].remote),
                    None => None,
                },
                state,
            };
            sockets.push(socket);
            assert(views(sockets@) =~= before.push(socket@));
        }
        i += 1;
    }
    assert(all.take(rows.len() as int) =~= all);
    observed_capabilities(&sockets)
}

/// The text that `netstat` printed, or why there is none.
pub fn netstat_output(output: &CommandOutput) -> (r: Result<String, String>)
    ensures
        match r {
            Ok(s) => output.succeeded() && s@ == output.output_text(),
            Err(e) => !output.succeeded() && e@ == failure_message(
                "macOS netstat"@,
                output.error_text(),
            ),
        },
{
    match crate::command::ensure_success(output, "macOS netstat") {
        Ok(()) => Ok(output.stdout_text()),
        Err(e) => Err(e),
    }
}

} // verus!
