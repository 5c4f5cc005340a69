//! Host routes on macOS: how they are read, compared, installed and put back.
use vstd::prelude::*;

use crate::command::CommandOutput;
use crate::model::{
    Duplicate, RouteCandidate, RouteCandidateView, RouteChange, RouteChangeView, RouteObservation,
    RouteObservationView, views,
};
use crate::text::{
    arguments, contains_text, has_prefix, keep_non_empty, lines, non_empty, option_is, pieces,
    same_option, same_text, split, split_first, split_lines, split_once, starts_with, strip_back,
    strip_front, texts, trim, trim_back, trim_front, trimmed, Margin, Separator,
};

verus! {

/// The tool that reads and changes routes.
pub const ROUTE: &'static str = "/sbin/route";

/// Whether a route carries a flag.
pub open spec fn flagged(route: RouteObservationView, flag: Seq<char>) -> bool {
    route.flags.contains(flag)
}

pub fn has_flag(route: &RouteObservation, expected: &str) -> (r: bool)
    ensures
        r == flagged(route@, expected@),
{
    contains_text(&route.flags, expected)
}

/// A route to the destination alone.
pub open spec fn is_host_route(route: RouteObservationView) -> bool {
    flagged(route, "HOST"@)
}

/// A route that somebody put there and that can be put back.
pub open spec fn is_static(route: RouteObservationView) -> bool {
    flagged(route, "STATIC"@)
}

/// Whether two routes lead the same way.
pub open spec fn same_route(left: RouteObservationView, right: RouteObservationView) -> bool {
    &&& left.destination == right.destination
    &&& left.gateway == right.gateway
    &&& left.interface == right.interface
    &&& left.ifscope == right.ifscope
    &&& flagged(left, "HOST"@) == flagged(right, "HOST"@)
    &&& flagged(left, "STATIC"@) == flagged(right, "STATIC"@)
    &&& flagged(left, "GATEWAY"@) == flagged(right, "GATEWAY"@)
    &&& flagged(left, "REJECT"@) == flagged(right, "REJECT"@)
    &&& flagged(left, "BLACKHOLE"@) == flagged(right, "BLACKHOLE"@)
}

pub fn routes_equivalent(left: &RouteObservation, right: &RouteObservation) -> (r: bool)
    ensures
        r == same_route(left@, right@),
{
    same_text(left.destination.as_str(), right.destination.as_str()) && same_option(
        &left.gateway,
        &right.gateway,
    ) && same_option(&left.interface, &right.interface) && same_option(
        &left.ifscope,
        &right.ifscope,
    ) && has_flag(left, "HOST") == has_flag(right, "HOST") && has_flag(left, "STATIC") == has_flag(
        right,
        "STATIC",
    ) && has_flag(left, "GATEWAY") == has_flag(right, "GATEWAY") && has_flag(left, "REJECT")
        == has_flag(right, "REJECT") && has_flag(left, "BLACKHOLE") == has_flag(right, "BLACKHOLE")
}

/// Comparing routes is an equivalence: every route leads the same way as itself, the order of the
/// two does not matter, and what two routes share with a third they share with each other.
pub proof fn law_route_comparison_is_an_equivalence(
    a: RouteObservationView,
    b: RouteObservationView,
    c: RouteObservationView,
)
    ensures
        same_route(a, a),
        same_route(a, b) ==> same_route(b, a),
        same_route(a, b) && same_route(b, c) ==> same_route(a, c),
{
}

/// The flags listed between angle brackets.
pub open spec fn listed_flags(value: Seq<char>) -> Seq<Seq<char>> {
    non_empty(
        pieces(
            strip_back(strip_front(trimmed(value), Margin::One('<')), Margin::One('>')),
            Separator::Char(','),
        ),
    )
}

/// A route after one more line of the tool's report.
pub open spec fn read_route_line(
    route: RouteObservationView,
    line: Seq<char>,
) -> RouteObservationView {
    match split_first(trimmed(line), ':') {
        None => route,
        Some((key, value)) => {
            let name = trimmed(key);
            if name == "destination"@ {
                RouteObservationView { destination: trimmed(value), ..route }
            } else if name == "gateway"@ {
                RouteObservationView { gateway: Some(trimmed(value)), ..route }
            } else if name == "interface"@ {
                RouteObservationView { interface: Some(trimmed(value)), ..route }
            } else if name == "ifscope"@ {
                RouteObservationView { ifscope: Some(trimmed(value)), ..route }
            } else if name == "flags"@ {
                RouteObservationView { flags: listed_flags(value), ..route }
            } else {
                route
            }
        },
    }
}

/// A route after the given lines of the tool's report.
pub open spec fn read_route_lines(
    route: RouteObservationView,
    all: Seq<Seq<char>>,
) -> RouteObservationView
    decreases all.len(),
{
    if all.len() == 0 {
        route
    } else {
        read_route_line(read_route_lines(route, all.drop_last()), all.last())
    }
}

/// The route that the tool reports for a destination.
pub open spec fn reported_route(destination: Seq<char>, output: Seq<char>) -> RouteObservationView {
    read_route_lines(
        RouteObservationView {
            destination,
            gateway: None,
            interface: None,
            ifscope: None,
            flags: Seq::empty(),
        },
        lines(output),
    )
}

fn read_line(route: &mut RouteObservation, line: &str)
    ensures
        final(route)@ == read_route_line(old(route)@, line@),
{
    let trimmed_line = trim(line);
    let (key, value) = match split_once(trimmed_line.as_str(), ':') {
        Some(pair) => pair,
        None => return,
    };
    let name = trim(key.as_str());
    if same_text(name.as_str(), "destination") {
        route.destination = trim(value.as_str());
    } else if same_text(name.as_str(), "gateway") {
        route.gateway = Some(trim(value.as_str()));
    } else if same_text(name.as_str(), "interface") {
        route.interface = Some(trim(value.as_str()));
    } else if same_text(name.as_str(), "ifscope") {
        route.ifscope = Some(trim(value.as_str()));
    } else if same_text(name.as_str(), "flags") {
        let inner = trim(value.as_str());
        let front = trim_front(inner.as_str(), Margin::One('<'));
        let list = trim_back(front.as_str(), Margin::One('>'));
        route.flags = keep_non_empty(split(list.as_str(), Separator::Char(',')));
    }
}

/// Reads the tool's report on the route to a destination.
pub fn parse_route_output(
    destination: &str,
    output: &str,
) -> (r: Result<RouteObservation, String>)
    ensures
        r matches Ok(route) && route@ == reported_route(destination@, output@),
{
    let mut route = RouteObservation {
        destination: destination.to_owned(),
        gateway: None,
        interface: None,
        ifscope: None,
        flags: Vec::new(),
    };
    let ghost start = route@;
    let all = split_lines(output);
    let ghost every = texts(all@);
    let mut i: usize = 0;
    assert(start.flags =~= Seq::empty());
    while i < all.len()
        invariant
            i <= all.len(),
            every == texts(all@),
            route@ == read_route_lines(start, every.take(i as int)),
        decreases all.len() - i,
    {
        proof {
            assert(every.take(i + 1).drop_last() =~= every.take(i as int));
            assert(every.take(i + 1).last() == all@[i as int]@);
        }
        read_line(&mut route, all[i].as_str());
        i += 1;
    }
    assert(every.take(all.len() as int) =~= every);
    Ok(route)
}

/// What came of a lookup.
pub open spec fn looked_up(
    destination: Seq<char>,
    output: CommandOutput,
) -> Result<RouteObservationView, Seq<char>> {
    if output.succeeded() {
        Ok(reported_route(destination, output.output_text()))
    } else {
        Err("route lookup for "@ + destination + " failed: "@ + output.error_text())
    }
}

/// The arguments of a lookup.
pub fn route_lookup_args(destination: &str) -> (r: Vec<String>)
    ensures
        texts(r@) == seq!["-n"@, "get"@, destination@],
{
    let r = arguments(vec!["-n", "get", destination]);
    assert(texts(r@) =~= seq!["-n"@, "get"@, destination@]);
    r
}

/// Reads what a lookup of the route to a destination left behind.
pub fn observe_route(
    destination: &str,
    output: &CommandOutput,
) -> (r: Result<RouteObservation, String>)
    ensures
        match r {
            Ok(route) => looked_up(destination@, *output) == Ok::<RouteObservationView, Seq<char>>(
                route@,
            ),
            Err(e) => looked_up(destination@, *output) == Err::<RouteObservationView, Seq<char>>(
                e@,
            ),
        },
{
    if !output.success() {
        return Err(
            "route lookup for ".to_owned().concat(destination).concat(" failed: ").concat(
                output.trimmed_stderr().as_str(),
            ),
        );
    }
    parse_route_output(destination, output.stdout_text().as_str())
}

/// What the system knows of an interface name.
#[derive(Debug, Clone, Copy, PartialEq, Eq, Structural)]
pub enum InterfaceLookup {
    /// The name cannot be one: it holds a zero byte at this position.
    ZeroByte { position: u64 },
    Missing,
    Present,
}

/// Refuses an interface that does not exist.
pub fn validate_interface(interface: &str, lookup: InterfaceLookup) -> (r: Result<(), String>)
    ensures
        r is Ok <==> lookup == InterfaceLookup::Present,
        r matches Err(e) ==> e@ == match lookup {
            InterfaceLookup::ZeroByte { position } =>
                "invalid interface name: nul byte found in provided data at position: "@
                + crate::text::decimal(position as nat),
            _ => "network interface '"@ + interface@ + "' does not exist"@,
        },
{
    match lookup {
        InterfaceLookup::Present => Ok(()),
        InterfaceLookup::Missing => Err(
            "network interface '".to_owned().concat(interface).concat("' does not exist"),
        ),
        InterfaceLookup::ZeroByte { position } => Err(
            "invalid interface name: nul byte found in provided data at position: ".to_owned().concat(
                crate::text::number_text(position).as_str(),
            ),
        ),
    }
}

/// The argument that names the address family of a destination, where it is needed.
pub open spec fn family(v6: bool) -> Seq<Seq<char>> {
    if v6 {
        seq!["-inet6"@]
    } else {
        Seq::empty()
    }
}

/// The arguments that limit a command to an interface.
pub open spec fn scope(ifscope: Option<Seq<char>>) -> Seq<Seq<char>> {
    match ifscope {
        Some(name) => seq!["-ifscope"@, name],
        None => Seq::empty(),
    }
}

/// The arguments that remove a host route.
pub open spec fn removal(route: RouteObservationView, v6: bool) -> Seq<Seq<char>> {
    seq!["-n"@, "delete"@] + family(v6) + seq!["-host"@] + scope(route.ifscope) + seq![
        route.destination,
    ]
}

/// The arguments that install a candidate.
pub open spec fn installation(change: RouteChangeView, v6: bool) -> Seq<Seq<char>> {
    seq!["-n"@, "add"@] + family(v6) + seq!["-host"@] + match change.gateway {
        Some(gateway) => seq!["-ifscope"@, change.interface, change.destination, gateway],
        None => seq![change.destination, "-interface"@, change.interface],
    }
}

/// The arguments that name where a route leads.
pub open spec fn next_hop(route: RouteObservationView) -> Seq<Seq<char>> {
    match (route.gateway, route.interface) {
        (Some(gateway), Some(interface)) if has_prefix(gateway, "link#"@) => seq![
            "-interface"@,
            interface,
        ],
        (Some(gateway), _) => seq![gateway],
        (None, Some(interface)) => seq!["-interface"@, interface],
        (None, None) => Seq::empty(),
    }
}

/// The arguments that put a host route back.
pub open spec fn restoration(route: RouteObservationView, v6: bool) -> Seq<Seq<char>> {
    seq!["-n"@, "add"@] + family(v6) + seq!["-host"@] + scope(route.ifscope) + seq![
        route.destination,
    ] + next_hop(route)
}

fn push(list: &mut Vec<String>, s: &str)
    ensures
        texts(final(list)@) == texts(old(list)@).push(s@),
{
    let ghost before = texts(list@);
    list.push(s.to_owned());
    assert(texts(list@) =~= before.push(s@));
}

/// The start of a command that removes or adds a host route.
fn host_command(verb: &str, v6: bool) -> (r: Vec<String>)
    ensures
        texts(r@) == seq!["-n"@, verb@] + family(v6) + seq!["-host"@],
{
    let mut r: Vec<String> = Vec::new();
    assert(texts(r@) =~= Seq::empty());
    push(&mut r, "-n");
    push(&mut r, verb);
    if v6 {
        push(&mut r, "-inet6");
    }
    push(&mut r, "-host");
    assert(texts(r@) =~= seq!["-n"@, verb@] + family(v6) + seq!["-host"@]);
    r
}

/// The arguments that remove a host route.
pub fn delete_host_args(route: &RouteObservation, v6: bool) -> (r: Vec<String>)
    ensures
        texts(r@) == removal(route@, v6),
{
    let mut r = host_command("delete", v6);
    if let Some(ifscope) = &route.ifscope {
        push(&mut r, "-ifscope");
        push(&mut r, ifscope.as_str());
    }
    push(&mut r, route.destination.as_str());
    assert(texts(r@) =~= removal(route@, v6));
    r
}

/// The arguments that install a candidate.
pub fn add_candidate_args(change: &RouteChange, v6: bool) -> (r: Vec<String>)
    ensures
        texts(r@) == installation(change@, v6),
{
    let mut r = host_command("add", v6);
    match &change.gateway {
        Some(gateway) => {
            push(&mut r, "-ifscope");
            push(&mut r, change.interface.as_str());
            push(&mut r, change.destination.as_str());
            push(&mut r, gateway.as_str());
        },
        None => {
            push(&mut r, change.destination.as_str());
            push(&mut r, "-interface");
            push(&mut r, change.interface.as_str());
        },
    }
    assert(texts(r@) =~= installation(change@, v6));
    r
}

/// The arguments that put a host route back.
pub fn restore_route_args(route: &RouteObservation, v6: bool) -> (r: Vec<String>)
    ensures
        texts(r@) == restoration(route@, v6),
{
    let mut r = host_command("add", v6);
    if let Some(ifscope) = &route.ifscope {
        push(&mut r, "-ifscope");
        push(&mut r, ifscope.as_str());
    }
    push(&mut r, route.destination.as_str());
    match (&route.gateway, &route.interface) {
        (Some(gateway), Some(interface)) => if starts_with(gateway.as_str(), "link#") {
            push(&mut r, "-interface");
            push(&mut r, interface.as_str());
        } else {
            push(&mut r, gateway.as_str());
        },
        (Some(gateway), None) => {
            push(&mut r, gateway.as_str());
        },
        (None, Some(interface)) => {
            push(&mut r, "-interface");
            push(&mut r, interface.as_str());
        },
        (None, None) => {},
    }
    assert(texts(r@) =~= restoration(route@, v6));
    r
}

/// What a failed change of a route is reported with: what it wrote to standard error, or else to
/// standard output.
pub open spec fn route_failure(output: CommandOutput) -> Seq<char> {
    "route command failed: "@ + if output.error_text().len() == 0 {
        trimmed(output.output_text())
    } else {
        output.error_text()
    }
}

/// Judges what a change of a route left behind.
pub fn run_route(output: &CommandOutput) -> (r: Result<(), String>)
    ensures
        r is Ok <==> output.succeeded(),
        r matches Err(e) ==> e@ == route_failure(*output),
{
    if output.success() {
        return Ok(());
    }
    let errors = output.trimmed_stderr();
    let detail = if errors.as_str().is_empty() {
        output.trimmed_stdout()
    } else {
        errors
    };
    Err("route command failed: ".to_owned().concat(detail.as_str()))
}

/// Whether the live route is the one that a change asks for.
pub open spec fn is_installed(change: RouteChangeView, current: RouteObservationView) -> bool {
    &&& current.interface == Some(change.interface)
    &&& change.gateway is Some ==> current.gateway == change.gateway
    &&& is_host_route(current)
}

/// Whether the live route is the one that a change asks for.
pub fn verify_route_change(change: &RouteChange, current: &RouteObservation) -> (r: bool)
    ensures
        r == is_installed(change@, current@),
{
    let gateway_matches = match &change.gateway {
        Some(gateway) => option_is(&current.gateway, gateway.as_str()),
        None => true,
    };
    option_is(&current.interface, change.interface.as_str()) && gateway_matches && has_flag(
        current,
        "HOST",
    )
}

/// What the system allows: whether the program may change routes, and whether the tool is there.
#[derive(Debug, Clone, Copy, PartialEq, Eq, Structural)]
pub struct RoutePrivileges {
    pub privileged: bool,
    pub tool_available: bool,
}

pub open spec fn privilege_refusal(found: RoutePrivileges) -> Option<Seq<char>> {
    if !found.privileged {
        Some("applying or rolling back a macOS route requires root privileges"@)
    } else if !found.tool_available {
        Some(ROUTE@ + " is not available"@)
    } else {
        None
    }
}

/// Refuses to change routes without the privileges or the tool for it.
pub fn require_route_privileges(found: RoutePrivileges) -> (r: Result<(), String>)
    ensures
        match r {
            Ok(()) => privilege_refusal(found) is None,
            Err(e) => privilege_refusal(found) == Some(e@),
        },
{
    if !found.privileged {
        Err("applying or rolling back a macOS route requires root privileges".to_owned())
    } else if !found.tool_available {
        Err(ROUTE.to_owned().concat(" is not available"))
    } else {
        Ok(())
    }
}

/// What to do next for a route.
pub enum RouteAction {
    CheckPrivileges,
    CheckInterface { interface: String },
    Observe { destination: String },
    Run { arguments: Vec<String> },
    Finish { result: Result<(), String> },
}

#[verifier::ext_equal]
pub enum RouteActionView {
    CheckPrivileges,
    CheckInterface { interface: Seq<char> },
    Observe { destination: Seq<char> },
    Run { arguments: Seq<Seq<char>> },
    Finish { failure: Option<Seq<char>> },
}

impl View for RouteAction {
    type V = RouteActionView;

    open spec fn view(&self) -> RouteActionView {
        match self {
            RouteAction::CheckPrivileges => RouteActionView::CheckPrivileges,
            RouteAction::CheckInterface { interface } => RouteActionView::CheckInterface {
                interface: interface@,
            },
            RouteAction::Observe { destination } => RouteActionView::Observe {
                destination: destination@,
            },
            RouteAction::Run { arguments } => RouteActionView::Run { arguments: texts(arguments@) },
            RouteAction::Finish { result } => RouteActionView::Finish {
                failure: match result {
                    Ok(_) => None,
                    Err(e) => Some(e@),
                },
            },
        }
    }
}

/// What came of the last action for a route. `v6` says whether the destination of an observed
/// route is a version 6 address.
pub enum RouteEvent {
    Begin,
    Privileges { found: RoutePrivileges },
    Interface { result: Result<(), String> },
    Observed { route: Result<RouteObservation, String>, v6: bool },
    Ran { result: Result<(), String> },
}

pub open spec fn unit_failure(result: Result<(), String>) -> Option<Seq<char>> {
    match result {
        Ok(_) => None,
        Err(e) => Some(e@),
    }
}

/// Where a rollback of a route stands: what it waits for.
#[derive(Debug, Clone, Copy, PartialEq, Eq, Structural)]
pub enum RollbackPhase {
    Start,
    Privileges,
    Observation,
    Removal,
    Restoration,
    Confirmation,
    Done,
}

/// A rollback of a route. `v6` says whether the original destination is a version 6 address.
pub struct RouteRollback {
    pub change: RouteChange,
    pub v6: bool,
    pub phase: RollbackPhase,
}

#[verifier::ext_equal]
pub struct RouteRollbackView {
    pub change: RouteChangeView,
    pub v6: bool,
    pub phase: RollbackPhase,
}

impl View for RouteRollback {
    type V = RouteRollbackView;

    open spec fn view(&self) -> RouteRollbackView {
        RouteRollbackView { change: self.change@, v6: self.v6, phase: self.phase }
    }
}

/// Whether an event is one that a rollback waits for.
pub open spec fn rollback_awaits(phase: RollbackPhase, event: RouteEvent) -> bool {
    match phase {
        RollbackPhase::Start => event is Begin,
        RollbackPhase::Privileges => event is Privileges,
        RollbackPhase::Observation => event is Observed,
        RollbackPhase::Removal => event is Ran,
        RollbackPhase::Restoration => event is Ran,
        RollbackPhase::Confirmation => event is Observed,
        RollbackPhase::Done => false,
    }
}

pub open spec fn finished(failure: Option<Seq<char>>) -> RouteActionView {
    RouteActionView::Finish { failure }
}

/// The step after the candidate has been removed: the original route is put back if it was a
/// static host route, and otherwise the route below it shows again.
pub open spec fn after_removal(
    change: RouteChangeView,
    v6: bool,
) -> (RollbackPhase, RouteActionView) {
    if is_host_route(change.original) && is_static(change.original) {
        (
            RollbackPhase::Restoration,
            RouteActionView::Run { arguments: restoration(change.original, v6) },
        )
    } else {
        (
            RollbackPhase::Confirmation,
            RouteActionView::Observe { destination: change.destination },
        )
    }
}

/// The next step of a rollback.
pub open spec fn rollback_step(
    change: RouteChangeView,
    v6: bool,
    phase: RollbackPhase,
    event: RouteEvent,
) -> (RollbackPhase, RouteActionView) {
    match (phase, event) {
        (RollbackPhase::Start, _) => (RollbackPhase::Privileges, RouteActionView::CheckPrivileges),
        (RollbackPhase::Privileges, RouteEvent::Privileges { found }) => match privilege_refusal(
            found,
        ) {
            Some(e) => (RollbackPhase::Done, finished(Some(e))),
            None => (
                RollbackPhase::Observation,
                RouteActionView::Observe { destination: change.destination },
            ),
        },
        (RollbackPhase::Observation, RouteEvent::Observed { route, v6: current_v6 }) => match route {
            Err(e) => (RollbackPhase::Done, finished(Some(e@))),
            Ok(current) => if same_route(current@, change.original) {
                (RollbackPhase::Done, finished(None))
            } else if current@.interface != Some(change.interface) || !is_host_route(current@) {
                (
                    RollbackPhase::Done,
                    finished(
                        Some(
                            "refusing to overwrite a third-party route change for "@
                                + change.destination,
                        ),
                    ),
                )
            } else {
                (
                    RollbackPhase::Removal,
                    RouteActionView::Run { arguments: removal(current@, current_v6) },
                )
            },
        },
        (RollbackPhase::Removal, RouteEvent::Ran { result }) => match result {
            Err(e) => (
                RollbackPhase::Done,
                finished(
                    Some("remove candidate route to "@ + change.destination + ": "@ + e@),
                ),
            ),
            Ok(_) => after_removal(change, v6),
        },
        (RollbackPhase::Restoration, RouteEvent::Ran { result }) => match result {
            Err(e) => (
                RollbackPhase::Done,
                finished(
                    Some(
                        "restore original route to "@ + change.original.destination + ": "@ + e@,
                    ),
                ),
            ),
            Ok(_) => (
                RollbackPhase::Confirmation,
                RouteActionView::Observe { destination: change.destination },
            ),
        },
        (RollbackPhase::Confirmation, RouteEvent::Observed { route, .. }) => match route {
            Err(e) => (RollbackPhase::Done, finished(Some(e@))),
            Ok(restored) => if same_route(restored@, change.original) {
                (RollbackPhase::Done, finished(None))
            } else {
                (
                    RollbackPhase::Done,
                    finished(
                        Some(
                            "route rollback for "@ + change.destination
                                + " completed but did not reproduce the recorded route"@,
                        ),
                    ),
                )
            },
        },
        _ => (RollbackPhase::Done, finished(None)),
    }
}

fn finish_ok() -> (r: RouteAction)
    ensures
        r@ == finished(None),
{
    RouteAction::Finish { result: Ok(()) }
}

fn finish_err(e: String) -> (r: RouteAction)
    ensures
        r@ == finished(Some(e@)),
{
    RouteAction::Finish { result: Err(e) }
}

/// A rollback after an event, and what it asks for.
pub open spec fn rollback_next(
    job: RouteRollbackView,
    event: RouteEvent,
) -> (RouteRollbackView, RouteActionView) {
    let (phase, action) = rollback_step(job.change, job.v6, job.phase, event);
    (RouteRollbackView { phase, ..job }, action)
}

impl RouteRollback {
    pub fn new(change: &RouteChange, v6: bool) -> (r: RouteRollback)
        ensures
            r@ == (RouteRollbackView { change: change@, v6, phase: RollbackPhase::Start }),
    {
        RouteRollback { change: change.duplicate(), v6, phase: RollbackPhase::Start }
    }
}

/// Takes a rollback of a route one step further.
pub fn rollback_route_change(job: &mut RouteRollback, event: &RouteEvent) -> (r: RouteAction)
    requires
        rollback_awaits(old(job).phase, *event),
    ensures
        (final(job)@, r@) == rollback_next(old(job)@, *event),
{
    match (job.phase, event) {
        (RollbackPhase::Start, _) => {
            job.phase = RollbackPhase::Privileges;
            RouteAction::CheckPrivileges
        },
        (RollbackPhase::Privileges, RouteEvent::Privileges { found }) => {
            match require_route_privileges(*found) {
                Err(e) => {
                    job.phase = RollbackPhase::Done;
                    finish_err(e)
                },
                Ok(()) => {
                    job.phase = RollbackPhase::Observation;
                    RouteAction::Observe { destination: job.change.destination.clone() }
                },
            }
        },
        (RollbackPhase::Observation, RouteEvent::Observed { route, v6: current_v6 }) => {
            match route {
                Err(e) => {
                    job.phase = RollbackPhase::Done;
                    finish_err(e.clone())
                },
                Ok(current) => {
                    if routes_equivalent(current, &job.change.original) {
                        job.phase = RollbackPhase::Done;
                        finish_ok()
                    } else if !option_is(&current.interface, job.change.interface.as_str())
                        || !has_flag(current, "HOST") {
                        job.phase = RollbackPhase::Done;
                        finish_err(
                            "refusing to overwrite a third-party route change for ".to_owned().concat(
                                job.change.destination.as_str(),
                            ),
                        )
                    } else {
                        job.phase = RollbackPhase::Removal;
                        RouteAction::Run { arguments: delete_host_args(current, *current_v6) }
                    }
                },
            }
        },
        (RollbackPhase::Removal, RouteEvent::Ran { result }) => {
            match result {
                Err(e) => {
                    job.phase = RollbackPhase::Done;
                    finish_err(
                        "remove candidate route to ".to_owned().concat(
                            job.change.destination.as_str(),
                        ).concat(": ").concat(e.as_str()),
                    )
                },
                Ok(_) => {
                    if has_flag(&job.change.original, "HOST") && has_flag(
                        &job.change.original,
                        "STATIC",
                    ) {
                        job.phase = RollbackPhase::Restoration;
                        RouteAction::Run {
                            arguments: restore_route_args(&job.change.original, job.v6),
                        }
                    } else {
                        job.phase = RollbackPhase::Confirmation;
                        RouteAction::Observe { destination: job.change.destination.clone() }
                    }
                },
            }
        },
        (RollbackPhase::Restoration, RouteEvent::Ran { result }) => {
            match result {
                Err(e) => {
                    job.phase = RollbackPhase::Done;
                    finish_err(
                        "restore original route to ".to_owned().concat(
                            job.change.original.destination.as_str(),
                        ).concat(": ").concat(e.as_str()),
                    )
                },
                Ok(_) => {
                    job.phase = RollbackPhase::Confirmation;
                    RouteAction::Observe { destination: job.change.destination.clone() }
                },
            }
        },
        (RollbackPhase::Confirmation, RouteEvent::Observed { route, v6: _ }) => {
            job.phase = RollbackPhase::Done;
            match route {
                Err(e) => finish_err(e.clone()),
                Ok(restored) => if routes_equivalent(restored, &job.change.original) {
                    finish_ok()
                } else {
                    finish_err(
                        "route rollback for ".to_owned().concat(
                            job.change.destination.as_str(),
                        ).concat(" completed but did not reproduce the recorded route"),
                    )
                },
            }
        },
        _ => {
            job.phase = RollbackPhase::Done;
            finish_ok()
        },
    }
}

/// A rollback ends well only if the route it saw last leads the way of the recorded route.
pub proof fn law_rollback_ends_at_the_recorded_route(
    change: RouteChangeView,
    v6: bool,
    phase: RollbackPhase,
    event: RouteEvent,
)
    requires
        rollback_awaits(phase, event),
        rollback_step(change, v6, phase, event).1 == finished(None),
    ensures
        event matches RouteEvent::Observed { route: Ok(current), .. } && same_route(
            current@,
            change.original,
        ),
{
}

/// A rollback removes a route only if it is a host route through the interface of the candidate
/// and not the recorded route.
pub proof fn law_rollback_removes_only_the_candidate(
    change: RouteChangeView,
    v6: bool,
    phase: RollbackPhase,
    event: RouteEvent,
)
    requires
        rollback_awaits(phase, event),
        rollback_step(change, v6, phase, event).0 == RollbackPhase::Removal,
    ensures
        event matches RouteEvent::Observed { route: Ok(current), v6: current_v6 }
            && !same_route(current@, change.original) && current@.interface == Some(
            change.interface,
        ) && is_host_route(current@) && rollback_step(change, v6, phase, event).1
            == (RouteActionView::Run { arguments: removal(current@, current_v6) }),
{
}

/// Where an apply of a route stands: what it waits for.
#[derive(Debug, Clone, Copy, PartialEq, Eq, Structural)]
pub enum ApplyPhase {
    Start,
    Privileges,
    Interface,
    Observation,
    Removal,
    Installation { removed: bool },
    /// The original route is being put back after the candidate could not be installed.
    Undo,
    Verification,
    Rollback { phase: RollbackPhase },
    Done,
}

/// An apply of a route. `v6` says whether the destination is a version 6 address, `original_v6`
/// whether that of the recorded route is.
pub struct RouteApply {
    pub change: RouteChange,
    pub v6: bool,
    pub original_v6: bool,
    pub phase: ApplyPhase,
    /// Why the candidate could not be installed, while the original route is put back.
    pub failure: String,
}

#[verifier::ext_equal]
pub struct RouteApplyView {
    pub change: RouteChangeView,
    pub v6: bool,
    pub original_v6: bool,
    pub phase: ApplyPhase,
    pub failure: Seq<char>,
}

impl View for RouteApply {
    type V = RouteApplyView;

    open spec fn view(&self) -> RouteApplyView {
        RouteApplyView {
            change: self.change@,
            v6: self.v6,
            original_v6: self.original_v6,
            phase: self.phase,
            failure: self.failure@,
        }
    }
}

/// Where an apply stands, and the failure that it will report.
pub struct ApplyState {
    pub phase: ApplyPhase,
    pub failure: Seq<char>,
}

/// Whether an event is one that an apply waits for.
pub open spec fn apply_awaits(phase: ApplyPhase, event: RouteEvent) -> bool {
    match phase {
        ApplyPhase::Start => event is Begin,
        ApplyPhase::Privileges => event is Privileges,
        ApplyPhase::Interface => event is Interface,
        ApplyPhase::Observation => event is Observed,
        ApplyPhase::Removal => event is Ran,
        ApplyPhase::Installation { .. } => event is Ran,
        ApplyPhase::Undo => event is Ran,
        ApplyPhase::Verification => event is Observed,
        ApplyPhase::Rollback { phase } => rollback_awaits(phase, event),
        ApplyPhase::Done => false,
    }
}

pub open spec fn apply_done(failure: Option<Seq<char>>) -> (ApplyState, RouteActionView) {
    (ApplyState { phase: ApplyPhase::Done, failure: Seq::empty() }, finished(failure))
}

pub open spec fn apply_at(
    phase: ApplyPhase,
    action: RouteActionView,
) -> (ApplyState, RouteActionView) {
    (ApplyState { phase, failure: Seq::empty() }, action)
}

/// What a candidate that could not be installed is reported with.
pub open spec fn install_failure(change: RouteChangeView, error: Seq<char>) -> Seq<char> {
    "install route to "@ + change.destination + " through "@ + change.interface + ": "@ + error
}

/// What a candidate that was installed but not selected is reported with.
pub open spec fn selection_failure(
    change: RouteChangeView,
    rollback: Option<Seq<char>>,
) -> Seq<char> {
    "installed route to "@ + change.destination + " did not select "@ + change.interface
        + match rollback {
        None => "; the original route was restored"@,
        Some(e) => ", and rollback failed: "@ + e,
    }
}

/// The next step of an apply.
pub open spec fn apply_step(
    change: RouteChangeView,
    v6: bool,
    original_v6: bool,
    state: ApplyState,
    event: RouteEvent,
) -> (ApplyState, RouteActionView) {
    match (state.phase, event) {
        (ApplyPhase::Start, _) => apply_at(
            ApplyPhase::Privileges,
            RouteActionView::CheckPrivileges,
        ),
        (ApplyPhase::Privileges, RouteEvent::Privileges { found }) => match privilege_refusal(
            found,
        ) {
            Some(e) => apply_done(Some(e)),
            None => apply_at(
                ApplyPhase::Interface,
                RouteActionView::CheckInterface { interface: change.interface },
            ),
        },
        (ApplyPhase::Interface, RouteEvent::Interface { result }) => match result {
            Err(e) => apply_done(Some(e@)),
            Ok(_) => apply_at(
                ApplyPhase::Observation,
                RouteActionView::Observe { destination: change.destination },
            ),
        },
        (ApplyPhase::Observation, RouteEvent::Observed { route, v6: current_v6 }) => match route {
            Err(e) => apply_done(Some(e@)),
            Ok(current) => if !same_route(current@, change.original) {
                apply_done(
                    Some(
                        "route to "@ + change.destination
                            + " changed after the apply plan was created"@,
                    ),
                )
            } else if is_host_route(current@) && !is_static(current@) {
                apply_done(
                    Some(
                        "route to "@ + change.destination
                            + " is a non-static host route and cannot be restored exactly"@,
                    ),
                )
            } else if is_host_route(current@) {
                apply_at(
                    ApplyPhase::Removal,
                    RouteActionView::Run { arguments: removal(current@, current_v6) },
                )
            } else {
                apply_at(
                    ApplyPhase::Installation { removed: false },
                    RouteActionView::Run { arguments: installation(change, v6) },
                )
            },
        },
        (ApplyPhase::Removal, RouteEvent::Ran { result }) => match result {
            Err(e) => apply_done(
                Some("remove the original route to "@ + change.destination + ": "@ + e@),
            ),
            Ok(_) => apply_at(
                ApplyPhase::Installation { removed: true },
                RouteActionView::Run { arguments: installation(change, v6) },
            ),
        },
        (ApplyPhase::Installation { removed }, RouteEvent::Ran { result }) => match result {
            Err(e) => if removed && is_host_route(change.original) && is_static(change.original) {
                (
                    ApplyState { phase: ApplyPhase::Undo, failure: install_failure(change, e@) },
                    RouteActionView::Run { arguments: restoration(change.original, original_v6) },
                )
            } else {
                apply_done(Some(install_failure(change, e@)))
            },
            Ok(_) => apply_at(
                ApplyPhase::Verification,
                RouteActionView::Observe { destination: change.destination },
            ),
        },
        (ApplyPhase::Undo, _) => apply_done(Some(state.failure)),
        (ApplyPhase::Verification, RouteEvent::Observed { route, .. }) => match route {
            Err(e) => apply_done(Some(e@)),
            Ok(current) => if is_installed(change, current@) {
                apply_done(None)
            } else {
                let (phase, action) = rollback_step(
                    change,
                    original_v6,
                    RollbackPhase::Start,
                    RouteEvent::Begin,
                );
                apply_at(ApplyPhase::Rollback { phase }, action)
            },
        },
        (ApplyPhase::Rollback { phase }, _) => {
            let (next, action) = rollback_step(change, original_v6, phase, event);
            match action {
                RouteActionView::Finish { failure } => apply_done(
                    Some(selection_failure(change, failure)),
                ),
                _ => apply_at(ApplyPhase::Rollback { phase: next }, action),
            }
        },
        _ => apply_done(None),
    }
}

/// An apply that has come to a state.
pub open spec fn applied_to(job: RouteApplyView, state: ApplyState) -> RouteApplyView {
    RouteApplyView { phase: state.phase, failure: state.failure, ..job }
}

/// An apply after an event, and what it asks for.
pub open spec fn apply_next(
    job: RouteApplyView,
    event: RouteEvent,
) -> (RouteApplyView, RouteActionView) {
    let (state, action) = apply_step(
        job.change,
        job.v6,
        job.original_v6,
        ApplyState { phase: job.phase, failure: job.failure },
        event,
    );
    (applied_to(job, state), action)
}

impl RouteApply {
    pub fn new(change: &RouteChange, v6: bool, original_v6: bool) -> (r: RouteApply)
        ensures
            r@ == (RouteApplyView {
                change: change@,
                v6,
                original_v6,
                phase: ApplyPhase::Start,
                failure: Seq::empty(),
            }),
    {
        RouteApply {
            change: change.duplicate(),
            v6,
            original_v6,
            phase: ApplyPhase::Start,
            failure: String::new(),
        }
    }

    fn to(&mut self, phase: ApplyPhase, action: RouteAction) -> (r: RouteAction)
        ensures
            final(self)@ == applied_to(old(self)@, apply_at(phase, action@).0),
            r@ == action@,
    {
        self.phase = phase;
        self.failure = String::new();
        assert(self.failure@ =~= Seq::empty());
        action
    }

    fn fail(&mut self, e: String) -> (r: RouteAction)
        ensures
            final(self)@ == applied_to(old(self)@, apply_done(Some(e@)).0),
            r@ == apply_done(Some(e@)).1,
    {
        self.to(ApplyPhase::Done, finish_err(e))
    }
}

/// Takes an apply of a route one step further.
pub fn apply_route_change(job: &mut RouteApply, event: &RouteEvent) -> (r: RouteAction)
    requires
        apply_awaits(old(job).phase, *event),
    ensures
        (final(job)@, r@) == apply_next(old(job)@, *event),
{
    match (job.phase, event) {
        (ApplyPhase::Start, _) => job.to(ApplyPhase::Privileges, RouteAction::CheckPrivileges),
        (ApplyPhase::Privileges, RouteEvent::Privileges { found }) => {
            match require_route_privileges(*found) {
                Err(e) => job.fail(e),
                Ok(()) => {
                    let action = RouteAction::CheckInterface {
                        interface: job.change.interface.clone(),
                    };
                    job.to(ApplyPhase::Interface, action)
                },
            }
        },
        (ApplyPhase::Interface, RouteEvent::Interface { result }) => match result {
            Err(e) => job.fail(e.clone()),
            Ok(_) => {
                let action = RouteAction::Observe {
                    destination: job.change.destination.clone(),
                };
                job.to(ApplyPhase::Observation, action)
            },
        },
        (ApplyPhase::Observation, RouteEvent::Observed { route, v6: current_v6 }) => match route {
            Err(e) => job.fail(e.clone()),
            Ok(current) => {
                if !routes_equivalent(current, &job.change.original) {
                    let message = "route to ".to_owned().concat(
                        job.change.destination.as_str(),
                    ).concat(" changed after the apply plan was created");
                    job.fail(message)
                } else if has_flag(current, "HOST") && !has_flag(current, "STATIC") {
                    let message = "route to ".to_owned().concat(
                        job.change.destination.as_str(),
                    ).concat(" is a non-static host route and cannot be restored exactly");
                    job.fail(message)
                } else if has_flag(current, "HOST") {
                    let action = RouteAction::Run {
                        arguments: delete_host_args(current, *current_v6),
                    };
                    job.to(ApplyPhase::Removal, action)
                } else {
                    let action = RouteAction::Run {
                        arguments: add_candidate_args(&job.change, job.v6),
                    };
                    job.to(ApplyPhase::Installation { removed: false }, action)
                }
            },
        },
        (ApplyPhase::Removal, RouteEvent::Ran { result }) => match result {
            Err(e) => {
                let message = "remove the original route to ".to_owned().concat(
                    job.change.destination.as_str(),
                ).concat(": ").concat(e.as_str());
                job.fail(message)
            },
            Ok(_) => {
                let action = RouteAction::Run {
                    arguments: add_candidate_args(&job.change, job.v6),
                };
                job.to(ApplyPhase::Installation { removed: true }, action)
            },
        },
        (ApplyPhase::Installation { removed }, RouteEvent::Ran { result }) => match result {
            Err(e) => {
                let message = "install route to ".to_owned().concat(
                    job.change.destination.as_str(),
                ).concat(" through ").concat(job.change.interface.as_str()).concat(": ").concat(
                    e.as_str(),
                );
                if removed && has_flag(&job.change.original, "HOST") && has_flag(
                    &job.change.original,
                    "STATIC",
                ) {
                    let action = RouteAction::Run {
                        arguments: restore_route_args(&job.change.original, job.original_v6),
                    };
                    job.phase = ApplyPhase::Undo;
                    job.failure = message;
                    action
                } else {
                    job.fail(message)
                }
            },
            Ok(_) => {
                let action = RouteAction::Observe {
                    destination: job.change.destination.clone(),
                };
                job.to(ApplyPhase::Verification, action)
            },
        },
        (ApplyPhase::Undo, _) => {
            let message = job.failure.clone();
            job.fail(message)
        },
        (ApplyPhase::Verification, RouteEvent::Observed { route, v6: _ }) => match route {
            Err(e) => job.fail(e.clone()),
            Ok(current) => {
                if verify_route_change(&job.change, current) {
                    job.to(ApplyPhase::Done, finish_ok())
                } else {
                    let mut inner = RouteRollback::new(&job.change, job.original_v6);
                    let action = rollback_route_change(&mut inner, &RouteEvent::Begin);
                    job.to(ApplyPhase::Rollback { phase: inner.phase }, action)
                }
            },
        },
        (ApplyPhase::Rollback { phase }, _) => {
            let mut inner = RouteRollback::new(&job.change, job.original_v6);
            inner.phase = phase;
            let action = rollback_route_change(&mut inner, event);
            let start = "installed route to ".to_owned().concat(
                job.change.destination.as_str(),
            ).concat(" did not select ").concat(job.change.interface.as_str());
            match action {
                RouteAction::Finish { result } => match result {
                    Ok(_) => job.fail(start.concat("; the original route was restored")),
                    Err(e) => job.fail(start.concat(
                        ", and rollback failed: ".to_owned().concat(e.as_str()).as_str(),
                    )),
                },
                _ => job.to(ApplyPhase::Rollback { phase: inner.phase }, action),
            }
        },
        _ => job.to(ApplyPhase::Done, finish_ok()),
    }
}

/// An apply ends well only if the live route is then the one that was asked for.
pub proof fn law_apply_ends_at_the_candidate(
    change: RouteChangeView,
    v6: bool,
    original_v6: bool,
    state: ApplyState,
    event: RouteEvent,
)
    requires
        apply_awaits(state.phase, event),
        apply_step(change, v6, original_v6, state, event).1 == finished(None),
    ensures
        event matches RouteEvent::Observed { route: Ok(current), .. } && is_installed(
            change,
            current@,
        ),
{
}

/// An apply touches the routing table for the first time only while the live route leads the way
/// of the recorded one, and only if that route could be put back.
pub proof fn law_apply_starts_from_the_recorded_route(
    change: RouteChangeView,
    v6: bool,
    original_v6: bool,
    state: ApplyState,
    event: RouteEvent,
)
    requires
        apply_awaits(state.phase, event),
        state.phase is Start || state.phase is Privileges || state.phase is Interface || state.phase
            is Observation,
        apply_step(change, v6, original_v6, state, event).1 is Run,
    ensures
        event matches RouteEvent::Observed { route: Ok(current), .. } && same_route(
            current@,
            change.original,
        ) && (is_host_route(current@) ==> is_static(current@)),
{
}

/// A candidate that could not be installed after the original host route was removed leaves the
/// table only after the command that puts the original back.
pub proof fn law_failed_install_puts_the_original_back(
    change: RouteChangeView,
    v6: bool,
    original_v6: bool,
    failure: Seq<char>,
    error: String,
)
    requires
        is_host_route(change.original),
        is_static(change.original),
    ensures
        apply_step(
            change,
            v6,
            original_v6,
            ApplyState { phase: ApplyPhase::Installation { removed: true }, failure },
            RouteEvent::Ran { result: Err(error) },
        ).1 == (RouteActionView::Run { arguments: restoration(change.original, original_v6) }),
{
}

/// Whether an earlier candidate has the same destination.
pub open spec fn staged_before(candidates: Seq<RouteCandidateView>, i: int) -> bool {
    exists|j: int|
        0 <= j < i && (#[trigger] candidates[j]).destination == candidates[i].destination
}

/// Why a candidate cannot be applied, if anything stands against it. The live route is looked at
/// only where nothing else does.
pub open spec fn candidate_conflict(
    candidates: Seq<RouteCandidateView>,
    i: int,
    live: Result<RouteObservation, String>,
) -> Result<Option<Seq<char>>, Seq<char>> {
    let candidate = candidates[i];
    if staged_before(candidates, i) {
        Ok(Some(candidate.destination + " has more than one staged route candidate"@))
    } else if is_host_route(candidate.observed_route) && !is_static(candidate.observed_route) {
        Ok(
            Some(
                candidate.destination
                    + " currently uses a non-static host route that cannot be restored exactly"@,
            ),
        )
    } else {
        match live {
            Err(e) => Err(e@),
            Ok(current) => if same_route(current@, candidate.observed_route) {
                Ok(None)
            } else {
                Ok(
                    Some(
                        candidate.destination + " changed since candidate "@ + candidate.id
                            + " was staged"@,
                    ),
                )
            },
        }
    }
}

/// What stands against the first `n` candidates, in order; a lookup that failed ends the list.
pub open spec fn candidate_conflicts(
    candidates: Seq<RouteCandidateView>,
    live: Seq<Result<RouteObservation, String>>,
    n: int,
) -> Result<Seq<Seq<char>>, Seq<char>>
    decreases n,
{
    if n <= 0 {
        Ok(Seq::empty())
    } else {
        match candidate_conflicts(candidates, live, n - 1) {
            Err(e) => Err(e),
            Ok(list) => match candidate_conflict(candidates, n - 1, live[n - 1]) {
                Err(e) => Err(e),
                Ok(None) => Ok(list),
                Ok(Some(message)) => Ok(list.push(message)),
            },
        }
    }
}

fn is_staged_before(candidates: &Vec<RouteCandidate>, i: usize) -> (r: bool)
    requires
        i < candidates.len(),
    ensures
        r == staged_before(views(candidates@), i as int),
{
    let mut j: usize = 0;
    while j < i
        invariant
            j <= i < candidates.len(),
            forall|k: int|
                0 <= k < j ==> (#[trigger] views(candidates@)[k]).destination != views(
                    candidates@,
                )[i as int].destination,
        decreases i - j,
    {
        if same_text(candidates[j].destination.as_str(), candidates[i].destination.as_str()) {
            assert(views(candidates@)[j as int].destination == views(
                candidates@,
            )[i as int].destination);
            return true;
        }
        j += 1;
    }
    false
}

proof fn lemma_conflicts_keep_failure(
    candidates: Seq<RouteCandidateView>,
    live: Seq<Result<RouteObservation, String>>,
    n: int,
    m: int,
)
    requires
        0 <= n <= m,
        candidate_conflicts(candidates, live, n) is Err,
    ensures
        candidate_conflicts(candidates, live, m) == candidate_conflicts(candidates, live, n),
    decreases m - n,
{
    if n < m {
        lemma_conflicts_keep_failure(candidates, live, n, m - 1);
    }
}

/// What stands against the staged candidates. `live` holds the live route to each destination.
pub fn route_conflicts(
    candidates: &Vec<RouteCandidate>,
    live: &Vec<Result<RouteObservation, String>>,
) -> (r: Result<Vec<String>, String>)
    requires
        live.len() == candidates.len(),
    ensures
        match r {
            Ok(list) => candidate_conflicts(
                views(candidates@),
                live@,
                candidates@.len() as int,
            ) == Ok::<Seq<Seq<char>>, Seq<char>>(texts(list@)),
            Err(e) => candidate_conflicts(views(candidates@), live@, candidates@.len() as int)
                == Err::<Seq<Seq<char>>, Seq<char>>(e@),
        },
{
    let mut list: Vec<String> = Vec::new();
    let ghost all = views(candidates@);
    let mut i: usize = 0;
    assert(texts(list@) =~= Seq::empty());
    while i < candidates.len()
        invariant
            i <= candidates.len(),
            live.len() == candidates.len(),
            all == views(candidates@),
            candidate_conflicts(all, live@, i as int) == Ok::<Seq<Seq<char>>, Seq<char>>(
                texts(list@),
            ),
        decreases candidates.len() - i,
    {
        let candidate = &candidates[i];
        let ghost before = texts(list@);
        assert(all[i as int] == candidate@);
        if is_staged_before(candidates, i) {
            push(
                &mut list,
                candidate.destination.clone().concat(
                    " has more than one staged route candidate",
                ).as_str(),
            );
        } else if has_flag(&candidate.observed_route, "HOST") && !has_flag(
            &candidate.observed_route,
            "STATIC",
        ) {
            push(
                &mut list,
                candidate.destination.clone().concat(
                    " currently uses a non-static host route that cannot be restored exactly",
                ).as_str(),
            );
        } else {
            match &live[i] {
                Err(e) => {
                    proof {
                        lemma_conflicts_keep_failure(
                            all,
                            live@,
                            i + 1,
                            candidates@.len() as int,
                        );
                    }
                    return Err(e.clone());
                },
                Ok(current) => {
                    if !routes_equivalent(current, &candidate.observed_route) {
                        push(
                            &mut list,
                            candidate.destination.clone().concat(
                                " changed since candidate ",
                            ).concat(candidate.id.as_str()).concat(" was staged").as_str(),
                        );
                    }
                },
            }
        }
        i += 1;
    }
    Ok(list)
}

} // verus!
