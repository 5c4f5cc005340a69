//! Staged routes: how a route candidate and its circuits are added to an environment, checked and
//! removed.
use vstd::prelude::*;

use crate::circuits::{
    circuit_position, drop_ids, find_circuit, fresh_circuit, lemma_without_ids_length, make_circuit,
    without_ids,
};
use crate::clock::{is_stale, stale, utc_now, Timestamp, FRESH_SECONDS};
use crate::connectivity::{
    answers, capability_id, capability_key, checked, validate_capability, ProbeReport,
};
use crate::model::{
    views, Capability, CapabilityView, Direction, Duplicate, Environment, EnvironmentStatus,
    EnvironmentView, ProbeSpec, ProbeView, RouteCandidate, RouteCandidateView, RouteObservation,
    ValidationState,
};
use crate::plan::{belongs_to_route, ids_where, is_deferred};
use crate::text::{
    contains_text, copy_option, decimal, join, join_texts, number_text, opt_text, option_is,
    same_option, same_text, text_or, texts,
};

verus! {

/// An address of a host, as the system writes it.
pub struct HostAddress {
    pub text: String,
    pub v6: bool,
}

/// Whether ports are the given ones, each once, in rising order.
pub open spec fn is_port_list(list: Seq<u16>, ports: Seq<u16>) -> bool {
    &&& forall|i: int, j: int| 0 <= i < j < list.len() ==> list[i] < list[j]
    &&& forall|p: u16| list.contains(p) <==> ports.contains(p)
}

fn add_port(list: &mut Vec<u16>, port: u16)
    requires
        forall|i: int, j: int| 0 <= i < j < old(list)@.len() ==> old(list)@[i] < old(list)@[j],
    ensures
        forall|i: int, j: int|
            0 <= i < j < final(list)@.len() ==> final(list)@[i] < final(list)@[j],
        forall|p: u16| final(list)@.contains(p) <==> old(list)@.contains(p) || p == port,
{
    let ghost before = list@;
    let mut at: usize = 0;
    while at < list.len() && list[at] < port
        invariant
            at <= list.len(),
            list@ == before,
            forall|i: int| 0 <= i < at ==> list@[i] < port,
        decreases list.len() - at,
    {
        at += 1;
    }
    if at < list.len() && list[at] == port {
        assert(before[at as int] == port);
        return;
    }
    list.insert(at, port);
    proof {
        let after = list@;
        assert(after =~= before.insert(at as int, port));
        assert forall|p: u16| after.contains(p) <==> before.contains(p) || p == port by {
            if after.contains(p) {
                let i = choose|i: int| 0 <= i < after.len() && after[i] == p;
                if i < at {
                    assert(before[i] == p);
                } else if i > at {
                    assert(before[i - 1] == p);
                }
            }
            if before.contains(p) {
                let i = choose|i: int| 0 <= i < before.len() && before[i] == p;
                if i < at {
                    assert(after[i] == p);
                } else {
                    assert(after[i + 1] == p);
                }
            }
            if p == port {
                assert(after[at as int] == port);
            }
        }
        assert forall|i: int, j: int| 0 <= i < j < after.len() implies after[i] < after[j] by {
            let a = if i < at { before[i] } else if i > at { before[i - 1] } else { port };
            let b = if j < at { before[j] } else if j > at { before[j - 1] } else { port };
            assert(after[i] == a && after[j] == b);
            if i == at {
                assert(before[at as int] > port);
                if j - 1 > at {
                    assert(before[at as int] < before[j - 1]);
                }
            }
        }
    }
}

/// The ports, each once, in rising order.
pub fn sort_ports(ports: &Vec<u16>) -> (r: Vec<u16>)
    ensures
        is_port_list(r@, ports@),
{
    let mut r: Vec<u16> = Vec::new();
    let mut i: usize = 0;
    while i < ports.len()
        invariant
            i <= ports.len(),
            forall|a: int, b: int| 0 <= a < b < r@.len() ==> r@[a] < r@[b],
            forall|p: u16| r@.contains(p) <==> ports@.take(i as int).contains(p),
        decreases ports.len() - i,
    {
        add_port(&mut r, ports[i]);
        proof {
            let more = ports@.take(i + 1);
            let fewer = ports@.take(i as int);
            assert forall|p: u16| more.contains(p) <==> fewer.contains(p) || p
                == ports@[i as int] by {
                if more.contains(p) {
                    let k = choose|k: int| 0 <= k < more.len() && more[k] == p;
                    if k < i {
                        assert(fewer[k] == p);
                    }
                }
                if fewer.contains(p) {
                    let k = choose|k: int| 0 <= k < fewer.len() && fewer[k] == p;
                    assert(more[k] == p);
                }
                assert(more[i as int] == ports@[i as int]);
            }
        }
        i += 1;
    }
    assert(ports@.take(ports.len() as int) =~= ports@);
    r
}

/// Why a route cannot be staged. `destination` is the address that the destination stands for, or
/// why it is none; `interface` says whether the interface exists; `gateway` is the address that the
/// gateway stands for, if one is given, or why it is none.
pub open spec fn preview_refusal(
    destination: Result<HostAddress, String>,
    interface: Result<(), String>,
    gateway: Option<Result<HostAddress, String>>,
    ports: Seq<u16>,
) -> Option<Seq<char>> {
    match destination {
        Err(cause) => Some("route-preview destination must be an IP address: "@ + cause@),
        Ok(address) => match interface {
            Err(e) => Some(e@),
            Ok(_) => match gateway {
                Some(Err(cause)) => Some("route-preview gateway must be an IP address: "@ + cause@),
                Some(Ok(hop)) if hop.v6 != address.v6 => Some(
                    "route-preview destination and gateway must use the same address family"@,
                ),
                _ => if ports.contains(0) {
                    Some("port zero is not a valid circuit endpoint"@)
                } else {
                    None
                },
            },
        },
    }
}

/// Refuses a route that cannot be staged; gives its ports, each once, in rising order.
pub fn check_preview(
    destination: &Result<HostAddress, String>,
    interface: &Result<(), String>,
    gateway: &Option<Result<HostAddress, String>>,
    ports: &Vec<u16>,
) -> (r: Result<Vec<u16>, String>)
    ensures
        match r {
            Ok(list) => preview_refusal(*destination, *interface, *gateway, ports@) is None
                && is_port_list(list@, ports@),
            Err(e) => preview_refusal(*destination, *interface, *gateway, ports@) == Some(e@),
        },
{
    let address = match destination {
        Err(cause) => return Err(
            "route-preview destination must be an IP address: ".to_owned().concat(cause.as_str()),
        ),
        Ok(address) => address,
    };
    match interface {
        Err(e) => return Err(e.clone()),
        Ok(_) => {},
    }
    match gateway {
        Some(Err(cause)) => return Err(
            "route-preview gateway must be an IP address: ".to_owned().concat(cause.as_str()),
        ),
        Some(Ok(hop)) => {
            if hop.v6 != address.v6 {
                return Err(
                    "route-preview destination and gateway must use the same address family".to_owned(),
                );
            }
        },
        None => {},
    }
    let list = sort_ports(ports);
    let mut i: usize = 0;
    while i < list.len()
        invariant
            i <= list.len(),
            is_port_list(list@, ports@),
            *destination is Ok,
            *interface is Ok,
            *gateway matches Some(g) ==> g is Ok && g->Ok_0.v6 == (*destination)->Ok_0.v6,
            forall|k: int| 0 <= k < i ==> list@[k] != 0,
        decreases list.len() - i,
    {
        if list[i] == 0 {
            assert(list@[i as int] == 0);
            assert(list@.contains(0));
            return Err("port zero is not a valid circuit endpoint".to_owned());
        }
        i += 1;
    }
    proof {
        if ports@.contains(0) {
            assert(list@.contains(0));
            let k = choose|k: int| 0 <= k < list@.len() && list@[k] == 0;
            assert(list@[k] != 0);
        }
    }
    Ok(list)
}

/// Ports in words.
pub open spec fn port_texts(ports: Seq<u16>) -> Seq<Seq<char>> {
    Seq::new(ports.len(), |i: int| decimal(ports[i] as nat))
}

/// The ports with commas between them.
pub open spec fn port_list_text(ports: Seq<u16>) -> Seq<char> {
    join_texts(port_texts(ports), ","@)
}

pub fn ports_text(ports: &Vec<u16>) -> (r: String)
    ensures
        r@ == port_list_text(ports@),
{
    let mut list: Vec<String> = Vec::new();
    let mut i: usize = 0;
    while i < ports.len()
        invariant
            i <= ports.len(),
            list@.len() == i,
            forall|k: int| 0 <= k < i ==> (#[trigger] list@[k])@ == decimal(ports@[k] as nat),
        decreases ports.len() - i,
    {
        list.push(number_text(ports[i] as u64));
        i += 1;
    }
    assert(texts(list@) =~= port_texts(ports@));
    join(&list, ",")
}

/// The identifier of a route candidate.
pub open spec fn candidate_key(
    environment: Seq<char>,
    destination: Seq<char>,
    interface: Seq<char>,
    gateway: Option<Seq<char>>,
    ports: Seq<u16>,
) -> Seq<char> {
    capability_key(
        "mac_route"@,
        Direction::Outbound,
        environment,
        destination + "@"@ + interface + "@"@ + text_or(gateway, "direct"@) + ":"@
            + port_list_text(ports),
    )
}

/// An address and a port.
pub open spec fn endpoint_of(address: HostAddress, port: u16) -> Seq<char> {
    if address.v6 {
        "["@ + address.text@ + "]:"@ + decimal(port as nat)
    } else {
        address.text@ + ":"@ + decimal(port as nat)
    }
}

fn endpoint(address: &HostAddress, port: u16) -> (r: String)
    ensures
        r@ == endpoint_of(*address, port),
{
    if address.v6 {
        "[".to_owned().concat(address.text.as_str()).concat("]:").concat(
            number_text(port as u64).as_str(),
        )
    } else {
        address.text.clone().concat(":").concat(number_text(port as u64).as_str())
    }
}

/// The circuit that checks one port of a route candidate.
pub open spec fn port_circuit(
    candidate: Seq<char>,
    destination: Seq<char>,
    address: HostAddress,
    interface: Seq<char>,
    port: u16,
) -> CapabilityView {
    let remote = endpoint_of(address, port);
    fresh_circuit(
        capability_key("mac_route_tcp"@, Direction::Outbound, candidate, remote),
        "route-preview-"@ + destination + "-"@ + decimal(port as nat),
        "tcp"@,
        "candidate@"@ + interface,
        remote,
        ProbeView::Tcp { endpoint: remote, interface: Some(interface) },
        "macOS interface-bound candidate; the live route was not changed"@,
    )
}

/// The circuits that check the ports of a route candidate.
pub open spec fn port_circuits(
    candidate: Seq<char>,
    destination: Seq<char>,
    address: HostAddress,
    interface: Seq<char>,
    ports: Seq<u16>,
) -> Seq<CapabilityView> {
    Seq::new(
        ports.len(),
        |i: int| port_circuit(candidate, destination, address, interface, ports[i]),
    )
}

/// The identifiers of circuits.
pub open spec fn ids_of(circuits: Seq<CapabilityView>) -> Seq<Seq<char>> {
    Seq::new(circuits.len(), |i: int| circuits[i].id)
}

/// The position of the route candidate of an identifier.
pub open spec fn candidate_position(
    candidates: Seq<RouteCandidateView>,
    id: Seq<char>,
) -> Option<int>
    decreases candidates.len(),
{
    if candidates.len() == 0 {
        None
    } else {
        match candidate_position(candidates.drop_last(), id) {
            Some(i) => Some(i),
            None => if candidates.last().id == id {
                Some(candidates.len() - 1)
            } else {
                None
            },
        }
    }
}

proof fn lemma_candidate_position_stays(
    candidates: Seq<RouteCandidateView>,
    id: Seq<char>,
    n: int,
)
    requires
        0 <= n <= candidates.len(),
        candidate_position(candidates.take(n), id) is Some,
    ensures
        candidate_position(candidates, id) == candidate_position(candidates.take(n), id),
    decreases candidates.len() - n,
{
    if n < candidates.len() {
        assert(candidates.take(n + 1).drop_last() =~= candidates.take(n));
        lemma_candidate_position_stays(candidates, id, n + 1);
    } else {
        assert(candidates.take(n) =~= candidates);
    }
}

fn find_candidate(candidates: &Vec<RouteCandidate>, id: &str) -> (r: Option<usize>)
    ensures
        match r {
            Some(i) => i < candidates@.len() && candidate_position(views(candidates@), id@) == Some(
                i as int,
            ),
            None => candidate_position(views(candidates@), id@) is None,
        },
{
    let ghost all = views(candidates@);
    let mut i: usize = 0;
    while i < candidates.len()
        invariant
            i <= candidates.len(),
            all == views(candidates@),
            candidate_position(all.take(i as int), id@) is None,
        decreases candidates.len() - i,
    {
        proof {
            assert(all.take(i + 1).drop_last() =~= all.take(i as int));
            assert(all.take(i + 1).last() == candidates@[i as int]@);
        }
        if same_text(candidates[i].id.as_str(), id) {
            proof {
                lemma_candidate_position_stays(all, id@, i + 1);
            }
            return Some(i);
        }
        i += 1;
    }
    assert(all.take(candidates.len() as int) =~= all);
    None
}

/// What is asked for when a route is staged.
pub struct RouteRequest {
    pub destination: String,
    /// The address that the destination stands for.
    pub address: HostAddress,
    pub interface: String,
    pub gateway: Option<String>,
    /// The ports, each once, in rising order.
    pub ports: Vec<u16>,
    /// The route that the system takes to the destination now.
    pub observed_route: RouteObservation,
}

/// The route candidate that a request stands for.
pub open spec fn candidate_of(
    environment: Seq<char>,
    request: RouteRequest,
    at: Timestamp,
) -> RouteCandidateView {
    let id = candidate_key(
        environment,
        request.destination@,
        request.interface@,
        opt_text(request.gateway),
        request.ports@,
    );
    RouteCandidateView {
        id,
        destination: request.destination@,
        interface: request.interface@,
        gateway: opt_text(request.gateway),
        ports: request.ports@,
        created_at: at,
        observed_route: request.observed_route@,
        capability_ids: ids_of(
            port_circuits(
                id,
                request.destination@,
                request.address,
                request.interface@,
                request.ports@,
            ),
        ),
    }
}

/// The environment with a route candidate and its circuits.
pub open spec fn with_route(
    environment: EnvironmentView,
    name: Seq<char>,
    request: RouteRequest,
    at: Timestamp,
) -> Result<EnvironmentView, Seq<char>> {
    let candidate = candidate_of(name, request, at);
    if candidate_position(environment.route_candidates, candidate.id) is Some {
        Err("route candidate '"@ + candidate.id + "' already exists"@)
    } else {
        Ok(
            EnvironmentView {
                baseline: environment.baseline + port_circuits(
                    candidate.id,
                    request.destination@,
                    request.address,
                    request.interface@,
                    request.ports@,
                ),
                route_candidates: environment.route_candidates.push(candidate),
                updated_at: at,
                ..environment
            },
        )
    }
}

/// Stages a route and the circuits that check its ports. `name` is the name that the environment
/// is known by. Nothing of the host changes.
pub fn stage_route(
    environment: &mut Environment,
    name: &str,
    request: &RouteRequest,
    at: Timestamp,
) -> (r: Result<RouteCandidate, String>)
    ensures
        match r {
            Ok(candidate) => candidate@ == candidate_of(name@, *request, at) && with_route(
                old(environment)@,
                name@,
                *request,
                at,
            ) == Ok::<EnvironmentView, Seq<char>>(final(environment)@),
            Err(e) => with_route(old(environment)@, name@, *request, at) == Err::<
                EnvironmentView,
                Seq<char>,
            >(e@) && final(environment)@ == old(environment)@,
        },
{
    let hop = match &request.gateway {
        Some(g) => g.clone(),
        None => "direct".to_owned(),
    };
    let key = request.destination.clone().concat("@").concat(request.interface.as_str()).concat(
        "@",
    ).concat(hop.as_str()).concat(":").concat(ports_text(&request.ports).as_str());
    let id = capability_id("mac_route", &Direction::Outbound, name, key.as_str());
    assert(id@ == candidate_of(name@, *request, at).id);
    if find_candidate(&environment.route_candidates, id.as_str()).is_some() {
        return Err(
            "route candidate '".to_owned().concat(id.as_str()).concat("' already exists"),
        );
    }
    let ghost start = environment@;
    let ghost circuits = port_circuits(
        id@,
        request.destination@,
        request.address,
        request.interface@,
        request.ports@,
    );
    let mut capability_ids: Vec<String> = Vec::new();
    let mut i: usize = 0;
    assert(environment@.baseline =~= start.baseline + circuits.take(0));
    while i < request.ports.len()
        invariant
            i <= request.ports.len(),
            circuits == port_circuits(
                id@,
                request.destination@,
                request.address,
                request.interface@,
                request.ports@,
            ),
            environment@ == (EnvironmentView {
                baseline: start.baseline + circuits.take(i as int),
                ..start
            }),
            capability_ids@.len() == i,
            forall|k: int| 0 <= k < i ==> (#[trigger] capability_ids@[k])@ == circuits[k].id,
        decreases request.ports.len() - i,
    {
        let port = request.ports[i];
        let remote = endpoint(&request.address, port);
        let circuit_id = capability_id(
            "mac_route_tcp",
            &Direction::Outbound,
            id.as_str(),
            remote.as_str(),
        );
        let shown = "route-preview-".to_owned().concat(request.destination.as_str()).concat(
            "-",
        ).concat(number_text(port as u64).as_str());
        let circuit = make_circuit(
            circuit_id.clone(),
            shown.as_str(),
            "tcp",
            "candidate@".to_owned().concat(request.interface.as_str()),
            remote.clone(),
            ProbeSpec::Tcp { endpoint: remote, interface: Some(request.interface.clone()) },
            "macOS interface-bound candidate; the live route was not changed".to_owned(),
        );
        assert(circuit@ == circuits[i as int]);
        capability_ids.push(circuit_id);
        let ghost before = environment@.baseline;
        environment.baseline.push(circuit);
        assert(environment@.baseline =~= before.push(circuits[i as int]));
        assert(circuits.take(i + 1) =~= circuits.take(i as int).push(circuits[i as int]));
        assert(environment@.baseline =~= start.baseline + circuits.take(i + 1));
        i += 1;
    }
    assert(circuits.take(request.ports.len() as int) =~= circuits);
    assert(texts(capability_ids@) =~= ids_of(circuits));
    let candidate = RouteCandidate {
        id,
        destination: request.destination.clone(),
        interface: request.interface.clone(),
        gateway: copy_option(&request.gateway),
        ports: crate::model::copy_ports(&request.ports),
        created_at: at,
        observed_route: request.observed_route.duplicate(),
        capability_ids,
    };
    assert(candidate@ == candidate_of(name@, *request, at));
    let ghost before = environment@.route_candidates;
    environment.route_candidates.push(candidate.duplicate());
    environment.updated_at = at;
    assert(environment@.route_candidates =~= before.push(candidate@));
    Ok(candidate)
}

/// The circuit of a command that checks a route candidate.
pub open spec fn route_canary_of(
    candidate: RouteCandidateView,
    name: Seq<char>,
    argv: Seq<Seq<char>>,
) -> CapabilityView {
    fresh_circuit(
        capability_key(
            "mac_route_command"@,
            Direction::Outbound,
            candidate.id,
            join_texts(argv, "\0"@),
        ),
        name,
        "application"@,
        "candidate@"@ + candidate.interface,
        join_texts(argv, " "@),
        ProbeView::Command { argv },
        "application canary associated with route candidate "@ + candidate.id
            + "; it is rechecked after live apply"@,
    )
}

/// The environment with a command that checks a route candidate.
pub open spec fn with_route_canary(
    environment: EnvironmentView,
    id: Seq<char>,
    name: Seq<char>,
    argv: Seq<Seq<char>>,
    at: Timestamp,
) -> Result<EnvironmentView, Seq<char>> {
    match candidate_position(environment.route_candidates, id) {
        None => Err("route candidate '"@ + id + "' does not exist"@),
        Some(i) => {
            let candidate = environment.route_candidates[i];
            let circuit = route_canary_of(candidate, name, argv);
            if circuit_position(environment.baseline, circuit.id) is Some {
                Err("that route canary already exists"@)
            } else {
                Ok(
                    EnvironmentView {
                        baseline: environment.baseline.push(circuit),
                        route_candidates: environment.route_candidates.update(
                            i,
                            RouteCandidateView {
                                capability_ids: candidate.capability_ids.push(circuit.id),
                                ..candidate
                            },
                        ),
                        updated_at: at,
                        ..environment
                    },
                )
            }
        },
    }
}

proof fn lemma_candidate_position(candidates: Seq<RouteCandidateView>, id: Seq<char>)
    ensures
        candidate_position(candidates, id) matches Some(i) ==> 0 <= i < candidates.len()
            && candidates[i].id == id,
        candidate_position(candidates, id) is None ==> forall|i: int|
            0 <= i < candidates.len() ==> (#[trigger] candidates[i]).id != id,
    decreases candidates.len(),
{
    if candidates.len() > 0 {
        let shorter = candidates.drop_last();
        lemma_candidate_position(shorter, id);
        if candidate_position(candidates, id) is None {
            assert forall|i: int| 0 <= i < candidates.len() implies (#[trigger] candidates[i]).id
                != id by {
                if i < shorter.len() {
                    assert(shorter[i] == candidates[i]);
                }
            }
        }
    }
}

/// Adds a command that checks a route candidate; gives the identifier of its circuit.
pub fn add_route_canary(
    environment: &mut Environment,
    candidate: &str,
    name: &str,
    argv: Vec<String>,
    at: Timestamp,
) -> (r: Result<String, String>)
    ensures
        match r {
            Ok(id) => {
                &&& with_route_canary(
                    old(environment)@,
                    candidate@,
                    name@,
                    texts(argv@),
                    at,
                ) == Ok::<EnvironmentView, Seq<char>>(final(environment)@)
                &&& id@ == capability_key(
                    "mac_route_command"@,
                    Direction::Outbound,
                    candidate@,
                    join_texts(texts(argv@), "\0"@),
                )
            },
            Err(e) => with_route_canary(
                old(environment)@,
                candidate@,
                name@,
                texts(argv@),
                at,
            ) == Err::<EnvironmentView, Seq<char>>(e@) && final(environment)@ == old(environment)@,
        },
{
    let position = match find_candidate(&environment.route_candidates, candidate) {
        None => return Err(
            "route candidate '".to_owned().concat(candidate).concat("' does not exist"),
        ),
        Some(i) => i,
    };
    proof {
        lemma_candidate_position(environment@.route_candidates, candidate@);
    }
    let ghost start = environment@;
    let ghost words = texts(argv@);
    let ghost shown = start.route_candidates[position as int];
    assert(shown.id == candidate@);
    let id = capability_id(
        "mac_route_command",
        &Direction::Outbound,
        candidate,
        join(&argv, "\0").as_str(),
    );
    if find_circuit(&environment.baseline, id.as_str()).is_some() {
        return Err("that route canary already exists".to_owned());
    }
    let remote = join(&argv, " ");
    let circuit = make_circuit(
        id.clone(),
        name,
        "application",
        "candidate@".to_owned().concat(environment.route_candidates[position].interface.as_str()),
        remote,
        ProbeSpec::Command { argv },
        "application canary associated with route candidate ".to_owned().concat(candidate).concat(
            "; it is rechecked after live apply",
        ),
    );
    assert(circuit@ == route_canary_of(shown, name@, words));
    let mut changed = environment.route_candidates[position].duplicate();
    let ghost ids = texts(changed.capability_ids@);
    changed.capability_ids.push(id.clone());
    assert(texts(changed.capability_ids@) =~= ids.push(id@));
    let ghost after = changed@;
    environment.route_candidates.set(position, changed);
    environment.baseline.push(circuit);
    environment.updated_at = at;
    assert(environment@.route_candidates =~= start.route_candidates.update(
        position as int,
        after,
    ));
    assert(environment@.baseline =~= start.baseline.push(
        route_canary_of(shown, name@, words),
    ));
    assert(with_route_canary(start, candidate@, name@, words, at) == Ok::<
        EnvironmentView,
        Seq<char>,
    >(environment@));
    Ok(id)
}

/// The environment without a route candidate and its circuits.
pub open spec fn without_route(
    environment: EnvironmentView,
    id: Seq<char>,
    at: Timestamp,
) -> Result<EnvironmentView, Seq<char>> {
    match candidate_position(environment.route_candidates, id) {
        None => Err("route candidate '"@ + id + "' does not exist"@),
        Some(i) => Ok(
            EnvironmentView {
                baseline: without_ids(
                    environment.baseline,
                    environment.route_candidates[i].capability_ids,
                ),
                route_candidates: environment.route_candidates.remove(i),
                updated_at: at,
                ..environment
            },
        ),
    }
}

/// Removes a route candidate and its circuits. Nothing of the host changes.
pub fn remove_route(environment: &mut Environment, candidate: &str, at: Timestamp) -> (r: Result<
    (),
    String,
>)
    ensures
        match r {
            Ok(()) => without_route(old(environment)@, candidate@, at) == Ok::<
                EnvironmentView,
                Seq<char>,
            >(final(environment)@),
            Err(e) => without_route(old(environment)@, candidate@, at) == Err::<
                EnvironmentView,
                Seq<char>,
            >(e@) && final(environment)@ == old(environment)@,
        },
{
    let position = match find_candidate(&environment.route_candidates, candidate) {
        None => return Err(
            "route candidate '".to_owned().concat(candidate).concat("' does not exist"),
        ),
        Some(i) => i,
    };
    let ghost start = environment@;
    let removed = environment.route_candidates.remove(position);
    let kept = drop_ids(&environment.baseline, &removed.capability_ids);
    environment.baseline = kept;
    environment.updated_at = at;
    assert(environment@.route_candidates =~= start.route_candidates.remove(position as int));
    assert(removed@ == start.route_candidates[position as int]);
    Ok(())
}

proof fn lemma_without_appended(
    baseline: Seq<CapabilityView>,
    more: Seq<CapabilityView>,
    ids: Seq<Seq<char>>,
)
    requires
        forall|i: int| 0 <= i < baseline.len() ==> !ids.contains((#[trigger] baseline[i]).id),
        forall|i: int| 0 <= i < more.len() ==> ids.contains((#[trigger] more[i]).id),
    ensures
        without_ids(baseline + more, ids) == baseline,
    decreases more.len(),
{
    if more.len() == 0 {
        assert(baseline + more =~= baseline);
        lemma_without_ids_length(baseline, ids);
    } else {
        let all = baseline + more;
        assert(all.drop_last() =~= baseline + more.drop_last());
        assert(all.last() == more[more.len() - 1]);
        assert forall|i: int| 0 <= i < more.drop_last().len() implies ids.contains(
            (#[trigger] more.drop_last()[i]).id,
        ) by {
            assert(more.drop_last()[i] == more[i]);
        }
        lemma_without_appended(baseline, more.drop_last(), ids);
    }
}

/// A command that is added to check a route candidate, and when.
pub struct CanaryView {
    pub name: Seq<char>,
    pub argv: Seq<Seq<char>>,
    pub at: Timestamp,
}

/// The environment with commands that check a route candidate, added one after the other.
pub open spec fn with_route_canaries(
    environment: EnvironmentView,
    id: Seq<char>,
    canaries: Seq<CanaryView>,
) -> Result<EnvironmentView, Seq<char>>
    decreases canaries.len(),
{
    if canaries.len() == 0 {
        Ok(environment)
    } else {
        match with_route_canaries(environment, id, canaries.drop_last()) {
            Err(e) => Err(e),
            Ok(before) => with_route_canary(
                before,
                id,
                canaries.last().name,
                canaries.last().argv,
                canaries.last().at,
            ),
        }
    }
}

/// Whether an environment is another one with a candidate of an identifier at the end of its
/// candidates and the circuits of this candidate at the end of its own.
spec fn is_staged_on(
    environment: EnvironmentView,
    id: Seq<char>,
    circuits: Seq<CapabilityView>,
    after: EnvironmentView,
) -> bool {
    let n = environment.route_candidates.len() as int;
    &&& after == (EnvironmentView {
        baseline: environment.baseline + circuits,
        route_candidates: after.route_candidates,
        updated_at: after.updated_at,
        ..environment
    })
    &&& after.route_candidates.len() == n + 1
    &&& after.route_candidates.drop_last() == environment.route_candidates
    &&& candidate_position(environment.route_candidates, id) is None
    &&& after.route_candidates[n].id == id
    &&& forall|i: int|
        0 <= i < circuits.len() ==> after.route_candidates[n].capability_ids.contains(
            (#[trigger] circuits[i]).id,
        )
    &&& forall|i: int|
        0 <= i < environment.baseline.len() ==> !after.route_candidates[n].capability_ids.contains(
            (#[trigger] environment.baseline[i]).id,
        )
}

proof fn lemma_circuit_absent(baseline: Seq<CapabilityView>, id: Seq<char>)
    requires
        circuit_position(baseline, id) is None,
    ensures
        forall|i: int| 0 <= i < baseline.len() ==> (#[trigger] baseline[i]).id != id,
    decreases baseline.len(),
{
    if baseline.len() > 0 {
        lemma_circuit_absent(baseline.drop_last(), id);
        assert forall|i: int| 0 <= i < baseline.len() implies (#[trigger] baseline[i]).id != id by {
            if i < baseline.len() - 1 {
                assert(baseline.drop_last()[i] == baseline[i]);
            }
        }
    }
}

proof fn lemma_canary_staged(
    environment: EnvironmentView,
    id: Seq<char>,
    circuits: Seq<CapabilityView>,
    staged: EnvironmentView,
    canary: CanaryView,
) -> (more: Seq<CapabilityView>)
    requires
        is_staged_on(environment, id, circuits, staged),
        with_route_canary(staged, id, canary.name, canary.argv, canary.at) is Ok,
    ensures
        is_staged_on(
            environment,
            id,
            more,
            with_route_canary(staged, id, canary.name, canary.argv, canary.at)->Ok_0,
        ),
{
    let n = environment.route_candidates.len() as int;
    let after = with_route_canary(staged, id, canary.name, canary.argv, canary.at)->Ok_0;
    assert(candidate_position(staged.route_candidates, id) == Some(n));
    let candidate = staged.route_candidates[n];
    let circuit = route_canary_of(candidate, canary.name, canary.argv);
    let more = circuits.push(circuit);
    lemma_circuit_absent(staged.baseline, circuit.id);
    assert(after.baseline =~= environment.baseline + more);
    assert(after.route_candidates.drop_last() =~= environment.route_candidates);
    let ids = after.route_candidates[n].capability_ids;
    assert(ids == candidate.capability_ids.push(circuit.id));
    assert forall|i: int| 0 <= i < more.len() implies ids.contains((#[trigger] more[i]).id) by {
        if i < circuits.len() {
            assert(candidate.capability_ids.contains(circuits[i].id));
            let k = choose|k: int|
                0 <= k < candidate.capability_ids.len() && candidate.capability_ids[k]
                    == circuits[i].id;
            assert(ids[k] == more[i].id);
        } else {
            assert(ids[candidate.capability_ids.len() as int] == circuit.id);
        }
    }
    assert forall|i: int| 0 <= i < environment.baseline.len() implies !ids.contains(
        (#[trigger] environment.baseline[i]).id,
    ) by {
        assert(staged.baseline[i] == environment.baseline[i]);
        if ids.contains(environment.baseline[i].id) {
            let k = choose|k: int| 0 <= k < ids.len() && ids[k] == environment.baseline[i].id;
            if k < candidate.capability_ids.len() {
                assert(candidate.capability_ids[k] == environment.baseline[i].id);
            }
        }
    }
    more
}

proof fn lemma_canaries_staged(
    environment: EnvironmentView,
    id: Seq<char>,
    circuits: Seq<CapabilityView>,
    staged: EnvironmentView,
    canaries: Seq<CanaryView>,
) -> (more: Seq<CapabilityView>)
    requires
        is_staged_on(environment, id, circuits, staged),
        with_route_canaries(staged, id, canaries) is Ok,
    ensures
        is_staged_on(environment, id, more, with_route_canaries(staged, id, canaries)->Ok_0),
    decreases canaries.len(),
{
    if canaries.len() == 0 {
        circuits
    } else {
        let before = with_route_canaries(staged, id, canaries.drop_last())->Ok_0;
        let some = lemma_canaries_staged(environment, id, circuits, staged, canaries.drop_last());
        lemma_canary_staged(environment, id, some, before, canaries.last())
    }
}

/// Removing a staged route undoes staging it and every command that was added to check it: the
/// removal succeeds, and but for the time of the last change, the environment is as it was,
/// provided that none of the circuits of its ports was there before.
pub proof fn law_removing_undoes_staging(
    environment: EnvironmentView,
    name: Seq<char>,
    request: RouteRequest,
    at: Timestamp,
    canaries: Seq<CanaryView>,
    later: Timestamp,
)
    requires
        with_route(environment, name, request, at) is Ok,
        forall|i: int|
            0 <= i < environment.baseline.len() ==> !candidate_of(
                name,
                request,
                at,
            ).capability_ids.contains((#[trigger] environment.baseline[i]).id),
        with_route_canaries(
            with_route(environment, name, request, at)->Ok_0,
            candidate_of(name, request, at).id,
            canaries,
        ) is Ok,
    ensures
        without_route(
            with_route_canaries(
                with_route(environment, name, request, at)->Ok_0,
                candidate_of(name, request, at).id,
                canaries,
            )->Ok_0,
            candidate_of(name, request, at).id,
            later,
        ) == Ok::<EnvironmentView, Seq<char>>(
            EnvironmentView { updated_at: later, ..environment },
        ),
{
    let candidate = candidate_of(name, request, at);
    let staged = with_route(environment, name, request, at)->Ok_0;
    let n = environment.route_candidates.len() as int;
    let circuits = port_circuits(
        candidate.id,
        request.destination@,
        request.address,
        request.interface@,
        request.ports@,
    );
    assert(staged.route_candidates.drop_last() =~= environment.route_candidates);
    assert(staged.route_candidates[n] == candidate);
    assert forall|i: int| 0 <= i < circuits.len() implies candidate.capability_ids.contains(
        (#[trigger] circuits[i]).id,
    ) by {
        assert(candidate.capability_ids[i] == circuits[i].id);
    }
    let all = lemma_canaries_staged(environment, candidate.id, circuits, staged, canaries);
    let last = with_route_canaries(staged, candidate.id, canaries)->Ok_0;
    assert(candidate_position(last.route_candidates, candidate.id) == Some(n));
    assert(last.route_candidates.remove(n) =~= environment.route_candidates);
    lemma_without_appended(
        environment.baseline,
        all,
        last.route_candidates[n].capability_ids,
    );
}

/// Staging, checking and removing a route candidate changes nothing of an environment but its
/// circuits, its candidates and the time of the last change: above all, none of the files that it
/// stages.
pub proof fn law_routes_leave_files_alone(
    environment: EnvironmentView,
    name: Seq<char>,
    request: RouteRequest,
    id: Seq<char>,
    argv: Seq<Seq<char>>,
    at: Timestamp,
)
    ensures
        with_route(environment, name, request, at) matches Ok(after) ==> after
            == (EnvironmentView {
            baseline: after.baseline,
            route_candidates: after.route_candidates,
            updated_at: at,
            ..environment
        }),
        with_route_canary(environment, id, name, argv, at) matches Ok(after) ==> after
            == (EnvironmentView {
            baseline: after.baseline,
            route_candidates: after.route_candidates,
            updated_at: at,
            ..environment
        }),
        without_route(environment, id, at) matches Ok(after) ==> after == (EnvironmentView {
            baseline: after.baseline,
            route_candidates: after.route_candidates,
            updated_at: at,
            ..environment
        }),
{
}

/// Whether a candidate can only be checked by installing its route: the live route goes another
/// way.
pub open spec fn needs_trial(candidate: RouteCandidateView) -> bool {
    candidate.observed_route.interface != Some(candidate.interface)
        || candidate.observed_route.gateway != candidate.gateway
}

pub fn route_candidate_needs_guarded_trial(candidate: &RouteCandidate) -> (r: bool)
    ensures
        r == needs_trial(candidate@),
{
    !option_is(&candidate.observed_route.interface, candidate.interface.as_str())
        || !same_option(&candidate.observed_route.gateway, &candidate.gateway)
}

/// Whether a circuit can only be checked by installing the route that it belongs to.
pub open spec fn is_guarded(candidates: Seq<RouteCandidateView>, id: Seq<char>) -> bool {
    exists|i: int|
        0 <= i < candidates.len() && needs_trial(#[trigger] candidates[i])
            && candidates[i].capability_ids.contains(id)
}

/// Whether a circuit belongs to a candidate that only a guarded trial can test.
pub fn guarded(candidates: &Vec<RouteCandidate>, id: &str) -> (r: bool)
    ensures
        r == is_guarded(views(candidates@), id@),
{
    let mut i: usize = 0;
    while i < candidates.len()
        invariant
            i <= candidates.len(),
            forall|k: int|
                0 <= k < i ==> !(needs_trial(#[trigger] views(candidates@)[k]) && views(
                    candidates@,
                )[k].capability_ids.contains(id@)),
        decreases candidates.len() - i,
    {
        if route_candidate_needs_guarded_trial(&candidates[i]) && contains_text(
            &candidates[i].capability_ids,
            id,
        ) {
            assert(needs_trial(views(candidates@)[i as int]));
            return true;
        }
        i += 1;
    }
    false
}

/// Whether any candidate has a circuit.
pub open spec fn has_route_circuits(candidates: Seq<RouteCandidateView>) -> bool {
    exists|i: int|
        0 <= i < candidates.len() && (#[trigger] candidates[i]).capability_ids.len() > 0
}

/// Whether any candidate with a circuit can only be checked by installing its route.
pub open spec fn has_guarded_circuits(candidates: Seq<RouteCandidateView>) -> bool {
    exists|i: int|
        0 <= i < candidates.len() && needs_trial(#[trigger] candidates[i])
            && candidates[i].capability_ids.len() > 0
}

/// A circuit whose check is put off to a trial.
pub open spec fn put_off(capability: CapabilityView, at: Timestamp) -> CapabilityView {
    CapabilityView {
        validation: ValidationState::Unverifiable,
        detail: Some(
            "the staged host route differs from the live route; macOS cannot select that exact route per socket, so this check is deferred to a guarded route trial"@,
        ),
        last_checked_at: Some(at),
        ..capability
    }
}

/// A circuit after the candidates were tested.
pub open spec fn route_tested(
    candidates: Seq<RouteCandidateView>,
    capability: CapabilityView,
    report: ProbeReport,
) -> CapabilityView {
    if is_guarded(candidates, capability.id) {
        put_off(capability, report.at)
    } else {
        checked(capability, report.reply, report.at)
    }
}

/// The circuits after the candidates were tested.
pub open spec fn routes_tested(
    candidates: Seq<RouteCandidateView>,
    baseline: Seq<CapabilityView>,
    reports: Seq<ProbeReport>,
) -> Seq<CapabilityView> {
    Seq::new(baseline.len(), |i: int| route_tested(candidates, baseline[i], reports[i]))
}

/// Whether some required circuit is not known to be preserved.
pub open spec fn lacks_proof(baseline: Seq<CapabilityView>) -> bool {
    exists|i: int|
        0 <= i < baseline.len() && (#[trigger] baseline[i]).required && baseline[i].validation
            != ValidationState::Preserved
}

pub fn unproven(baseline: &Vec<Capability>) -> (r: bool)
    ensures
        r == lacks_proof(views(baseline@)),
{
    let mut i: usize = 0;
    while i < baseline.len()
        invariant
            i <= baseline.len(),
            forall|k: int|
                0 <= k < i ==> !((#[trigger] views(baseline@)[k]).required && views(
                    baseline@,
                )[k].validation != ValidationState::Preserved),
        decreases baseline.len() - i,
    {
        if baseline[i].required && baseline[i].validation != ValidationState::Preserved {
            assert(views(baseline@)[i as int].required);
            return true;
        }
        i += 1;
    }
    false
}

/// What a test of the candidates came to.
#[derive(Debug, Clone, Copy, PartialEq, Eq, Structural)]
pub struct RouteTest {
    /// Whether some required circuit is not known to be preserved.
    pub failed: bool,
    /// Whether some circuit can only be checked by installing its route.
    pub guarded: bool,
}

impl RouteTest {
    /// The code that a test of the candidates exits with.
    pub fn exit_code(&self) -> (r: i32)
        ensures
            r == if self.failed {
                2i32
            } else {
                0i32
            },
    {
        if self.failed {
            2
        } else {
            0
        }
    }
}

/// The status that a check leaves.
pub open spec fn checked_status(failed: bool) -> EnvironmentStatus {
    if failed {
        EnvironmentStatus::ValidationFailed
    } else {
        EnvironmentStatus::Ready
    }
}

/// Refuses to test an environment without route candidates.
pub fn check_route_test(environment: &Environment, name: &str) -> (r: Result<(), String>)
    ensures
        r is Ok <==> has_route_circuits(environment@.route_candidates),
        r matches Err(e) ==> e@ == "environment '"@ + name@ + "' has no macOS route candidates"@,
{
    let ghost all = views(environment.route_candidates@);
    let mut i: usize = 0;
    while i < environment.route_candidates.len()
        invariant
            i <= environment.route_candidates.len(),
            all == views(environment.route_candidates@),
            forall|k: int| 0 <= k < i ==> (#[trigger] all[k]).capability_ids.len() == 0,
        decreases environment.route_candidates.len() - i,
    {
        if environment.route_candidates[i].capability_ids.len() > 0 {
            assert(all[i as int].capability_ids.len() > 0);
            return Ok(());
        }
        i += 1;
    }
    Err("environment '".to_owned().concat(name).concat("' has no macOS route candidates"))
}

/// Records a test of the candidates: what came of the check of each circuit, and which of them are
/// put off to a trial.
pub fn test_routes(environment: &mut Environment, reports: &Vec<ProbeReport>, at: Timestamp) -> (r:
    RouteTest)
    requires
        reports.len() == old(environment).baseline.len(),
        forall|i: int|
            0 <= i < reports.len() ==> is_guarded(
                old(environment)@.route_candidates,
                old(environment)@.baseline[i].id,
            ) || answers((#[trigger] reports@[i]).reply, old(environment)@.baseline[i]),
    ensures
        ({
            let before = old(environment)@;
            let baseline = routes_tested(before.route_candidates, before.baseline, reports@);
            &&& final(environment)@ == (EnvironmentView {
                baseline,
                status: checked_status(lacks_proof(baseline)),
                updated_at: at,
                ..before
            })
            &&& r.failed == lacks_proof(baseline)
            &&& r.guarded == has_guarded_circuits(before.route_candidates)
        }),
{
    let ghost start = environment@;
    let ghost routes = start.route_candidates;
    let mut tested: Vec<Capability> = Vec::new();
    let mut i: usize = 0;
    while i < environment.baseline.len()
        invariant
            i <= environment.baseline.len(),
            environment@ == start,
            routes == start.route_candidates,
            reports.len() == environment.baseline.len(),
            forall|k: int|
                0 <= k < reports.len() ==> is_guarded(routes, start.baseline[k].id) || answers(
                    (#[trigger] reports@[k]).reply,
                    start.baseline[k],
                ),
            tested@.len() == i,
            forall|k: int|
                0 <= k < i ==> (#[trigger] tested@[k])@ == route_tested(
                    routes,
                    start.baseline[k],
                    reports@[k],
                ),
        decreases environment.baseline.len() - i,
    {
        let mut capability = environment.baseline[i].duplicate();
        assert(capability@ == start.baseline[i as int]);
        if guarded(&environment.route_candidates, capability.id.as_str()) {
            capability.validation = ValidationState::Unverifiable;
            capability.detail = Some(
                "the staged host route differs from the live route; macOS cannot select that exact route per socket, so this check is deferred to a guarded route trial".to_owned(),
            );
            capability.last_checked_at = Some(reports[i].at);
        } else {
            assert(answers(reports@[i as int].reply, start.baseline[i as int]));
            validate_capability(&mut capability, &reports[i]);
        }
        tested.push(capability);
        i += 1;
    }
    let ghost baseline = routes_tested(routes, start.baseline, reports@);
    assert(views(tested@) =~= baseline);
    let failed = unproven(&tested);
    environment.baseline = tested;
    environment.status = if failed {
        EnvironmentStatus::ValidationFailed
    } else {
        EnvironmentStatus::Ready
    };
    environment.updated_at = at;
    let guarded_circuits = any_guarded(&environment.route_candidates);
    RouteTest { failed, guarded: guarded_circuits }
}

fn any_guarded(candidates: &Vec<RouteCandidate>) -> (r: bool)
    ensures
        r == has_guarded_circuits(views(candidates@)),
{
    let ghost all = views(candidates@);
    let mut i: usize = 0;
    while i < candidates.len()
        invariant
            i <= candidates.len(),
            all == views(candidates@),
            forall|k: int|
                0 <= k < i ==> !(needs_trial(#[trigger] all[k]) && all[k].capability_ids.len() > 0),
        decreases candidates.len() - i,
    {
        if route_candidate_needs_guarded_trial(&candidates[i])
            && candidates[i].capability_ids.len() > 0 {
            assert(needs_trial(all[i as int]));
            return true;
        }
        i += 1;
    }
    false
}

/// A test never takes a circuit for preserved whose route is not the live one.
pub proof fn law_untested_routes_are_never_preserved(
    candidates: Seq<RouteCandidateView>,
    baseline: Seq<CapabilityView>,
    reports: Seq<ProbeReport>,
    i: int,
)
    requires
        0 <= i < baseline.len(),
        is_guarded(candidates, baseline[i].id),
    ensures
        routes_tested(candidates, baseline, reports)[i].validation
            == ValidationState::Unverifiable,
        baseline[i].required ==> lacks_proof(routes_tested(candidates, baseline, reports)),
{
    let after = routes_tested(candidates, baseline, reports);
    assert(after[i] == put_off(baseline[i], reports[i].at));
}

/// Whether a circuit is checked just before an apply: it is required and, in a trial, does not
/// belong to a route that is yet to be installed.
pub open spec fn is_refreshed(
    environment: EnvironmentView,
    trial: bool,
    capability: CapabilityView,
) -> bool {
    capability.required && !(trial && is_deferred(environment.route_candidates, capability.id))
}

/// The circuits after those that matter for an apply were checked.
pub open spec fn refreshed(
    environment: EnvironmentView,
    trial: bool,
    reports: Seq<ProbeReport>,
) -> Seq<CapabilityView> {
    Seq::new(
        environment.baseline.len(),
        |i: int|
            if is_refreshed(environment, trial, environment.baseline[i]) {
                checked(environment.baseline[i], reports[i].reply, reports[i].at)
            } else {
                environment.baseline[i]
            },
    )
}

/// How many of the first `n` circuits are checked just before an apply.
pub open spec fn refreshed_count(environment: EnvironmentView, trial: bool, n: int) -> nat
    decreases n,
{
    if n <= 0 {
        0
    } else {
        refreshed_count(environment, trial, n - 1) + if is_refreshed(
            environment,
            trial,
            environment.baseline[n - 1],
        ) {
            1nat
        } else {
            0nat
        }
    }
}

/// Whether a circuit has to be checked just before an apply.
pub fn refreshes(environment: &Environment, trial: bool, capability: &Capability) -> (r: bool)
    ensures
        r == is_refreshed(environment@, trial, capability@),
{
    capability.required && !(trial && belongs_to_route(
        &environment.route_candidates,
        capability.id.as_str(),
    ))
}

/// Records the checks that are made just before an apply; gives their number.
pub fn refresh_pre_apply_capabilities(
    environment: &mut Environment,
    guarded_trial: bool,
    reports: &Vec<ProbeReport>,
) -> (r: usize)
    requires
        reports.len() == old(environment).baseline.len(),
        forall|i: int|
            0 <= i < reports.len() ==> !is_refreshed(
                old(environment)@,
                guarded_trial,
                old(environment)@.baseline[i],
            ) || answers((#[trigger] reports@[i]).reply, old(environment)@.baseline[i]),
    ensures
        final(environment)@ == (EnvironmentView {
            baseline: refreshed(old(environment)@, guarded_trial, reports@),
            ..old(environment)@
        }),
        r == refreshed_count(
            old(environment)@,
            guarded_trial,
            old(environment)@.baseline.len() as int,
        ),
{
    let ghost start = environment@;
    let mut after: Vec<Capability> = Vec::new();
    let mut count: usize = 0;
    let mut i: usize = 0;
    while i < environment.baseline.len()
        invariant
            i <= environment.baseline.len(),
            environment@ == start,
            reports.len() == environment.baseline.len(),
            forall|k: int|
                0 <= k < reports.len() ==> !is_refreshed(
                    start,
                    guarded_trial,
                    start.baseline[k],
                ) || answers((#[trigger] reports@[k]).reply, start.baseline[k]),
            after@.len() == i,
            forall|k: int|
                0 <= k < i ==> (#[trigger] after@[k])@ == refreshed(
                    start,
                    guarded_trial,
                    reports@,
                )[k],
            count <= i,
            count == refreshed_count(start, guarded_trial, i as int),
        decreases environment.baseline.len() - i,
    {
        let mut capability = environment.baseline[i].duplicate();
        assert(capability@ == start.baseline[i as int]);
        if refreshes(environment, guarded_trial, &environment.baseline[i]) {
            assert(answers(reports@[i as int].reply, start.baseline[i as int]));
            validate_capability(&mut capability, &reports[i]);
            count += 1;
        }
        after.push(capability);
        i += 1;
    }
    assert(views(after@) =~= refreshed(start, guarded_trial, reports@));
    environment.baseline = after;
    count
}

/// A check just before an apply makes its results count: every circuit that it covers is fresh for
/// the next minute, unless it is ignored, and every other circuit stays as it is.
pub proof fn law_refreshed_circuits_are_fresh(
    environment: EnvironmentView,
    trial: bool,
    reports: Seq<ProbeReport>,
    i: int,
    now: Timestamp,
)
    requires
        0 <= i < environment.baseline.len(),
    ensures
        ({
            let before = environment.baseline[i];
            let after = refreshed(environment, trial, reports)[i];
            if is_refreshed(environment, trial, before) && before.validation
                != ValidationState::Ignored {
                now.nanos() - reports[i].at.nanos() <= FRESH_SECONDS * 1_000_000_000 ==> !is_stale(
                    after.last_checked_at,
                    now,
                )
            } else {
                after == before
            }
        }),
{
}

/// The required circuits that are not known to be preserved, or not by a recent check.
pub open spec fn blocking_rule(now: Timestamp) -> spec_fn(CapabilityView) -> bool {
    |c: CapabilityView|
        c.required && (is_stale(c.last_checked_at, now) || c.validation
            != ValidationState::Preserved)
}

/// The required circuits that stand against a commit at a given time.
pub fn validation_blockers_at(environment: &Environment, now: Timestamp) -> (r: Vec<String>)
    ensures
        texts(r@) == ids_where(environment@.baseline, blocking_rule(now)),
{
    let ghost all = views(environment.baseline@);
    let mut r: Vec<String> = Vec::new();
    let mut i: usize = 0;
    assert(texts(r@) =~= Seq::empty());
    while i < environment.baseline.len()
        invariant
            i <= environment.baseline.len(),
            all == views(environment.baseline@),
            texts(r@) == ids_where(all.take(i as int), blocking_rule(now)),
        decreases environment.baseline.len() - i,
    {
        let capability = &environment.baseline[i];
        let ghost before = texts(r@);
        proof {
            assert(all.take(i + 1).drop_last() =~= all.take(i as int));
            assert(all.take(i + 1).last() == capability@);
        }
        if capability.required && (stale(&capability.last_checked_at, &now)
            || capability.validation != ValidationState::Preserved) {
            r.push(capability.id.clone());
            assert(texts(r@) =~= before.push(capability@.id));
        }
        i += 1;
    }
    assert(all.take(environment.baseline.len() as int) =~= all);
    r
}

/// The required circuits that stand against a commit now.
pub fn validation_blockers(environment: &Environment) -> (r: Vec<String>)
    ensures
        exists|now: Timestamp|
            texts(r@) == #[trigger] ids_where(environment@.baseline, blocking_rule(now)),
{
    let now = utc_now();
    validation_blockers_at(environment, now)
}

} // verus!
