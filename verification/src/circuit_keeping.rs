//! What holds of circuits and route candidates as they are added, changed, checked and removed.
use vstd::prelude::*;

use crate::circuits::{
    circuit_position, command_circuit_of, lemma_circuit_position, tcp_circuit_of, with_requirement,
    without_ids,
};
use crate::clock::Timestamp;
use crate::connectivity::{all_checked, ends_with, ProbeReport};
use crate::model::{
    CapabilityView, Direction, EnvironmentView, ProbeView, RouteCandidateView, ValidationState,
};
use crate::plan::{belongs_to_a_route, ids_where, is_deferred, lemma_ids_where};
use crate::probe::{diagnostic, probe_reply, probe_step, Poll, ProbeStepView, Span};
use crate::staged_routes::{
    blocking_rule, candidate_of, candidate_position, has_guarded_circuits, has_route_circuits,
    is_guarded, lacks_proof, needs_trial, port_circuits, preview_refusal, refreshed,
    refreshed_count, routes_tested, with_route, with_route_canary, without_route, HostAddress,
    RouteRequest,
};
use crate::text::decimal;

verus! {

/// Whether a circuit has to be kept and was not checked yet.
pub open spec fn awaits_its_first_check(circuit: CapabilityView) -> bool {
    &&& circuit.required
    &&& circuit.validation == ValidationState::Pending
    &&& circuit.last_checked_at is None
    &&& circuit.direction == Direction::Outbound
}

/// A circuit that is added by hand blocks until it is checked, and is checked as was asked: by the
/// command with all of its arguments, or by a connection to the endpoint over the interface.
pub proof fn law_new_circuits_are_checked_as_asked(
    name: Seq<char>,
    argv: Seq<Seq<char>>,
    endpoint: Seq<char>,
    interface: Option<Seq<char>>,
)
    ensures
        awaits_its_first_check(command_circuit_of(name, argv)),
        command_circuit_of(name, argv).name == Some(name),
        command_circuit_of(name, argv).probe == (ProbeView::Command { argv }),
        awaits_its_first_check(tcp_circuit_of(name, endpoint, interface)),
        tcp_circuit_of(name, endpoint, interface).name == Some(name),
        tcp_circuit_of(name, endpoint, interface).remote == endpoint,
        tcp_circuit_of(name, endpoint, interface).probe == (ProbeView::Tcp {
            endpoint,
            interface,
        }),
{
}

/// Whether one position holds the only circuit that is not as it was, and that only in whether and
/// why it blocks.
pub open spec fn differs_in_requirement(
    before: Seq<CapabilityView>,
    after: Seq<CapabilityView>,
    i: int,
    id: Seq<char>,
    required: bool,
) -> bool {
    &&& 0 <= i < before.len()
    &&& before[i].id == id
    &&& after.len() == before.len()
    &&& forall|k: int| 0 <= k < before.len() && k != i ==> #[trigger] after[k] == before[k]
    &&& after[i] == CapabilityView {
        required,
        validation: after[i].validation,
        detail: after[i].detail,
        ..before[i]
    }
    &&& after[i].validation == if required {
        ValidationState::Pending
    } else {
        ValidationState::Ignored
    }
}

/// A circuit can be made to block, or not to, wherever there is one of that identifier. One circuit
/// changes, in nothing but whether it blocks: if it has to be kept it counts as not checked, and if
/// not as ignored.
pub proof fn law_requirements_change_one_circuit(
    environment: EnvironmentView,
    id: Seq<char>,
    required: bool,
    at: Timestamp,
)
    ensures
        with_requirement(environment, id, required, at) is Ok <==> exists|i: int|
            0 <= i < environment.baseline.len() && (#[trigger] environment.baseline[i]).id == id,
        with_requirement(environment, id, required, at) matches Ok(after) ==> after
            == (EnvironmentView { baseline: after.baseline, updated_at: at, ..environment })
            && exists|i: int| #[trigger]
            differs_in_requirement(environment.baseline, after.baseline, i, id, required),
{
    lemma_circuit_position(environment.baseline, id);
    if let Ok(after) = with_requirement(environment, id, required, at) {
        let i = circuit_position(environment.baseline, id)->Some_0;
        assert(differs_in_requirement(environment.baseline, after.baseline, i, id, required));
    }
}

/// Removing circuits keeps exactly those of other identifiers.
pub proof fn law_other_circuits_stay(
    baseline: Seq<CapabilityView>,
    ids: Seq<Seq<char>>,
    circuit: CapabilityView,
)
    ensures
        without_ids(baseline, ids).contains(circuit) <==> baseline.contains(circuit)
            && !ids.contains(circuit.id),
        without_ids(baseline, ids).len() <= baseline.len(),
    decreases baseline.len(),
{
    if baseline.len() > 0 {
        let shorter = baseline.drop_last();
        law_other_circuits_stay(shorter, ids, circuit);
        lemma_pushed(shorter, baseline.last(), circuit);
        lemma_pushed(without_ids(shorter, ids), baseline.last(), circuit);
        assert(shorter.push(baseline.last()) =~= baseline);
    }
}

proof fn lemma_pushed(list: Seq<CapabilityView>, last: CapabilityView, circuit: CapabilityView)
    ensures
        list.push(last).contains(circuit) <==> list.contains(circuit) || last == circuit,
{
    let longer = list.push(last);
    if longer.contains(circuit) {
        let i = choose|i: int| 0 <= i < longer.len() && longer[i] == circuit;
        if i < list.len() {
            assert(list[i] == circuit);
        }
    }
    if list.contains(circuit) {
        let i = choose|i: int| 0 <= i < list.len() && list[i] == circuit;
        assert(longer[i] == circuit);
    }
    assert(longer[list.len() as int] == last);
}

/// Whether a text is an address and a port, the address of version 6 in brackets.
pub open spec fn is_endpoint(text: Seq<char>, address: HostAddress, port: u16) -> bool {
    if address.v6 {
        text == seq!['['] + address.text@ + seq![']', ':'] + decimal(port as nat)
    } else {
        text == address.text@ + seq![':'] + decimal(port as nat)
    }
}

/// Whether a circuit checks one port of a destination over an interface.
pub open spec fn checks_port(
    circuit: CapabilityView,
    address: HostAddress,
    interface: Seq<char>,
    port: u16,
) -> bool {
    &&& awaits_its_first_check(circuit)
    &&& is_endpoint(circuit.remote, address, port)
    &&& circuit.probe == (ProbeView::Tcp { endpoint: circuit.remote, interface: Some(interface) })
}

/// A staged route is the one that was asked for: its candidate leads to the destination through the
/// interface and the gateway, and keeps the route that was live. Each of its ports gets a circuit
/// that checks it over the interface, and the candidate knows them all. What was staged before
/// stays, and the same route is not staged twice.
pub proof fn law_staged_routes_are_as_asked(
    environment: EnvironmentView,
    name: Seq<char>,
    request: RouteRequest,
    at: Timestamp,
    i: int,
)
    ensures
        with_route(environment, name, request, at) is Ok <==> forall|k: int|
            0 <= k < environment.route_candidates.len() ==> (
            #[trigger] environment.route_candidates[k]).id != candidate_of(name, request, at).id,
        with_route(environment, name, request, at) matches Ok(after) ==> {
            let candidate = after.route_candidates.last();
            let n = environment.baseline.len();
            &&& after == (EnvironmentView {
                baseline: after.baseline,
                route_candidates: after.route_candidates,
                updated_at: at,
                ..environment
            })
            &&& after.route_candidates.len() == environment.route_candidates.len() + 1
            &&& after.route_candidates.drop_last() == environment.route_candidates
            &&& candidate.destination == request.destination@
            &&& candidate.interface == request.interface@
            &&& candidate.gateway == match request.gateway {
                Some(gateway) => Some(gateway@),
                None => None,
            }
            &&& candidate.ports == request.ports@
            &&& candidate.observed_route == request.observed_route@
            &&& candidate.created_at == at
            &&& after.baseline.len() == n + request.ports@.len()
            &&& after.baseline.take(n as int) == environment.baseline
            &&& candidate.capability_ids.len() == request.ports@.len()
            &&& 0 <= i < request.ports@.len() ==> checks_port(
                after.baseline[n + i],
                request.address,
                request.interface@,
                request.ports@[i],
            ) && candidate.capability_ids[i] == after.baseline[n + i].id
        },
{
    reveal_strlit("[");
    reveal_strlit("]:");
    reveal_strlit(":");
    lemma_candidate(environment.route_candidates, candidate_of(name, request, at).id);
    if let Ok(after) = with_route(environment, name, request, at) {
        let n = environment.baseline.len() as int;
        assert(after.route_candidates.drop_last() =~= environment.route_candidates);
        assert(after.baseline.take(n) =~= environment.baseline);
        let circuits = port_circuits(
            candidate_of(name, request, at).id,
            request.destination@,
            request.address,
            request.interface@,
            request.ports@,
        );
        if 0 <= i < request.ports@.len() {
            assert(after.baseline[n + i] == circuits[i]);
            let text = circuits[i].remote;
            let port = decimal(request.ports@[i] as nat);
            assert("["@ =~= seq!['[']);
            assert("]:"@ =~= seq![']', ':']);
            assert(":"@ =~= seq![':']);
            assert(is_endpoint(text, request.address, request.ports@[i]));
        }
    }
}

proof fn lemma_candidate(candidates: Seq<RouteCandidateView>, id: Seq<char>)
    ensures
        match candidate_position(candidates, id) {
            Some(i) => 0 <= i < candidates.len() && candidates[i].id == id && forall|k: int|
                0 <= k < i ==> (#[trigger] candidates[k]).id != id,
            None => forall|k: int| 0 <= k < candidates.len() ==> (#[trigger] candidates[k]).id != id,
        },
    decreases candidates.len(),
{
    if candidates.len() > 0 {
        let shorter = candidates.drop_last();
        lemma_candidate(shorter, id);
        assert forall|k: int| 0 <= k < shorter.len() implies (#[trigger] candidates[k])
            == shorter[k] by {}
    }
}

/// Whether one candidate, of the given identifier, got one more circuit, and no other changed.
pub open spec fn got_circuit(
    before: Seq<RouteCandidateView>,
    after: Seq<RouteCandidateView>,
    i: int,
    id: Seq<char>,
    circuit: Seq<char>,
) -> bool {
    &&& 0 <= i < before.len()
    &&& before[i].id == id
    &&& after.len() == before.len()
    &&& forall|k: int| 0 <= k < before.len() && k != i ==> #[trigger] after[k] == before[k]
    &&& after[i] == RouteCandidateView {
        capability_ids: before[i].capability_ids.push(circuit),
        ..before[i]
    }
}

/// A command that checks a route candidate becomes a circuit, behind all the others, that runs that
/// command and blocks until it passes; the candidate of that identifier knows it, and nothing else
/// changes.
pub proof fn law_canaries_belong_to_their_route(
    environment: EnvironmentView,
    id: Seq<char>,
    name: Seq<char>,
    argv: Seq<Seq<char>>,
    at: Timestamp,
)
    ensures
        with_route_canary(environment, id, name, argv, at) is Ok ==> exists|k: int|
            0 <= k < environment.route_candidates.len() && (
            #[trigger] environment.route_candidates[k]).id == id,
        with_route_canary(environment, id, name, argv, at) matches Ok(after) ==> {
            let circuit = after.baseline.last();
            &&& after == (EnvironmentView {
                baseline: after.baseline,
                route_candidates: after.route_candidates,
                updated_at: at,
                ..environment
            })
            &&& after.baseline.len() == environment.baseline.len() + 1
            &&& after.baseline.drop_last() == environment.baseline
            &&& awaits_its_first_check(circuit)
            &&& circuit.name == Some(name)
            &&& circuit.probe == (ProbeView::Command { argv })
            &&& exists|i: int| #[trigger]
                got_circuit(
                    environment.route_candidates,
                    after.route_candidates,
                    i,
                    id,
                    circuit.id,
                )
        },
{
    lemma_candidate(environment.route_candidates, id);
    if let Ok(after) = with_route_canary(environment, id, name, argv, at) {
        let i = candidate_position(environment.route_candidates, id)->Some_0;
        assert(environment.route_candidates[i].id == id);
        assert(after.baseline.drop_last() =~= environment.baseline);
        assert(got_circuit(
            environment.route_candidates,
            after.route_candidates,
            i,
            id,
            after.baseline.last().id,
        ));
    }
}

/// Removing a route candidate takes it and its circuits away, and leaves all others.
pub proof fn law_removed_routes_take_their_circuits(
    environment: EnvironmentView,
    id: Seq<char>,
    at: Timestamp,
    circuit: CapabilityView,
)
    ensures
        without_route(environment, id, at) is Ok <==> exists|k: int|
            0 <= k < environment.route_candidates.len() && (
            #[trigger] environment.route_candidates[k]).id == id,
        without_route(environment, id, at) matches Ok(after) ==> after == (EnvironmentView {
            baseline: after.baseline,
            route_candidates: after.route_candidates,
            updated_at: at,
            ..environment
        }) && exists|i: int|
            0 <= i < environment.route_candidates.len() && (
            #[trigger] environment.route_candidates[i]).id == id && after.route_candidates
                == environment.route_candidates.remove(i) && (after.baseline.contains(circuit)
                <==> environment.baseline.contains(circuit)
                && !environment.route_candidates[i].capability_ids.contains(circuit.id)),
{
    lemma_candidate(environment.route_candidates, id);
    if let Ok(after) = without_route(environment, id, at) {
        let i = candidate_position(environment.route_candidates, id)->Some_0;
        law_other_circuits_stay(
            environment.baseline,
            environment.route_candidates[i].capability_ids,
            circuit,
        );
        assert(environment.route_candidates[i].id == id);
    }
}

/// A route can be staged exactly if its destination is an address, its interface exists, its
/// gateway, if there is one, is an address of the same version, and none of its ports is zero.
pub proof fn law_previews_need_addresses(
    destination: Result<HostAddress, String>,
    interface: Result<(), String>,
    gateway: Option<Result<HostAddress, String>>,
    ports: Seq<u16>,
)
    ensures
        preview_refusal(destination, interface, gateway, ports) is None <==> destination is Ok
            && interface is Ok && (gateway is Some ==> gateway->Some_0 is Ok
            && gateway->Some_0->Ok_0.v6 == destination->Ok_0.v6) && forall|i: int|
            0 <= i < ports.len() ==> #[trigger] ports[i] != 0,
{
}

/// Whether a circuit belongs to a candidate whose route is not the live one.
pub open spec fn belongs_to_another_way(
    candidates: Seq<RouteCandidateView>,
    id: Seq<char>,
) -> bool {
    exists|i: int|
        0 <= i < candidates.len() && (#[trigger] candidates[i]).capability_ids.contains(id) && !(
        candidates[i].observed_route.interface == Some(candidates[i].interface)
            && candidates[i].observed_route.gateway == candidates[i].gateway)
}

/// A test of the candidates judges every circuit as a check does, but for those of a route that is
/// not the live one: these cannot be checked yet, and say so, and nothing else of them changes. The
/// test fails exactly if some required circuit was not found to be preserved.
pub proof fn law_route_tests_check_what_they_can(
    candidates: Seq<RouteCandidateView>,
    baseline: Seq<CapabilityView>,
    reports: Seq<ProbeReport>,
    i: int,
)
    requires
        0 <= i < baseline.len(),
        reports.len() == baseline.len(),
    ensures
        ({
            let after = routes_tested(candidates, baseline, reports);
            &&& after.len() == baseline.len()
            &&& if belongs_to_another_way(candidates, baseline[i].id) {
                after[i] == CapabilityView {
                    validation: ValidationState::Unverifiable,
                    detail: after[i].detail,
                    last_checked_at: Some(reports[i].at),
                    ..baseline[i]
                } && after[i].detail is Some
            } else {
                after[i] == all_checked(baseline, reports)[i]
            }
            &&& !lacks_proof(after) <==> forall|k: int|
                0 <= k < after.len() && (#[trigger] after[k]).required ==> after[k].validation
                    == ValidationState::Preserved
        }),
{
    assert(is_guarded(candidates, baseline[i].id) == belongs_to_another_way(
        candidates,
        baseline[i].id,
    )) by {
        if is_guarded(candidates, baseline[i].id) {
            let k = choose|k: int|
                0 <= k < candidates.len() && needs_trial(#[trigger] candidates[k])
                    && candidates[k].capability_ids.contains(baseline[i].id);
            assert(candidates[k].capability_ids.contains(baseline[i].id));
        }
        if belongs_to_another_way(candidates, baseline[i].id) {
            let k = choose|k: int|
                0 <= k < candidates.len() && (#[trigger] candidates[k]).capability_ids.contains(
                    baseline[i].id,
                ) && !(candidates[k].observed_route.interface == Some(candidates[k].interface)
                    && candidates[k].observed_route.gateway == candidates[k].gateway);
            assert(needs_trial(candidates[k]));
        }
    }
}

/// A test needs a candidate with a circuit, and leads to a trial exactly if some circuit belongs to
/// a route that is not the live one.
pub proof fn law_route_tests_are_about_circuits(candidates: Seq<RouteCandidateView>)
    ensures
        has_route_circuits(candidates) <==> exists|i: int, id: Seq<char>|
            0 <= i < candidates.len() && #[trigger] candidates[i].capability_ids.contains(id),
        has_guarded_circuits(candidates) <==> exists|id: Seq<char>| #[trigger]
            belongs_to_another_way(candidates, id),
{
    if has_route_circuits(candidates) {
        let i = choose|i: int|
            0 <= i < candidates.len() && (#[trigger] candidates[i]).capability_ids.len() > 0;
        assert(candidates[i].capability_ids.contains(candidates[i].capability_ids[0]));
    }
    if has_guarded_circuits(candidates) {
        let i = choose|i: int|
            0 <= i < candidates.len() && needs_trial(#[trigger] candidates[i])
                && candidates[i].capability_ids.len() > 0;
        assert(candidates[i].capability_ids.contains(candidates[i].capability_ids[0]));
        assert(belongs_to_another_way(candidates, candidates[i].capability_ids[0]));
    }
    if exists|id: Seq<char>| #[trigger] belongs_to_another_way(candidates, id) {
        let id = choose|id: Seq<char>| #[trigger] belongs_to_another_way(candidates, id);
        let i = choose|i: int|
            0 <= i < candidates.len() && (#[trigger] candidates[i]).capability_ids.contains(id)
                && !(candidates[i].observed_route.interface == Some(candidates[i].interface)
                && candidates[i].observed_route.gateway == candidates[i].gateway);
        assert(needs_trial(candidates[i]));
    }
}

/// Just before an apply the required circuits are checked, but for those of its routes in a trial,
/// as any check does; all others stay as they are.
pub proof fn law_applies_check_what_is_required(
    environment: EnvironmentView,
    trial: bool,
    reports: Seq<ProbeReport>,
    i: int,
)
    requires
        0 <= i < environment.baseline.len(),
        reports.len() == environment.baseline.len(),
    ensures
        ({
            let before = environment.baseline;
            let after = refreshed(environment, trial, reports);
            &&& after.len() == before.len()
            &&& after[i] == if before[i].required && !(trial && belongs_to_a_route(
                environment.route_candidates,
                before[i].id,
            )) {
                all_checked(before, reports)[i]
            } else {
                before[i]
            }
            &&& refreshed_count(environment, trial, i + 1) == refreshed_count(environment, trial, i)
                + if before[i].required && !(trial && belongs_to_a_route(
                environment.route_candidates,
                before[i].id,
            )) {
                1nat
            } else {
                0nat
            }
        }),
{
    let routes = environment.route_candidates;
    let id = environment.baseline[i].id;
    assert(is_deferred(routes, id) == belongs_to_a_route(routes, id)) by {
        if is_deferred(routes, id) {
            let k = choose|k: int|
                0 <= k < routes.len() && (#[trigger] routes[k]).capability_ids.contains(id);
            let j = choose|j: int|
                0 <= j < routes[k].capability_ids.len() && routes[k].capability_ids[j] == id;
            assert(routes[k].capability_ids[j] == id);
        }
        if belongs_to_a_route(routes, id) {
            let (k, j) = choose|k: int, j: int|
                0 <= k < routes.len() && 0 <= j < routes[k].capability_ids.len()
                    && #[trigger] routes[k].capability_ids[j] == id;
            assert(routes[k].capability_ids.contains(id));
        }
    }
}

/// A commit is blocked by exactly the required circuits that were not found to be preserved within
/// the last minute.
pub proof fn law_commits_are_blocked_by_what_is_unproven(
    baseline: Seq<CapabilityView>,
    now: Timestamp,
    id: Seq<char>,
)
    ensures
        ids_where(baseline, blocking_rule(now)).contains(id) <==> exists|i: int|
            0 <= i < baseline.len() && (#[trigger] baseline[i]).id == id && baseline[i].required
                && !(baseline[i].validation == ValidationState::Preserved && (
            baseline[i].last_checked_at matches Some(at) && now.nanos() - at.nanos()
                < 61_000_000_000)),
{
    lemma_ids_where(baseline, blocking_rule(now));
    let rule = blocking_rule(now);
    if ids_where(baseline, rule).contains(id) {
        let i = choose|i: int|
            0 <= i < baseline.len() && rule(#[trigger] baseline[i]) && baseline[i].id == id;
        assert(baseline[i].id == id);
    }
    if exists|i: int|
        0 <= i < baseline.len() && (#[trigger] baseline[i]).id == id && baseline[i].required && !(
        baseline[i].validation == ValidationState::Preserved && (baseline[i].last_checked_at
            matches Some(at) && now.nanos() - at.nanos() < 61_000_000_000)) {
        let i = choose|i: int|
            0 <= i < baseline.len() && (#[trigger] baseline[i]).id == id && baseline[i].required
                && !(baseline[i].validation == ValidationState::Preserved && (
            baseline[i].last_checked_at matches Some(at) && now.nanos() - at.nanos()
                < 61_000_000_000));
        assert(rule(baseline[i]));
    }
}

/// The command of a check is waited for exactly as long as it runs and its time is not up. One that
/// runs on is stopped, as is one that cannot be watched, and no other.
pub proof fn law_checks_are_waited_for(poll: Poll, timeout: Span)
    ensures
        probe_step(poll, timeout) is Wait <==> (poll matches Poll::Running { elapsed } && (
        elapsed.seconds < timeout.seconds || (elapsed.seconds == timeout.seconds
            && elapsed.nanoseconds < timeout.nanoseconds))),
        probe_step(poll, timeout) matches ProbeStepView::Fail { stop, .. } ==> (stop <==> poll
            is Running || poll is Unknown),
        probe_step(poll, timeout) matches ProbeStepView::Wait { milliseconds } ==> 0 < milliseconds
            <= 1000,
{
}

/// A check is reported as passed exactly if it passed. One that failed is reported with its message,
/// and with what its command wrote.
pub proof fn law_failed_checks_say_why(step: ProbeStepView, retained: Seq<u8>)
    ensures
        !(step is Wait) ==> (probe_reply(step, retained).0 <==> step is Pass),
        step matches ProbeStepView::Fail { message, .. } ==> message.len() <= probe_reply(
            step,
            retained,
        ).1.len() && probe_reply(step, retained).1.take(message.len() as int) == message,
{
    if let ProbeStepView::Fail { message, .. } = step {
        assert(probe_reply(step, retained).1.take(message.len() as int) =~= message);
    }
}

/// What the command of a failed check wrote is told behind its message, wherever it wrote anything;
/// where it wrote nothing the message stands alone.
pub proof fn law_failed_checks_tell_what_was_written(
    message: Seq<char>,
    stop: bool,
    retained: Seq<u8>,
)
    ensures
        diagnostic(retained).len() == 0 ==> probe_reply(
            ProbeStepView::Fail { message, stop },
            retained,
        ).1 == message,
        ends_with(
            probe_reply(ProbeStepView::Fail { message, stop }, retained).1,
            diagnostic(retained),
        ),
{
    let text = probe_reply(ProbeStepView::Fail { message, stop }, retained).1;
    let output = diagnostic(retained);
    assert(text.skip(text.len() - output.len()) =~= output);
}

} // verus!
