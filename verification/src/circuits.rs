//! The circuits and the route candidates of an environment: how they are added, changed and
//! removed.
use vstd::prelude::*;

use crate::clock::Timestamp;
use crate::connectivity::{capability_id, capability_key};
use crate::encoding::decode_exact;
use crate::model::{
    views, Capability, CapabilityView, Direction, Duplicate, Environment, EnvironmentView,
    ProbeSpec, ProbeView, ValidationState,
};
use crate::text::{
    contains_text, copy_option, join, join_texts, opt_text, same_text, text_or, texts,
};

verus! {

/// A circuit that is to be checked and has not been yet.
pub open spec fn fresh_circuit(
    id: Seq<char>,
    name: Seq<char>,
    protocol: Seq<char>,
    local: Seq<char>,
    remote: Seq<char>,
    probe: ProbeView,
    detail: Seq<char>,
) -> CapabilityView {
    CapabilityView {
        id,
        name: Some(name),
        protocol,
        direction: Direction::Outbound,
        local,
        remote,
        process: None,
        probe,
        required: true,
        validation: ValidationState::Pending,
        detail: Some(detail),
        last_checked_at: None,
    }
}

pub(crate) fn make_circuit(
    id: String,
    name: &str,
    protocol: &str,
    local: String,
    remote: String,
    probe: ProbeSpec,
    detail: String,
) -> (r: Capability)
    ensures
        r@ == fresh_circuit(id@, name@, protocol@, local@, remote@, probe@, detail@),
{
    Capability {
        id,
        name: Some(name.to_owned()),
        protocol: protocol.to_owned(),
        direction: Direction::Outbound,
        local,
        remote,
        process: None,
        probe,
        required: true,
        validation: ValidationState::Pending,
        detail: Some(detail),
        last_checked_at: None,
    }
}

/// A circuit that a command checks.
pub open spec fn command_circuit_of(name: Seq<char>, argv: Seq<Seq<char>>) -> CapabilityView {
    fresh_circuit(
        capability_key("command"@, Direction::Outbound, name, join_texts(argv, "\0"@)),
        name,
        "application"@,
        "sandbox"@,
        join_texts(argv, " "@),
        ProbeView::Command { argv },
        "user or agent supplied application-level canary"@,
    )
}

/// A circuit that a command checks.
pub fn command_circuit(name: &str, argv: Vec<String>) -> (r: Capability)
    ensures
        r@ == command_circuit_of(name@, texts(argv@)),
{
    let id = capability_id("command", &Direction::Outbound, name, join(&argv, "\0").as_str());
    let remote = join(&argv, " ");
    make_circuit(
        id,
        name,
        "application",
        "sandbox".to_owned(),
        remote,
        ProbeSpec::Command { argv },
        "user or agent supplied application-level canary".to_owned(),
    )
}

/// A circuit to an endpoint, over an interface if one is given.
pub open spec fn tcp_circuit_of(
    name: Seq<char>,
    endpoint: Seq<char>,
    interface: Option<Seq<char>>,
) -> CapabilityView {
    fresh_circuit(
        capability_key(
            "tcp"@,
            Direction::Outbound,
            name,
            endpoint + "@"@ + text_or(interface, "default"@),
        ),
        name,
        "tcp"@,
        match interface {
            None => "sandbox"@,
            Some(i) => "sandbox@"@ + i,
        },
        endpoint,
        ProbeView::Tcp { endpoint, interface },
        "manually supplied TCP canary"@,
    )
}

/// A circuit to an endpoint. `parsed` tells why the endpoint is not an address and a port, unless it
/// is one.
pub fn tcp_circuit(
    name: &str,
    endpoint: &str,
    interface: &Option<String>,
    parsed: &Result<(), String>,
) -> (r: Result<Capability, String>)
    ensures
        match (*parsed, r) {
            (Ok(_), Ok(circuit)) => circuit@ == tcp_circuit_of(
                name@,
                endpoint@,
                opt_text(*interface),
            ),
            (Err(cause), Err(e)) => e@
                == "endpoint must be an IP address and port, such as 1.1.1.1:443: "@ + cause@,
            _ => false,
        },
{
    match parsed {
        Err(cause) => {
            let refusal = "endpoint must be an IP address and port, such as 1.1.1.1:443: ";
            return Err(refusal.to_owned().concat(cause.as_str()));
        },
        Ok(_) => {},
    }
    let through = match interface {
        Some(i) => i.clone(),
        None => "default".to_owned(),
    };
    let key = endpoint.to_owned().concat("@").concat(through.as_str());
    let id = capability_id("tcp", &Direction::Outbound, name, key.as_str());
    let local = match interface {
        None => "sandbox".to_owned(),
        Some(i) => "sandbox@".to_owned().concat(i.as_str()),
    };
    Ok(
        make_circuit(
            id,
            name,
            "tcp",
            local,
            endpoint.to_owned(),
            ProbeSpec::Tcp { endpoint: endpoint.to_owned(), interface: copy_option(interface) },
            "manually supplied TCP canary".to_owned(),
        ),
    )
}

/// The position of the first circuit with an identifier.
pub open spec fn circuit_position(baseline: Seq<CapabilityView>, id: Seq<char>) -> Option<int>
    decreases baseline.len(),
{
    if baseline.len() == 0 {
        None
    } else {
        match circuit_position(baseline.drop_last(), id) {
            Some(i) => Some(i),
            None => if baseline.last().id == id {
                Some(baseline.len() - 1)
            } else {
                None
            },
        }
    }
}

proof fn lemma_circuit_position_stays(baseline: Seq<CapabilityView>, id: Seq<char>, n: int)
    requires
        0 <= n <= baseline.len(),
        circuit_position(baseline.take(n), id) is Some,
    ensures
        circuit_position(baseline, id) == circuit_position(baseline.take(n), id),
    decreases baseline.len() - n,
{
    if n < baseline.len() {
        assert(baseline.take(n + 1).drop_last() =~= baseline.take(n));
        lemma_circuit_position_stays(baseline, id, n + 1);
    } else {
        assert(baseline.take(n) =~= baseline);
    }
}

/// The position of a circuit is one at which a circuit with the identifier stands.
pub proof fn lemma_circuit_position(baseline: Seq<CapabilityView>, id: Seq<char>)
    ensures
        circuit_position(baseline, id) matches Some(i) ==> 0 <= i < baseline.len()
            && baseline[i].id == id,
        circuit_position(baseline, id) is None ==> forall|i: int|
            0 <= i < baseline.len() ==> (#[trigger] baseline[i]).id != id,
    decreases baseline.len(),
{
    if baseline.len() > 0 {
        let shorter = baseline.drop_last();
        lemma_circuit_position(shorter, id);
        if circuit_position(baseline, id) is None {
            assert forall|i: int| 0 <= i < baseline.len() implies (#[trigger] baseline[i]).id
                != id by {
                if i < shorter.len() {
                    assert(shorter[i] == baseline[i]);
                }
            }
        }
    }
}

pub(crate) fn find_circuit(baseline: &Vec<Capability>, id: &str) -> (r: Option<usize>)
    ensures
        match r {
            Some(i) => i < baseline@.len() && circuit_position(views(baseline@), id@) == Some(
                i as int,
            ),
            None => circuit_position(views(baseline@), id@) is None,
        },
{
    let ghost all = views(baseline@);
    let mut i: usize = 0;
    while i < baseline.len()
        invariant
            i <= baseline.len(),
            all == views(baseline@),
            circuit_position(all.take(i as int), id@) is None,
        decreases baseline.len() - i,
    {
        proof {
            assert(all.take(i + 1).drop_last() =~= all.take(i as int));
            assert(all.take(i + 1).last() == baseline@[i as int]@);
        }
        if same_text(baseline[i].id.as_str(), id) {
            proof {
                lemma_circuit_position_stays(all, id@, i + 1);
            }
            return Some(i);
        }
        i += 1;
    }
    assert(all.take(baseline.len() as int) =~= all);
    None
}

/// Adds a circuit, unless there is one with its identifier.
pub fn add_capability(environment: &mut Environment, capability: Capability, at: Timestamp) -> (r:
    Result<(), String>)
    ensures
        match r {
            Ok(()) => circuit_position(old(environment)@.baseline, capability@.id) is None
                && final(environment)@ == (EnvironmentView {
                baseline: old(environment)@.baseline.push(capability@),
                updated_at: at,
                ..old(environment)@
            }),
            Err(e) => circuit_position(old(environment)@.baseline, capability@.id) is Some && e@
                == "that circuit already exists"@ && final(environment)@ == old(environment)@,
        },
{
    if find_circuit(&environment.baseline, capability.id.as_str()).is_some() {
        return Err("that circuit already exists".to_owned());
    }
    let ghost before = environment@.baseline;
    let ghost added = capability@;
    environment.baseline.push(capability);
    environment.updated_at = at;
    assert(environment@.baseline =~= before.push(added));
    Ok(())
}

/// A circuit that does not block any more.
pub open spec fn ignored(capability: CapabilityView) -> CapabilityView {
    CapabilityView {
        required: false,
        validation: ValidationState::Ignored,
        detail: Some("explicitly ignored"@),
        ..capability
    }
}

/// A circuit that blocks until it is checked.
pub open spec fn required_again(capability: CapabilityView) -> CapabilityView {
    CapabilityView {
        required: true,
        validation: ValidationState::Pending,
        detail: Some("required; awaiting validation"@),
        ..capability
    }
}

/// The environment with the circuit of an identifier made to block, or not to.
pub open spec fn with_requirement(
    environment: EnvironmentView,
    id: Seq<char>,
    required: bool,
    at: Timestamp,
) -> Result<EnvironmentView, Seq<char>> {
    match circuit_position(environment.baseline, id) {
        None => Err("circuit '"@ + id + "' does not exist"@),
        Some(i) => Ok(
            EnvironmentView {
                baseline: environment.baseline.update(
                    i,
                    if required {
                        required_again(environment.baseline[i])
                    } else {
                        ignored(environment.baseline[i])
                    },
                ),
                updated_at: at,
                ..environment
            },
        ),
    }
}

/// Makes the circuit of an identifier block, or not.
pub fn update_capability(
    environment: &mut Environment,
    id: &str,
    required: bool,
    at: Timestamp,
) -> (r: Result<(), String>)
    ensures
        match r {
            Ok(()) => with_requirement(old(environment)@, id@, required, at) == Ok::<
                EnvironmentView,
                Seq<char>,
            >(final(environment)@),
            Err(e) => with_requirement(old(environment)@, id@, required, at) == Err::<
                EnvironmentView,
                Seq<char>,
            >(e@) && final(environment)@ == old(environment)@,
        },
{
    let position = match find_circuit(&environment.baseline, id) {
        None => return Err("circuit '".to_owned().concat(id).concat("' does not exist")),
        Some(i) => i,
    };
    let ghost start = environment@;
    let ghost before = environment@.baseline;
    let mut changed = environment.baseline[position].duplicate();
    changed.required = required;
    if required {
        changed.validation = ValidationState::Pending;
        changed.detail = Some("required; awaiting validation".to_owned());
    } else {
        changed.validation = ValidationState::Ignored;
        changed.detail = Some("explicitly ignored".to_owned());
    }
    let ghost after = changed@;
    environment.baseline.set(position, changed);
    environment.updated_at = at;
    assert(environment@.baseline =~= before.update(position as int, after));
    assert(with_requirement(start, id@, required, at) == Ok::<EnvironmentView, Seq<char>>(
        environment@,
    ));
    Ok(())
}

/// The circuits without those of the given identifiers.
pub open spec fn without_ids(
    baseline: Seq<CapabilityView>,
    ids: Seq<Seq<char>>,
) -> Seq<CapabilityView>
    decreases baseline.len(),
{
    if baseline.len() == 0 {
        Seq::empty()
    } else {
        let before = without_ids(baseline.drop_last(), ids);
        if ids.contains(baseline.last().id) {
            before
        } else {
            before.push(baseline.last())
        }
    }
}

pub(crate) proof fn lemma_without_ids_length(baseline: Seq<CapabilityView>, ids: Seq<Seq<char>>)
    ensures
        without_ids(baseline, ids).len() <= baseline.len(),
        (forall|i: int| 0 <= i < baseline.len() ==> !ids.contains((#[trigger] baseline[i]).id))
            ==> without_ids(baseline, ids) == baseline,
        without_ids(baseline, ids).len() == baseline.len() ==> (forall|i: int|
            0 <= i < baseline.len() ==> !ids.contains((#[trigger] baseline[i]).id)),
    decreases baseline.len(),
{
    if baseline.len() > 0 {
        let shorter = baseline.drop_last();
        lemma_without_ids_length(shorter, ids);
        if forall|i: int| 0 <= i < baseline.len() ==> !ids.contains((#[trigger] baseline[i]).id) {
            assert forall|i: int| 0 <= i < shorter.len() implies !ids.contains(
                (#[trigger] shorter[i]).id,
            ) by {
                assert(shorter[i] == baseline[i]);
            }
            assert(!ids.contains(baseline[baseline.len() - 1].id));
            assert(without_ids(baseline, ids) =~= baseline);
        }
        if without_ids(baseline, ids).len() == baseline.len() {
            assert forall|i: int| 0 <= i < baseline.len() implies !ids.contains(
                (#[trigger] baseline[i]).id,
            ) by {
                if i < shorter.len() {
                    assert(shorter[i] == baseline[i]);
                }
            }
        }
    } else {
        assert(without_ids(baseline, ids) =~= baseline);
    }
}

pub(crate) fn drop_ids(baseline: &Vec<Capability>, ids: &Vec<String>) -> (r: Vec<Capability>)
    ensures
        views(r@) == without_ids(views(baseline@), texts(ids@)),
{
    let ghost all = views(baseline@);
    let mut r: Vec<Capability> = Vec::new();
    let mut i: usize = 0;
    assert(views(r@) =~= Seq::empty());
    while i < baseline.len()
        invariant
            i <= baseline.len(),
            all == views(baseline@),
            views(r@) == without_ids(all.take(i as int), texts(ids@)),
        decreases baseline.len() - i,
    {
        let ghost before = views(r@);
        proof {
            assert(all.take(i + 1).drop_last() =~= all.take(i as int));
            assert(all.take(i + 1).last() == baseline@[i as int]@);
        }
        if !contains_text(ids, baseline[i].id.as_str()) {
            let kept = baseline[i].duplicate();
            r.push(kept);
            assert(views(r@) =~= before.push(baseline@[i as int]@));
        }
        i += 1;
    }
    assert(all.take(baseline.len() as int) =~= all);
    r
}

/// Removes the circuits of an identifier.
pub fn remove_capability(environment: &mut Environment, id: &str, at: Timestamp) -> (r: Result<
    (),
    String,
>)
    ensures
        match r {
            Ok(()) => circuit_position(old(environment)@.baseline, id@) is Some
                && final(environment)@ == (EnvironmentView {
                baseline: without_ids(old(environment)@.baseline, seq![id@]),
                updated_at: at,
                ..old(environment)@
            }),
            Err(e) => circuit_position(old(environment)@.baseline, id@) is None && e@ == "circuit '"@
                + id@ + "' does not exist"@ && final(environment)@ == old(environment)@,
        },
{
    if find_circuit(&environment.baseline, id).is_none() {
        return Err("circuit '".to_owned().concat(id).concat("' does not exist"));
    }
    let ids = vec![id.to_owned()];
    assert(texts(ids@) =~= seq![id@]);
    let kept = drop_ids(&environment.baseline, &ids);
    environment.baseline = kept;
    environment.updated_at = at;
    Ok(())
}

/// What is added is removed again: the circuits are as they were.
pub proof fn law_removing_undoes_adding(baseline: Seq<CapabilityView>, circuit: CapabilityView)
    requires
        circuit_position(baseline, circuit.id) is None,
    ensures
        without_ids(baseline.push(circuit), seq![circuit.id]) == baseline,
{
    lemma_circuit_position(baseline, circuit.id);
    let ids = seq![circuit.id];
    let more = baseline.push(circuit);
    assert(more.drop_last() =~= baseline);
    assert(ids[0] == circuit.id);
    assert(ids.contains(more.last().id));
    assert forall|i: int| 0 <= i < baseline.len() implies !ids.contains(
        (#[trigger] baseline[i]).id,
    ) by {}
    lemma_without_ids_length(baseline, ids);
}

/// An ignored circuit never blocks, and one that is required again blocks until it is checked:
/// neither is taken for preserved.
pub proof fn law_requirements_are_kept(
    environment: EnvironmentView,
    id: Seq<char>,
    required: bool,
    at: Timestamp,
)
    requires
        with_requirement(environment, id, required, at) is Ok,
    ensures
        ({
            let after = with_requirement(environment, id, required, at)->Ok_0;
            let i = circuit_position(environment.baseline, id)->Some_0;
            &&& after.baseline.len() == environment.baseline.len()
            &&& after.baseline[i].id == id
            &&& after.baseline[i].required == required
            &&& after.baseline[i].validation != ValidationState::Preserved
            &&& forall|k: int|
                0 <= k < environment.baseline.len() && k != i ==> #[trigger] after.baseline[k]
                    == environment.baseline[k]
        }),
{
    lemma_circuit_position(environment.baseline, id);
}

/// Reads the arguments of a check, which have to be texts.
pub fn utf8_arguments(command: &Vec<Vec<u8>>) -> (r: Result<Vec<String>, String>)
    ensures
        r is Ok <==> forall|i: int|
            0 <= i < command@.len() ==> vstd::utf8::valid_utf8((#[trigger] command@[i])@),
        match r {
            Ok(argv) => argv@.len() == command@.len() && forall|i: int|
                0 <= i < argv@.len() ==> (#[trigger] argv@[i])@ == vstd::utf8::decode_utf8(
                    command@[i]@,
                ),
            Err(e) => e@ == "probe arguments must be valid UTF-8"@,
        },
{
    let mut argv: Vec<String> = Vec::new();
    let mut i: usize = 0;
    while i < command.len()
        invariant
            i <= command.len(),
            argv@.len() == i,
            forall|k: int| 0 <= k < i ==> vstd::utf8::valid_utf8((#[trigger] command@[k])@),
            forall|k: int|
                0 <= k < i ==> (#[trigger] argv@[k])@ == vstd::utf8::decode_utf8(command@[k]@),
        decreases command.len() - i,
    {
        match decode_exact(&command[i]) {
            Some(text) => argv.push(text),
            None => return Err("probe arguments must be valid UTF-8".to_owned()),
        }
        i += 1;
    }
    Ok(argv)
}

} // verus!
