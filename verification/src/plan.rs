//! Plans: what an apply would do, and what stands against it.
use vstd::prelude::*;

use crate::clock::{is_stale, stale, utc_now, Timestamp};
use crate::command::Host;
use crate::diff::{
    conflict_paths, conflicts, layer_view, scan, scan_changes, sorted_changes, HostTable,
    LayerEntry,
};
use crate::model::{
    duplicate_all, views, ApplyPlan, ApplyPlanView, Capability, CapabilityView, ChangeView,
    Environment, EnvironmentView, FailurePolicy, ProbeSpec, RouteCandidate, RouteCandidateView,
    RouteObservation, ValidationState,
};
use crate::path::path_texts;
use crate::platform::{host_route_conflicts, route_conflicts};
use crate::text::{contains_text, texts};

verus! {

/// Whether a circuit belongs to a staged route.
pub open spec fn is_deferred(candidates: Seq<RouteCandidateView>, id: Seq<char>) -> bool {
    exists|i: int|
        0 <= i < candidates.len() && (#[trigger] candidates[i]).capability_ids.contains(id)
}

pub fn belongs_to_route(candidates: &Vec<RouteCandidate>, id: &str) -> (r: bool)
    ensures
        r == is_deferred(views(candidates@), id@),
{
    let mut i: usize = 0;
    while i < candidates.len()
        invariant
            i <= candidates.len(),
            forall|k: int|
                0 <= k < i ==> !(#[trigger] views(candidates@)[k]).capability_ids.contains(id@),
        decreases candidates.len() - i,
    {
        if contains_text(&candidates[i].capability_ids, id) {
            assert(views(candidates@)[i as int].capability_ids.contains(id@));
            return true;
        }
        i += 1;
    }
    false
}

/// The circuits that a trial checks only after the routes are installed.
pub open spec fn deferred_rule(candidates: Seq<RouteCandidateView>) -> spec_fn(
    CapabilityView,
) -> bool {
    |c: CapabilityView| c.required && is_deferred(candidates, c.id)
}

/// The required circuits that are lost.
pub open spec fn lost_rule(candidates: Seq<RouteCandidateView>, trial: bool) -> spec_fn(
    CapabilityView,
) -> bool {
    |c: CapabilityView|
        c.required && c.validation == ValidationState::Lost && !(trial && is_deferred(
            candidates,
            c.id,
        ))
}

/// The required circuits of which nothing is known, or nothing recent.
pub open spec fn unverified_rule(
    candidates: Seq<RouteCandidateView>,
    trial: bool,
    now: Timestamp,
) -> spec_fn(CapabilityView) -> bool {
    |c: CapabilityView|
        c.required && (is_stale(c.last_checked_at, now) || c.validation == ValidationState::Pending
            || c.validation == ValidationState::Unverifiable || c.validation
            == ValidationState::Degraded) && !(trial && is_deferred(candidates, c.id))
}

/// The identifiers of the circuits that a rule picks, in order.
pub open spec fn ids_where(
    baseline: Seq<CapabilityView>,
    rule: spec_fn(CapabilityView) -> bool,
) -> Seq<Seq<char>>
    decreases baseline.len(),
{
    if baseline.len() == 0 {
        Seq::empty()
    } else {
        let before = ids_where(baseline.drop_last(), rule);
        if rule(baseline.last()) {
            before.push(baseline.last().id)
        } else {
            before
        }
    }
}

/// A rule picks a circuit exactly if its identifier is in the list that the rule gives.
pub proof fn lemma_ids_where(
    baseline: Seq<CapabilityView>,
    rule: spec_fn(CapabilityView) -> bool,
)
    ensures
        forall|id: Seq<char>|
            ids_where(baseline, rule).contains(id) <==> exists|i: int|
                0 <= i < baseline.len() && rule(#[trigger] baseline[i]) && baseline[i].id == id,
        ids_where(baseline, rule).len() == 0 <==> forall|i: int|
            0 <= i < baseline.len() ==> !rule(#[trigger] baseline[i]),
    decreases baseline.len(),
{
    let list = ids_where(baseline, rule);
    if baseline.len() == 0 {
        assert(list.len() == 0);
    } else {
        let shorter = baseline.drop_last();
        let before = ids_where(shorter, rule);
        lemma_ids_where(shorter, rule);
        assert forall|id: Seq<char>|
            list.contains(id) <==> exists|i: int|
                0 <= i < baseline.len() && rule(#[trigger] baseline[i]) && baseline[i].id == id by {
            if list.contains(id) {
                let k = choose|k: int| 0 <= k < list.len() && list[k] == id;
                if k < before.len() {
                    assert(before[k] == id);
                    assert(before.contains(id));
                    let i = choose|i: int|
                        0 <= i < shorter.len() && rule(#[trigger] shorter[i]) && shorter[i].id
                            == id;
                    assert(baseline[i] == shorter[i]);
                } else {
                    assert(rule(baseline[baseline.len() - 1]));
                }
            }
            if exists|i: int|
                0 <= i < baseline.len() && rule(#[trigger] baseline[i]) && baseline[i].id == id {
                let i = choose|i: int|
                    0 <= i < baseline.len() && rule(#[trigger] baseline[i]) && baseline[i].id
                        == id;
                if i < shorter.len() {
                    assert(shorter[i] == baseline[i]);
                    assert(before.contains(id));
                    let k = choose|k: int| 0 <= k < before.len() && before[k] == id;
                    assert(list[k] == id);
                } else {
                    assert(list[list.len() - 1] == id);
                }
            }
        }
        assert(list.len() == 0 <==> forall|i: int|
            0 <= i < baseline.len() ==> !rule(#[trigger] baseline[i])) by {
            if list.len() == 0 {
                assert(before.len() == 0);
                assert forall|i: int| 0 <= i < baseline.len() implies !rule(
                    #[trigger] baseline[i],
                ) by {
                    if i < shorter.len() {
                        assert(shorter[i] == baseline[i]);
                    }
                }
            }
            if forall|i: int| 0 <= i < baseline.len() ==> !rule(#[trigger] baseline[i]) {
                assert forall|i: int| 0 <= i < shorter.len() implies !rule(
                    #[trigger] shorter[i],
                ) by {
                    assert(shorter[i] == baseline[i]);
                }
                assert(!rule(baseline[baseline.len() - 1]));
            }
        }
    }
}

/// The required circuits that stand against an apply, and those that a trial defers.
pub struct Classification {
    pub lost: Vec<String>,
    pub unverifiable: Vec<String>,
    pub deferred: Vec<String>,
}

/// Whether a classification is the one of an environment at a time.
pub open spec fn classifies(
    environment: EnvironmentView,
    trial: bool,
    now: Timestamp,
    c: Classification,
) -> bool {
    &&& texts(c.lost@) == ids_where(
        environment.baseline,
        lost_rule(environment.route_candidates, trial),
    )
    &&& texts(c.unverifiable@) == ids_where(
        environment.baseline,
        unverified_rule(environment.route_candidates, trial, now),
    )
    &&& texts(c.deferred@) == if trial {
        ids_where(environment.baseline, deferred_rule(environment.route_candidates))
    } else {
        Seq::empty()
    }
}

fn add_id(list: &mut Vec<String>, id: &String)
    ensures
        texts(final(list)@) == texts(old(list)@).push(id@),
{
    let ghost before = texts(list@);
    list.push(id.clone());
    assert(texts(list@) =~= before.push(id@));
}

/// Sorts the required circuits of an environment at a given time.
pub fn classify_validation_at(
    environment: &Environment,
    guarded_trial: bool,
    now: Timestamp,
) -> (r: Classification)
    ensures
        classifies(environment@, guarded_trial, now, r),
{
    let mut lost: Vec<String> = Vec::new();
    let mut unverifiable: Vec<String> = Vec::new();
    let mut deferred: Vec<String> = Vec::new();
    let ghost all = views(environment.baseline@);
    let ghost routes = views(environment.route_candidates@);
    let ghost lost_keep = lost_rule(routes, guarded_trial);
    let ghost unverified_keep = unverified_rule(routes, guarded_trial, now);
    let ghost deferred_keep = deferred_rule(routes);
    let mut i: usize = 0;
    assert(texts(lost@) =~= Seq::empty());
    assert(texts(unverifiable@) =~= Seq::empty());
    assert(texts(deferred@) =~= Seq::empty());
    while i < environment.baseline.len()
        invariant
            i <= environment.baseline.len(),
            all == views(environment.baseline@),
            routes == views(environment.route_candidates@),
            lost_keep == lost_rule(routes, guarded_trial),
            unverified_keep == unverified_rule(routes, guarded_trial, now),
            deferred_keep == deferred_rule(routes),
            texts(lost@) == ids_where(all.take(i as int), lost_keep),
            texts(unverifiable@) == ids_where(all.take(i as int), unverified_keep),
            texts(deferred@) == (if guarded_trial {
                ids_where(all.take(i as int), deferred_keep)
            } else {
                Seq::<Seq<char>>::empty()
            }),
        decreases environment.baseline.len() - i,
    {
        let capability = &environment.baseline[i];
        proof {
            assert(all.take(i + 1).drop_last() =~= all.take(i as int));
            assert(all.take(i + 1).last() == capability@);
        }
        if capability.required {
            let deferred_here = guarded_trial && belongs_to_route(
                &environment.route_candidates,
                capability.id.as_str(),
            );
            if deferred_here {
                add_id(&mut deferred, &capability.id);
            } else {
                if capability.validation == ValidationState::Lost {
                    add_id(&mut lost, &capability.id);
                }
                if stale(&capability.last_checked_at, &now) || capability.validation
                    == ValidationState::Pending || capability.validation
                    == ValidationState::Unverifiable || capability.validation
                    == ValidationState::Degraded {
                    add_id(&mut unverifiable, &capability.id);
                }
            }
        }
        i += 1;
    }
    assert(all.take(environment.baseline.len() as int) =~= all);
    Classification { lost, unverifiable, deferred }
}

/// Sorts the required circuits of an environment now.
pub fn classify_validation(environment: &Environment, guarded_trial: bool) -> (r: Classification)
    ensures
        exists|now: Timestamp| classifies(environment@, guarded_trial, now, r),
{
    let now = utc_now();
    let r = classify_validation_at(environment, guarded_trial, now);
    assert(classifies(environment@, guarded_trial, now, r));
    r
}

/// Whether a candidate has a required check that runs a command.
pub open spec fn has_canary(
    baseline: Seq<CapabilityView>,
    candidate: RouteCandidateView,
) -> bool {
    exists|i: int|
        0 <= i < baseline.len() && candidate.capability_ids.contains((#[trigger] baseline[i]).id)
            && baseline[i].required && baseline[i].probe is Command
}

fn has_application_canary(baseline: &Vec<Capability>, candidate: &RouteCandidate) -> (r: bool)
    ensures
        r == has_canary(views(baseline@), candidate@),
{
    let mut i: usize = 0;
    while i < baseline.len()
        invariant
            i <= baseline.len(),
            forall|k: int|
                0 <= k < i ==> !(candidate@.capability_ids.contains(
                    (#[trigger] views(baseline@)[k]).id,
                ) && views(baseline@)[k].required && views(baseline@)[k].probe is Command),
        decreases baseline.len() - i,
    {
        let capability = &baseline[i];
        if capability.required && contains_text(
            &candidate.capability_ids,
            capability.id.as_str(),
        ) {
            if let ProbeSpec::Command { argv: _ } = &capability.probe {
                assert(views(baseline@)[i as int] == capability@);
                return true;
            }
        }
        i += 1;
    }
    false
}

/// The blockers of the candidates without such a check, in order.
pub open spec fn missing_canaries(
    baseline: Seq<CapabilityView>,
    candidates: Seq<RouteCandidateView>,
) -> Seq<Seq<char>>
    decreases candidates.len(),
{
    if candidates.len() == 0 {
        Seq::empty()
    } else {
        let before = missing_canaries(baseline, candidates.drop_last());
        if has_canary(baseline, candidates.last()) {
            before
        } else {
            before.push(
                "route candidate "@ + candidates.last().id
                    + " has no required application-level canary"@,
            )
        }
    }
}

/// The blockers that only a trial has.
pub open spec fn trial_blockers(
    host: Host,
    environment: EnvironmentView,
    changes: Seq<ChangeView>,
) -> Seq<Seq<char>> {
    let system = if host == Host::MacOs {
        Seq::empty()
    } else {
        seq!["guarded route trials are supported only on macOS"@]
    };
    let routes = if environment.route_candidates.len() > 0 {
        Seq::empty()
    } else {
        seq!["guarded trial requires a typed macOS route candidate"@]
    };
    let files = if changes.len() == 0 {
        Seq::empty()
    } else {
        seq![
            "guarded route trial cannot include filesystem changes; apply them in a separate environment"@,
        ]
    };
    let rollback = if environment.policy.auto_rollback {
        Seq::empty()
    } else {
        seq!["guarded trial requires automatic rollback"@]
    };
    system + routes + files + rollback
}

/// Whether circuits stand against an apply: in a trial always, otherwise unless the policy only
/// warns.
pub open spec fn validation_blocks(
    policy: FailurePolicy,
    trial: bool,
    lost: Seq<Seq<char>>,
    unverifiable: Seq<Seq<char>>,
) -> bool {
    (trial || policy != FailurePolicy::Warn) && (lost.len() > 0 || unverifiable.len() > 0)
}

/// The plan of an environment whose changes are known.
pub open spec fn plan_of(
    environment: EnvironmentView,
    changes: Seq<ChangeView>,
    conflicts: Seq<Seq<char>>,
    conflicting_routes: Seq<Seq<char>>,
    host: Host,
    trial: bool,
    now: Timestamp,
) -> ApplyPlanView {
    let route_conflicts = conflicting_routes + missing_canaries(
        environment.baseline,
        environment.route_candidates,
    ) + if trial {
        trial_blockers(host, environment, changes)
    } else {
        Seq::empty()
    };
    let lost = ids_where(environment.baseline, lost_rule(environment.route_candidates, trial));
    let unverifiable = ids_where(
        environment.baseline,
        unverified_rule(environment.route_candidates, trial, now),
    );
    ApplyPlanView {
        environment: environment.name,
        generated_at: now,
        changes,
        route_candidates: environment.route_candidates,
        lost_required: lost,
        unverifiable_required: unverifiable,
        conflicts,
        route_conflicts,
        guarded_trial: trial,
        deferred_required: if trial {
            ids_where(environment.baseline, deferred_rule(environment.route_candidates))
        } else {
            Seq::empty()
        },
        allowed: (changes.len() > 0 || environment.route_candidates.len() > 0) && conflicts.len()
            == 0 && route_conflicts.len() == 0 && !validation_blocks(
            environment.policy.on_failure,
            trial,
            lost,
            unverifiable,
        ),
    }
}

/// What was found on the host for a plan: the files of the layer, what stands on the host at
/// their paths, and the live route to the destination of each candidate.
pub struct HostFindings {
    pub host: Host,
    pub layer: Option<Vec<LayerEntry>>,
    pub table: HostTable,
    pub live_routes: Vec<Result<RouteObservation, String>>,
}

/// The outcome of planning: the environment afterwards, and the plan or what stopped it.
pub open spec fn planned(
    environment: EnvironmentView,
    findings: HostFindings,
    trial: bool,
    now: Timestamp,
) -> (EnvironmentView, Result<ApplyPlanView, Seq<char>>) {
    let state = scan(environment, layer_view(findings.layer), findings.table@);
    let after = EnvironmentView {
        origins: state.origins,
        origin_paths: state.paths,
        ..environment
    };
    match state.failure {
        Some(e) => (after, Err(e)),
        None => {
            let changes = sorted_changes(state.changes);
            let clashes = conflict_paths(after.origins, findings.table@, changes);
            match host_route_conflicts(
                findings.host,
                after.route_candidates,
                findings.live_routes@,
            ) {
                Err(e) => (after, Err(e)),
                Ok(routes) => (
                    after,
                    Ok(plan_of(after, changes, clashes, routes, findings.host, trial, now)),
                ),
            }
        },
    }
}

fn push_text(list: &mut Vec<String>, s: &str)
    ensures
        texts(final(list)@) == texts(old(list)@).push(s@),
{
    let ghost before = texts(list@);
    list.push(s.to_owned());
    assert(texts(list@) =~= before.push(s@));
}

fn push_missing_canaries(
    list: &mut Vec<String>,
    baseline: &Vec<Capability>,
    candidates: &Vec<RouteCandidate>,
)
    ensures
        texts(final(list)@) == texts(old(list)@) + missing_canaries(
            views(baseline@),
            views(candidates@),
        ),
{
    let ghost start = texts(list@);
    let ghost all = views(candidates@);
    let ghost circuits = views(baseline@);
    let mut i: usize = 0;
    assert(texts(list@) =~= start + missing_canaries(circuits, all.take(0)));
    while i < candidates.len()
        invariant
            i <= candidates.len(),
            all == views(candidates@),
            circuits == views(baseline@),
            texts(list@) == start + missing_canaries(circuits, all.take(i as int)),
        decreases candidates.len() - i,
    {
        proof {
            assert(all.take(i + 1).drop_last() =~= all.take(i as int));
            assert(all.take(i + 1).last() == candidates@[i as int]@);
        }
        if !has_application_canary(baseline, &candidates[i]) {
            push_text(
                list,
                "route candidate ".to_owned().concat(candidates[i].id.as_str()).concat(
                    " has no required application-level canary",
                ).as_str(),
            );
        }
        assert(texts(list@) =~= start + missing_canaries(circuits, all.take(i + 1)));
        i += 1;
    }
    assert(all.take(candidates.len() as int) =~= all);
}

/// Makes the plan of an environment at a given time.
pub fn build_plan_with_mode(
    environment: &mut Environment,
    findings: &HostFindings,
    guarded_trial: bool,
    now: Timestamp,
) -> (r: Result<ApplyPlan, String>)
    requires
        findings.live_routes.len() == old(environment).route_candidates.len(),
    ensures
        ({
            let (after, result) = planned(old(environment)@, *findings, guarded_trial, now);
            &&& final(environment)@ == after
            &&& match r {
                Ok(plan) => result == Ok::<ApplyPlanView, Seq<char>>(plan@),
                Err(e) => result == Err::<ApplyPlanView, Seq<char>>(e@),
            }
        }),
{
    let ghost count = environment@.route_candidates.len();
    let changes = match scan_changes(environment, &findings.layer, &findings.table) {
        Ok(changes) => changes,
        Err(e) => return Err(e),
    };
    let clashes = conflicts(environment, &changes, &findings.table);
    assert(environment@.route_candidates.len() == count);
    let mut blockers = match route_conflicts(
        findings.host,
        &environment.route_candidates,
        &findings.live_routes,
    ) {
        Ok(list) => list,
        Err(e) => return Err(e),
    };
    let ghost routes = texts(blockers@);
    push_missing_canaries(&mut blockers, &environment.baseline, &environment.route_candidates);
    let ghost common = texts(blockers@);
    if guarded_trial {
        if findings.host != Host::MacOs {
            push_text(&mut blockers, "guarded route trials are supported only on macOS");
        }
        if environment.route_candidates.len() == 0 {
            push_text(&mut blockers, "guarded trial requires a typed macOS route candidate");
        }
        if changes.len() != 0 {
            push_text(
                &mut blockers,
                "guarded route trial cannot include filesystem changes; apply them in a separate environment",
            );
        }
        if !environment.policy.auto_rollback {
            push_text(&mut blockers, "guarded trial requires automatic rollback");
        }
        assert(texts(blockers@) =~= common + trial_blockers(
            findings.host,
            environment@,
            views(changes@),
        ));
    } else {
        assert(texts(blockers@) =~= common + Seq::empty());
    }
    let sorted = classify_validation_at(environment, guarded_trial, now);
    let failing = sorted.lost.len() != 0 || sorted.unverifiable.len() != 0;
    assert(failing == (texts(sorted.lost@).len() > 0 || texts(sorted.unverifiable@).len() > 0));
    let blocked = (guarded_trial || environment.policy.on_failure != FailurePolicy::Warn)
        && failing;
    let has_changes = changes.len() != 0 || environment.route_candidates.len() != 0;
    let allowed = has_changes && clashes.len() == 0 && blockers.len() == 0 && !blocked;
    assert(path_texts(clashes@).len() == clashes@.len());
    assert(texts(blockers@).len() == blockers@.len());
    assert(views(changes@).len() == changes@.len());
    let plan = ApplyPlan {
        environment: environment.name.clone(),
        generated_at: now,
        changes,
        route_candidates: duplicate_all(&environment.route_candidates),
        lost_required: sorted.lost,
        unverifiable_required: sorted.unverifiable,
        conflicts: clashes,
        route_conflicts: blockers,
        guarded_trial,
        deferred_required: sorted.deferred,
        allowed,
    };
    Ok(plan)
}

/// Makes the plan of an environment now.
pub fn build_plan(
    environment: &mut Environment,
    findings: &HostFindings,
) -> (r: Result<ApplyPlan, String>)
    requires
        findings.live_routes.len() == old(environment).route_candidates.len(),
    ensures
        exists|now: Timestamp|
            ({
                let (after, result) = #[trigger] planned(old(environment)@, *findings, false, now);
                &&& final(environment)@ == after
                &&& match r {
                    Ok(plan) => result == Ok::<ApplyPlanView, Seq<char>>(plan@),
                    Err(e) => result == Err::<ApplyPlanView, Seq<char>>(e@),
                }
            }),
{
    let now = utc_now();
    build_plan_with_mode(environment, findings, false, now)
}

/// Makes the plan of a guarded trial now.
pub fn build_guarded_trial_plan(
    environment: &mut Environment,
    findings: &HostFindings,
) -> (r: Result<ApplyPlan, String>)
    requires
        findings.live_routes.len() == old(environment).route_candidates.len(),
    ensures
        exists|now: Timestamp|
            ({
                let (after, result) = #[trigger] planned(old(environment)@, *findings, true, now);
                &&& final(environment)@ == after
                &&& match r {
                    Ok(plan) => result == Ok::<ApplyPlanView, Seq<char>>(plan@),
                    Err(e) => result == Err::<ApplyPlanView, Seq<char>>(e@),
                }
            }),
{
    let now = utc_now();
    build_plan_with_mode(environment, findings, true, now)
}

/// An allowed plan changes something, and nothing stands against it: no path of the host has
/// changed meanwhile, no route blocker is left, and, unless the policy only warns, every required
/// circuit was checked within the last minute and is not lost, pending, degraded or
/// unverifiable.
pub proof fn law_allowed_plans_are_safe(
    environment: EnvironmentView,
    changes: Seq<ChangeView>,
    conflicts: Seq<Seq<char>>,
    routes: Seq<Seq<char>>,
    host: Host,
    now: Timestamp,
)
    requires
        plan_of(environment, changes, conflicts, routes, host, false, now).allowed,
    ensures
        changes.len() > 0 || environment.route_candidates.len() > 0,
        conflicts.len() == 0,
        routes.len() == 0,
        forall|i: int|
            0 <= i < environment.route_candidates.len() ==> has_canary(
                environment.baseline,
                #[trigger] environment.route_candidates[i],
            ),
        environment.policy.on_failure != FailurePolicy::Warn ==> forall|i: int|
            0 <= i < environment.baseline.len() && (#[trigger] environment.baseline[i]).required
                ==> !is_stale(environment.baseline[i].last_checked_at, now) && (
            environment.baseline[i].validation == ValidationState::Preserved
                || environment.baseline[i].validation == ValidationState::New
                || environment.baseline[i].validation == ValidationState::Ignored),
{
    let candidates = environment.route_candidates;
    lemma_missing_canaries(environment.baseline, candidates);
    lemma_ids_where(environment.baseline, lost_rule(candidates, false));
    lemma_ids_where(environment.baseline, unverified_rule(candidates, false, now));
    if environment.policy.on_failure != FailurePolicy::Warn {
        assert forall|i: int|
            0 <= i < environment.baseline.len() && (
            #[trigger] environment.baseline[i]).required implies !is_stale(
            environment.baseline[i].last_checked_at,
            now,
        ) && (environment.baseline[i].validation == ValidationState::Preserved
            || environment.baseline[i].validation == ValidationState::New
            || environment.baseline[i].validation == ValidationState::Ignored) by {
            assert(!lost_rule(candidates, false)(environment.baseline[i]));
            assert(!unverified_rule(candidates, false, now)(environment.baseline[i]));
        }
    }
}

proof fn lemma_missing_canaries(
    baseline: Seq<CapabilityView>,
    candidates: Seq<RouteCandidateView>,
)
    ensures
        missing_canaries(baseline, candidates).len() == 0 <==> forall|i: int|
            0 <= i < candidates.len() ==> has_canary(baseline, #[trigger] candidates[i]),
    decreases candidates.len(),
{
    if candidates.len() > 0 {
        let shorter = candidates.drop_last();
        lemma_missing_canaries(baseline, shorter);
        if missing_canaries(baseline, candidates).len() == 0 {
            assert forall|i: int| 0 <= i < candidates.len() implies has_canary(
                baseline,
                #[trigger] candidates[i],
            ) by {
                if i < shorter.len() {
                    assert(shorter[i] == candidates[i]);
                }
            }
        }
        if forall|i: int|
            0 <= i < candidates.len() ==> has_canary(baseline, #[trigger] candidates[i]) {
            assert forall|i: int| 0 <= i < shorter.len() implies has_canary(
                baseline,
                #[trigger] shorter[i],
            ) by {
                assert(shorter[i] == candidates[i]);
            }
            assert(has_canary(baseline, candidates[candidates.len() - 1]));
        }
    }
}

/// A plan carries its environment: every staged route, in order and unchanged, and every change of
/// a file. So what is allowed has something to apply that is its own. Making it changes nothing of
/// the environment but the record of what stood on the host.
pub proof fn law_plans_carry_what_is_staged(
    environment: EnvironmentView,
    findings: HostFindings,
    trial: bool,
    now: Timestamp,
)
    ensures
        planned(environment, findings, trial, now).0 == (EnvironmentView {
            origins: planned(environment, findings, trial, now).0.origins,
            origin_paths: planned(environment, findings, trial, now).0.origin_paths,
            ..environment
        }),
        planned(environment, findings, trial, now).1 matches Ok(plan) ==> {
            &&& plan.environment == environment.name
            &&& plan.generated_at == now
            &&& plan.guarded_trial == trial
            &&& plan.route_candidates.len() == environment.route_candidates.len()
            &&& forall|i: int|
                0 <= i < environment.route_candidates.len() ==> (
                #[trigger] plan.route_candidates[i]) == environment.route_candidates[i]
            &&& plan.allowed ==> plan.changes.len() > 0 || plan.route_candidates.len() > 0
        },
{
}

/// A plan says what stands against it, and is allowed exactly if there is something to apply and
/// nothing does. It names a required circuit as lost exactly if that is what its last check found,
/// and as unverifiable exactly if nothing recent is known of it: it was not checked in the last
/// minute, not checked to an end, or found neither preserved nor lost. In a trial the circuits of
/// the routes are left to the checks that follow the apply, and named as such. Where circuits stand
/// against it, only a policy that just warns lets it through, and not in a trial.
pub proof fn law_plans_name_what_stands_against_them(
    environment: EnvironmentView,
    findings: HostFindings,
    trial: bool,
    now: Timestamp,
    id: Seq<char>,
)
    requires
        planned(environment, findings, trial, now).1 is Ok,
    ensures
        ({
            let plan = planned(environment, findings, trial, now).1->Ok_0;
            let circuits = environment.baseline;
            let routes = environment.route_candidates;
            &&& plan.lost_required.contains(id) <==> exists|i: int|
                0 <= i < circuits.len() && (#[trigger] circuits[i]).id == id && circuits[i].required
                    && circuits[i].validation == ValidationState::Lost && !(trial
                    && belongs_to_a_route(routes, id))
            &&& plan.unverifiable_required.contains(id) <==> exists|i: int|
                0 <= i < circuits.len() && (#[trigger] circuits[i]).id == id && circuits[i].required
                    && !(trial && belongs_to_a_route(routes, id)) && (circuits[i].last_checked_at
                    is None || now.nanos() - circuits[i].last_checked_at->Some_0.nanos()
                    >= 61_000_000_000 || circuits[i].validation == ValidationState::Pending
                    || circuits[i].validation == ValidationState::Degraded
                    || circuits[i].validation == ValidationState::Unverifiable)
            &&& plan.deferred_required.contains(id) <==> trial && exists|i: int|
                0 <= i < circuits.len() && (#[trigger] circuits[i]).id == id && circuits[i].required
                    && belongs_to_a_route(routes, id)
            &&& plan.allowed <==> {
                &&& plan.changes.len() > 0 || plan.route_candidates.len() > 0
                &&& plan.conflicts.len() == 0
                &&& plan.route_conflicts.len() == 0
                &&& (plan.lost_required.len() == 0 && plan.unverifiable_required.len() == 0) || (
                !trial && environment.policy.on_failure == FailurePolicy::Warn)
            }
        }),
{
    let circuits = environment.baseline;
    let routes = environment.route_candidates;
    let plan = planned(environment, findings, trial, now).1->Ok_0;
    lemma_ids_where(circuits, lost_rule(routes, trial));
    lemma_ids_where(circuits, unverified_rule(routes, trial, now));
    lemma_ids_where(circuits, deferred_rule(routes));
    assert(is_deferred(routes, id) == belongs_to_a_route(routes, id)) by {
        if is_deferred(routes, id) {
            let k = choose|k: int|
                0 <= k < routes.len() && (#[trigger] routes[k]).capability_ids.contains(id);
            let j = choose|j: int|
                0 <= j < routes[k].capability_ids.len() && routes[k].capability_ids[j] == id;
            assert(routes[k].capability_ids[j] == id);
        }
    }
    if plan.lost_required.contains(id) {
        let i = choose|i: int|
            0 <= i < circuits.len() && lost_rule(routes, trial)(#[trigger] circuits[i])
                && circuits[i].id == id;
        assert(circuits[i].id == id);
    }
    if exists|i: int|
        0 <= i < circuits.len() && (#[trigger] circuits[i]).id == id && circuits[i].required
            && circuits[i].validation == ValidationState::Lost && !(trial && belongs_to_a_route(
            routes,
            id,
        )) {
        let i = choose|i: int|
            0 <= i < circuits.len() && (#[trigger] circuits[i]).id == id && circuits[i].required
                && circuits[i].validation == ValidationState::Lost && !(trial
                && belongs_to_a_route(routes, id));
        assert(lost_rule(routes, trial)(circuits[i]));
    }
    lemma_unverified(environment, trial, now, id);
    lemma_deferred(environment, id);
}

proof fn lemma_unverified(
    environment: EnvironmentView,
    trial: bool,
    now: Timestamp,
    id: Seq<char>,
)
    requires
        is_deferred(environment.route_candidates, id) == belongs_to_a_route(
            environment.route_candidates,
            id,
        ),
    ensures
        ids_where(
            environment.baseline,
            unverified_rule(environment.route_candidates, trial, now),
        ).contains(id) <==> exists|i: int|
            0 <= i < environment.baseline.len() && (#[trigger] environment.baseline[i]).id == id
                && environment.baseline[i].required && !(trial && belongs_to_a_route(
                environment.route_candidates,
                id,
            )) && (environment.baseline[i].last_checked_at is None || now.nanos()
                - environment.baseline[i].last_checked_at->Some_0.nanos() >= 61_000_000_000
                || environment.baseline[i].validation == ValidationState::Pending
                || environment.baseline[i].validation == ValidationState::Degraded
                || environment.baseline[i].validation == ValidationState::Unverifiable),
{
    let circuits = environment.baseline;
    let routes = environment.route_candidates;
    let rule = unverified_rule(routes, trial, now);
    lemma_ids_where(circuits, rule);
    if ids_where(circuits, rule).contains(id) {
        let i = choose|i: int|
            0 <= i < circuits.len() && rule(#[trigger] circuits[i]) && circuits[i].id == id;
        assert(circuits[i].id == id);
    }
    if exists|i: int|
        0 <= i < circuits.len() && (#[trigger] circuits[i]).id == id && circuits[i].required && !(
        trial && belongs_to_a_route(routes, id)) && (circuits[i].last_checked_at is None
            || now.nanos() - circuits[i].last_checked_at->Some_0.nanos() >= 61_000_000_000
            || circuits[i].validation == ValidationState::Pending || circuits[i].validation
            == ValidationState::Degraded || circuits[i].validation
            == ValidationState::Unverifiable) {
        let i = choose|i: int|
            0 <= i < circuits.len() && (#[trigger] circuits[i]).id == id && circuits[i].required
                && !(trial && belongs_to_a_route(routes, id)) && (circuits[i].last_checked_at
                is None || now.nanos() - circuits[i].last_checked_at->Some_0.nanos()
                >= 61_000_000_000 || circuits[i].validation == ValidationState::Pending
                || circuits[i].validation == ValidationState::Degraded || circuits[i].validation
                == ValidationState::Unverifiable);
        assert(rule(circuits[i]));
    }
}

proof fn lemma_deferred(environment: EnvironmentView, id: Seq<char>)
    requires
        is_deferred(environment.route_candidates, id) == belongs_to_a_route(
            environment.route_candidates,
            id,
        ),
    ensures
        ids_where(
            environment.baseline,
            deferred_rule(environment.route_candidates),
        ).contains(id) <==> exists|i: int|
            0 <= i < environment.baseline.len() && (#[trigger] environment.baseline[i]).id == id
                && environment.baseline[i].required && belongs_to_a_route(
                environment.route_candidates,
                id,
            ),
{
    let circuits = environment.baseline;
    let routes = environment.route_candidates;
    let rule = deferred_rule(routes);
    lemma_ids_where(circuits, rule);
    if ids_where(circuits, rule).contains(id) {
        let i = choose|i: int|
            0 <= i < circuits.len() && rule(#[trigger] circuits[i]) && circuits[i].id == id;
        assert(circuits[i].id == id);
    }
    if exists|i: int|
        0 <= i < circuits.len() && (#[trigger] circuits[i]).id == id && circuits[i].required
            && belongs_to_a_route(routes, id) {
        let i = choose|i: int|
            0 <= i < circuits.len() && (#[trigger] circuits[i]).id == id && circuits[i].required
                && belongs_to_a_route(routes, id);
        assert(rule(circuits[i]));
    }
}

/// Whether a staged route lists a circuit as one of its own.
pub open spec fn belongs_to_a_route(routes: Seq<RouteCandidateView>, id: Seq<char>) -> bool {
    exists|k: int, j: int|
        0 <= k < routes.len() && 0 <= j < routes[k].capability_ids.len()
            && #[trigger] routes[k].capability_ids[j] == id
}

/// A route is let through only with a check of its own that runs a command and is required: where
/// one has none, a plan names it among what stands against it.
pub proof fn law_routes_need_a_canary(
    environment: EnvironmentView,
    findings: HostFindings,
    trial: bool,
    now: Timestamp,
    k: int,
)
    requires
        planned(environment, findings, trial, now).1 is Ok,
        0 <= k < environment.route_candidates.len(),
        forall|i: int|
            0 <= i < environment.baseline.len() && (#[trigger] environment.baseline[i]).required
                && environment.baseline[i].probe is Command
                ==> !environment.route_candidates[k].capability_ids.contains(
                environment.baseline[i].id,
            ),
    ensures
        !planned(environment, findings, trial, now).1->Ok_0.allowed,
        planned(environment, findings, trial, now).1->Ok_0.route_conflicts.contains(
            "route candidate "@ + environment.route_candidates[k].id
                + " has no required application-level canary"@,
        ),
{
    let state = scan(environment, layer_view(findings.layer), findings.table@);
    let routes = host_route_conflicts(
        findings.host,
        environment.route_candidates,
        findings.live_routes@,
    )->Ok_0;
    let missing = missing_canaries(environment.baseline, environment.route_candidates);
    let plan = planned(environment, findings, trial, now).1->Ok_0;
    assert(!has_canary(environment.baseline, environment.route_candidates[k]));
    let n = lemma_missing_canary(environment.baseline, environment.route_candidates, k);
    assert(plan.route_conflicts[routes.len() + n] == missing[n]);
}

proof fn lemma_missing_canary(
    baseline: Seq<CapabilityView>,
    candidates: Seq<RouteCandidateView>,
    k: int,
) -> (n: int)
    requires
        0 <= k < candidates.len(),
        !has_canary(baseline, candidates[k]),
    ensures
        0 <= n < missing_canaries(baseline, candidates).len(),
        missing_canaries(baseline, candidates)[n] == "route candidate "@ + candidates[k].id
            + " has no required application-level canary"@,
    decreases candidates.len(),
{
    if k == candidates.len() - 1 {
        missing_canaries(baseline, candidates).len() - 1
    } else {
        assert(candidates.drop_last()[k] == candidates[k]);
        lemma_missing_canary(baseline, candidates.drop_last(), k)
    }
}

/// A plan without any change is never allowed.
pub proof fn law_empty_plans_are_blocked(
    environment: EnvironmentView,
    conflicts: Seq<Seq<char>>,
    routes: Seq<Seq<char>>,
    host: Host,
    trial: bool,
    now: Timestamp,
)
    requires
        environment.route_candidates.len() == 0,
    ensures
        !plan_of(environment, Seq::empty(), conflicts, routes, host, trial, now).allowed,
{
}

/// An allowed trial runs on macOS, installs routes and nothing else, and can be rolled back by
/// itself; whatever the policy, every required circuit that belongs to no candidate was checked
/// within the last minute and is not lost, pending, degraded or unverifiable.
pub proof fn law_allowed_trials_are_route_only(
    environment: EnvironmentView,
    changes: Seq<ChangeView>,
    conflicts: Seq<Seq<char>>,
    routes: Seq<Seq<char>>,
    host: Host,
    now: Timestamp,
)
    requires
        plan_of(environment, changes, conflicts, routes, host, true, now).allowed,
    ensures
        host == Host::MacOs,
        changes.len() == 0,
        environment.route_candidates.len() > 0,
        environment.policy.auto_rollback,
        forall|i: int|
            0 <= i < environment.baseline.len() && (#[trigger] environment.baseline[i]).required
                && !is_deferred(environment.route_candidates, environment.baseline[i].id)
                ==> !is_stale(environment.baseline[i].last_checked_at, now) && (
            environment.baseline[i].validation == ValidationState::Preserved
                || environment.baseline[i].validation == ValidationState::New
                || environment.baseline[i].validation == ValidationState::Ignored),
{
    let candidates = environment.route_candidates;
    lemma_ids_where(environment.baseline, lost_rule(candidates, true));
    lemma_ids_where(environment.baseline, unverified_rule(candidates, true, now));
    let common = routes + missing_canaries(environment.baseline, candidates);
    let extra = trial_blockers(host, environment, changes);
    assert((common + extra).len() == common.len() + extra.len());
    assert forall|i: int|
        0 <= i < environment.baseline.len() && (#[trigger] environment.baseline[i]).required
            && !is_deferred(candidates, environment.baseline[i].id) implies !is_stale(
        environment.baseline[i].last_checked_at,
        now,
    ) && (environment.baseline[i].validation == ValidationState::Preserved
        || environment.baseline[i].validation == ValidationState::New
        || environment.baseline[i].validation == ValidationState::Ignored) by {
        assert(!lost_rule(candidates, true)(environment.baseline[i]));
        assert(!unverified_rule(candidates, true, now)(environment.baseline[i]));
    }
}

/// A trial defers exactly the required circuits that belong to its candidates; they are then
/// counted neither as lost nor as unverifiable. Outside a trial nothing is deferred.
pub proof fn law_trials_defer_only_route_circuits(
    environment: EnvironmentView,
    changes: Seq<ChangeView>,
    conflicts: Seq<Seq<char>>,
    routes: Seq<Seq<char>>,
    host: Host,
    now: Timestamp,
    i: int,
)
    requires
        0 <= i < environment.baseline.len(),
    ensures
        plan_of(environment, changes, conflicts, routes, host, false, now).deferred_required.len()
            == 0,
        environment.baseline[i].required && is_deferred(
            environment.route_candidates,
            environment.baseline[i].id,
        ) ==> ({
            let plan = plan_of(environment, changes, conflicts, routes, host, true, now);
            let id = environment.baseline[i].id;
            plan.deferred_required.contains(id) && !plan.lost_required.contains(id)
                && !plan.unverifiable_required.contains(id)
        }),
{
    let candidates = environment.route_candidates;
    lemma_ids_where(environment.baseline, lost_rule(candidates, true));
    lemma_ids_where(environment.baseline, unverified_rule(candidates, true, now));
    lemma_ids_where(environment.baseline, deferred_rule(candidates));
    assert(deferred_rule(candidates)(environment.baseline[i]) == (environment.baseline[i].required
        && is_deferred(candidates, environment.baseline[i].id)));
}

} // verus!
