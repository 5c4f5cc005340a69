//! What the commands keep of an environment, and what they change: staging and resetting files,
//! entering and leaving it, watching an apply, and letting it go.
use vstd::prelude::*;

use crate::clock::Timestamp;
use crate::command::Host;
use crate::model::{CapabilityView, EnvironmentStatus, EnvironmentView, OriginView, ValidationState};
use crate::order::lemma_sorted_members;
use crate::path::{lists_path, parts, same_parts, with_path, without_path, FsPath};
use crate::platform::is_isolated;
use crate::platform::docker::sorted_paths;
use crate::probe::Span;
use crate::session::{
    check_code, checks_here, cleared, commit_refusal, discard_refusal, entry_of, entry_refusal,
    exported, guard_decision, has_failed, has_lost, removal_refusal, staged, unstaged, CommandKind,
    Entry, GuardStep, StageKind,
};
use crate::staged_routes::checked_status;

verus! {

/// Whether two environments differ at most in what they record of files, in their status and in
/// the time of their last change.
pub open spec fn same_but_files(a: EnvironmentView, b: EnvironmentView) -> bool {
    &&& a.version == b.version
    &&& a.id == b.id
    &&& a.name == b.name
    &&& a.description == b.description
    &&& a.created_at == b.created_at
    &&& a.base_root == b.base_root
    &&& a.policy == b.policy
    &&& a.baseline == b.baseline
    &&& a.ignored_paths == b.ignored_paths
    &&& a.applied_transaction == b.applied_transaction
    &&& a.route_candidates == b.route_candidates
    &&& a.metadata == b.metadata
}

/// Whether the records of all other paths stay: what the host held there, how they are written, and
/// whether they are deleted.
pub open spec fn keeps_other_path(
    before: EnvironmentView,
    after: EnvironmentView,
    other: Seq<char>,
) -> bool {
    let key = parts(other);
    &&& after.origins.dom().contains(key) <==> before.origins.dom().contains(key)
    &&& before.origins.dom().contains(key) ==> after.origins[key] == before.origins[key]
    &&& after.origin_paths.dom().contains(key) <==> before.origin_paths.dom().contains(key)
    &&& before.origin_paths.dom().contains(key) ==> after.origin_paths[key]
        == before.origin_paths[key]
    &&& lists_path(after.deleted_paths, other) <==> lists_path(before.deleted_paths, other)
}

/// A list of paths without a path holds the others, and not that one; with a path, it holds that
/// one and the others.
pub proof fn law_lists_hold_what_was_put_in(
    list: Seq<Seq<char>>,
    path: Seq<char>,
    other: Seq<char>,
)
    ensures
        !lists_path(without_path(list, path), path),
        !same_parts(other, path) ==> (lists_path(without_path(list, path), other) <==> lists_path(
            list,
            other,
        )),
        lists_path(with_path(list, path), path),
        !same_parts(other, path) ==> (lists_path(with_path(list, path), other) <==> lists_path(
            list,
            other,
        )),
        with_path(list, path).len() <= list.len() + 1,
        without_path(list, path).len() <= list.len(),
    decreases list.len(),
{
    if list.len() > 0 {
        let shorter = list.drop_last();
        law_lists_hold_what_was_put_in(shorter, path, other);
        lemma_listed_last(shorter, list.last(), other);
        lemma_listed_last(without_path(shorter, path), list.last(), other);
        lemma_listed_last(without_path(shorter, path), list.last(), path);
        assert(shorter.push(list.last()) =~= list);
    }
    lemma_listed_last(list, path, path);
    lemma_listed_last(list, path, other);
}

proof fn lemma_listed_last(list: Seq<Seq<char>>, last: Seq<char>, path: Seq<char>)
    ensures
        lists_path(list.push(last), path) <==> lists_path(list, path) || same_parts(last, path),
{
    let longer = list.push(last);
    if lists_path(longer, path) {
        let i = choose|i: int| 0 <= i < longer.len() && same_parts(#[trigger] longer[i], path);
        if i < list.len() {
            assert(same_parts(list[i], path));
        }
    }
    if lists_path(list, path) {
        let i = choose|i: int| 0 <= i < list.len() && same_parts(#[trigger] list[i], path);
        assert(same_parts(longer[i], path));
    }
    if same_parts(last, path) {
        assert(same_parts(longer[list.len() as int], path));
    }
}

/// Staging records one path and touches nothing else. A deletion can be staged wherever the host
/// holds something, and a file wherever its source is no directory; afterwards the path is deleted
/// or is not, as was asked, and what the host held there is on record.
pub proof fn law_staging_records_one_path(
    environment: EnvironmentView,
    relative: Seq<char>,
    origin: OriginView,
    kind: StageKind,
    at: Timestamp,
    other: Seq<char>,
)
    ensures
        staged(environment, relative, origin, kind, at) is Ok <==> match kind {
            StageKind::Deletion => origin.existed,
            StageKind::File { directory } => !directory,
        },
        staged(environment, relative, origin, kind, at) matches Ok(after) ==> {
            &&& same_but_files(environment, after)
            &&& after.status == environment.status
            &&& after.tracked_paths == environment.tracked_paths
            &&& after.updated_at == at
            &&& lists_path(after.deleted_paths, relative) <==> kind is Deletion
            &&& after.origins.dom().contains(parts(relative))
            &&& !environment.origins.dom().contains(parts(relative)) ==> after.origins[parts(
                relative,
            )] == origin
            &&& !same_parts(other, relative) ==> keeps_other_path(environment, after, other)
        },
{
    law_lists_hold_what_was_put_in(environment.deleted_paths, relative, other);
}

/// A reset forgets the paths that it is given, and touches nothing else: none of them is deleted or
/// on record afterwards, and every other path is as it was.
pub proof fn law_resets_forget_their_paths(
    environment: EnvironmentView,
    paths: Seq<Seq<char>>,
    n: int,
    other: Seq<char>,
)
    requires
        0 <= n <= paths.len(),
    ensures
        ({
            let after = unstaged(environment, paths, n);
            &&& same_but_files(environment, after)
            &&& after.status == environment.status
            &&& after.tracked_paths == environment.tracked_paths
            &&& if exists|i: int| 0 <= i < n && same_parts(#[trigger] paths[i], other) {
                &&& !lists_path(after.deleted_paths, other)
                &&& !after.origins.dom().contains(parts(other))
                &&& !after.origin_paths.dom().contains(parts(other))
            } else {
                keeps_other_path(environment, after, other)
            }
        }),
    decreases n,
{
    if n > 0 {
        law_resets_forget_their_paths(environment, paths, n - 1, other);
        let before = unstaged(environment, paths, n - 1);
        law_lists_hold_what_was_put_in(before.deleted_paths, paths[n - 1], other);
        law_lists_hold_what_was_put_in(before.deleted_paths, paths[n - 1], paths[n - 1]);
        if same_parts(paths[n - 1], other) {
            lemma_listed_alike(before.deleted_paths, paths[n - 1], other);
        }
    }
}

proof fn lemma_listed_alike(list: Seq<Seq<char>>, path: Seq<char>, other: Seq<char>)
    requires
        same_parts(path, other),
    ensures
        !lists_path(without_path(list, path), other),
{
    law_lists_hold_what_was_put_in(list, path, path);
    if lists_path(without_path(list, path), other) {
        let rest = without_path(list, path);
        let i = choose|i: int| 0 <= i < rest.len() && same_parts(#[trigger] rest[i], other);
        assert(same_parts(rest[i], path));
    }
}

/// An export of a path from a guest adds it to the exported paths, once, keeps all the others, and
/// puts what the host held there on record unless something is.
pub proof fn law_exports_add_one_path(
    environment: EnvironmentView,
    relative: Seq<char>,
    origin: OriginView,
    at: Timestamp,
    other: Seq<char>,
)
    ensures
        ({
            let after = exported(environment, relative, origin, at);
            &&& same_but_files(environment, after)
            &&& after.status == environment.status
            &&& after.deleted_paths == environment.deleted_paths
            &&& after.updated_at == at
            &&& lists_path(after.tracked_paths, relative)
            &&& lists_path(environment.tracked_paths, other) ==> lists_path(
                after.tracked_paths,
                other,
            )
            &&& !same_parts(relative, other) && lists_path(after.tracked_paths, other)
                ==> lists_path(environment.tracked_paths, other)
            &&& after.tracked_paths.len() == environment.tracked_paths.len() + if lists_path(
                environment.tracked_paths,
                relative,
            ) {
                0int
            } else {
                1int
            }
            &&& after.origins.dom().contains(parts(relative))
            &&& !environment.origins.dom().contains(parts(relative)) ==> after.origins[parts(
                relative,
            )] == origin
            &&& !same_parts(other, relative) ==> keeps_other_path(environment, after, other)
        }),
{
    let list = environment.tracked_paths;
    if !lists_path(list, relative) {
        let longer = list.push(relative);
        lemma_listed_last(list, relative, relative);
        lemma_listed_last(list, relative, other);
        lemma_sorting_keeps(longer, relative);
        lemma_sorting_keeps(longer, other);
    }
}

proof fn lemma_sorting_keeps(list: Seq<Seq<char>>, path: Seq<char>)
    ensures
        lists_path(sorted_paths(list), path) <==> lists_path(list, path),
        sorted_paths(list).len() == list.len(),
{
    let ranks = Seq::new(list.len(), |i: int| parts(list[i]));
    lemma_sorted_members::<FsPath, Seq<char>>(ranks, list);
    let sorted = sorted_paths(list);
    if lists_path(sorted, path) {
        let i = choose|i: int| 0 <= i < sorted.len() && same_parts(#[trigger] sorted[i], path);
        assert(list.contains(sorted[i]));
        let k = choose|k: int| 0 <= k < list.len() && list[k] == sorted[i];
        assert(same_parts(list[k], path));
    }
    if lists_path(list, path) {
        let i = choose|i: int| 0 <= i < list.len() && same_parts(#[trigger] list[i], path);
        assert(sorted.contains(list[i]));
        let k = choose|k: int| 0 <= k < sorted.len() && sorted[k] == list[i];
        assert(same_parts(sorted[k], path));
    }
}

/// A guest that is made anew has deleted none of the exported paths. What the host held at them is
/// forgotten if that was asked for and kept if not, and every other path is as it was.
pub proof fn law_new_guests_have_deleted_nothing(
    environment: EnvironmentView,
    forget: bool,
    n: int,
    other: Seq<char>,
)
    requires
        0 <= n <= environment.tracked_paths.len(),
    ensures
        ({
            let after = cleared(environment, forget, n);
            &&& same_but_files(environment, after)
            &&& after.tracked_paths == environment.tracked_paths
            &&& !forget ==> after.origins == environment.origins && after.origin_paths
                == environment.origin_paths
            &&& if exists|i: int|
                0 <= i < n && same_parts(#[trigger] environment.tracked_paths[i], other) {
                &&& !lists_path(after.deleted_paths, other)
                &&& forget ==> !after.origins.dom().contains(parts(other))
                    && !after.origin_paths.dom().contains(parts(other))
            } else {
                keeps_other_path(environment, after, other)
            }
        }),
    decreases n,
{
    if n > 0 {
        law_new_guests_have_deleted_nothing(environment, forget, n - 1, other);
        let before = cleared(environment, forget, n - 1);
        let path = environment.tracked_paths[n - 1];
        law_lists_hold_what_was_put_in(before.deleted_paths, path, other);
        if same_parts(path, other) {
            lemma_listed_alike(before.deleted_paths, path, other);
        }
    }
}

/// What may be done with an environment follows from its status: one that is applied or discarded
/// cannot be entered, one that is applied cannot be discarded, and one with changes that are neither
/// applied nor discarded cannot be removed. All else may be done, if it is confirmed where it has to
/// be.
pub proof fn law_statuses_permit(environment: EnvironmentView, changes: nat, yes: bool)
    ensures
        entry_refusal(environment) is None <==> environment.status != EnvironmentStatus::Applied
            && environment.status != EnvironmentStatus::Discarded,
        discard_refusal(environment, yes) is None <==> environment.status
            != EnvironmentStatus::Applied && yes,
        removal_refusal(environment, changes, yes) is None <==> yes && (changes == 0
            || environment.status == EnvironmentStatus::Applied || environment.status
            == EnvironmentStatus::Discarded),
{
}

/// An environment is ready after it was left exactly if no required circuit is lost, and after a
/// check exactly if none is lost or could not be checked; the exit code of a check tells the same.
pub proof fn law_lost_circuits_show_in_the_status(baseline: Seq<CapabilityView>)
    ensures
        checked_status(has_lost(baseline)) == EnvironmentStatus::Ready <==> forall|i: int|
            0 <= i < baseline.len() && (#[trigger] baseline[i]).required ==> baseline[i].validation
                != ValidationState::Lost,
        checked_status(has_lost(baseline)) == EnvironmentStatus::Ready || checked_status(
            has_lost(baseline),
        ) == EnvironmentStatus::ValidationFailed,
        checked_status(has_failed(baseline)) == EnvironmentStatus::Ready <==> forall|i: int|
            0 <= i < baseline.len() && (#[trigger] baseline[i]).required ==> baseline[i].validation
                != ValidationState::Lost && baseline[i].validation
                != ValidationState::Unverifiable,
        check_code(has_failed(baseline)) == 0 <==> checked_status(has_failed(baseline))
            == EnvironmentStatus::Ready,
        check_code(has_failed(baseline)) == 0 || check_code(has_failed(baseline)) == 2,
{
    if !has_lost(baseline) {
        assert forall|i: int|
            0 <= i < baseline.len() && (#[trigger] baseline[i]).required implies baseline[i].validation
            != ValidationState::Lost by {}
    }
}

/// A guard waits exactly as long as an apply is open and its lease was renewed less than the
/// timeout ago, and never for less than five seconds: at every instant it stops if the apply is
/// settled, and takes it back if nobody renewed the lease in time or nobody can tell.
pub proof fn law_guards_wait_for_the_lease(
    committed: bool,
    rolled_back: bool,
    age: Option<Span>,
    timeout: u64,
)
    ensures
        guard_decision(committed, rolled_back, age, timeout) == GuardStep::Wait <==> !committed
            && !rolled_back && (age matches Some(span) && (span.seconds < 5 || span.seconds
            < timeout)),
        guard_decision(committed, rolled_back, age, timeout) == GuardStep::Stop <==> committed
            || rolled_back,
{
}

/// Circuits are checked in the sandbox of their environment, wherever there is one: right here only
/// if that was asked for, or this is that sandbox, or a macOS host has no sandbox to check them in.
pub proof fn law_circuits_are_checked_in_the_sandbox(
    host: Host,
    environment: EnvironmentView,
    native: bool,
    name: Seq<char>,
    active: Option<Seq<char>>,
    here: bool,
)
    ensures
        here ==> checks_here(host, environment, native, name, active, here),
        active == Some(name) ==> checks_here(host, environment, native, name, active, here),
        !here && active != Some(name) && host != Host::MacOs ==> !checks_here(
            host,
            environment,
            native,
            name,
            active,
            here,
        ),
        !here && active != Some(name) && is_isolated(host, environment, native) ==> !checks_here(
            host,
            environment,
            native,
            name,
            active,
            here,
        ),
        host == Host::MacOs && !is_isolated(host, environment, native) ==> checks_here(
            host,
            environment,
            native,
            name,
            active,
            here,
        ),
{
}

/// Every command takes the lock of the store, but for the two that run beside one that holds it,
/// and the checks that run in a sandbox on what its supervisor handed over.
pub proof fn law_commands_take_the_lock(
    kind: CommandKind,
    name: Seq<char>,
    active: Option<Seq<char>>,
    control: bool,
)
    ensures
        entry_of(kind, name, active, control) == Entry::Unlocked <==> kind
            == CommandKind::RollbackGuard || kind == CommandKind::SandboxInit,
        entry_of(kind, name, active, control) == Entry::Supervised <==> control && (kind
            == CommandKind::Probe || kind == CommandKind::Check && active == Some(name)),
{
}

/// A container is turned into an image exactly if no circuit stands against it and it has changed.
pub proof fn law_commits_need_changes_and_circuits(
    name: Seq<char>,
    blockers: Seq<Seq<char>>,
    changes: nat,
)
    ensures
        commit_refusal(name, blockers, changes) is None <==> blockers.len() == 0 && changes > 0,
{
}

} // verus!
