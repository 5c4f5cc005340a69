//! Transactions: how a plan is carried out, journalled and taken back.
use vstd::prelude::*;

use crate::clock::{compact_text, compact_utc, is_compact, is_ordinary, utc_now, Timestamp};
use crate::command::Host;
use crate::diff::{unsafe_path_message, validate_relative_path, FileKind};
use crate::identity::{random_id, short_id, short_text, EnvironmentId};
use crate::model::{
    duplicate_all, views, ApplyPlan, ApplyPlanView, BackupEntry, BackupEntryView, Change,
    ChangeKind, ChangeView, Duplicate, Environment, EnvironmentView, RouteCandidate,
    RouteCandidateView, RouteChange, RouteChangeState, RouteChangeView, RouteObservation,
    Transaction, TransactionView, STATE_VERSION,
};
use crate::path::{is_safe_relative, joined, same_parts, FsPath};
use crate::platform::route::{is_installed, verify_route_change};
use crate::store::{backup_path, is_identifier, is_identifier_char, upper_path, Store};
use crate::text::{opt_text, texts};

verus! {

/// What is done to one path of the host.
pub enum FileAction {
    Remove { target: FsPath },
    Copy { source: FsPath, target: FsPath },
}

pub enum FileActionView {
    Remove { target: Seq<char> },
    Copy { source: Seq<char>, target: Seq<char> },
}

impl View for FileAction {
    type V = FileActionView;

    open spec fn view(&self) -> FileActionView {
        match self {
            FileAction::Remove { target } => FileActionView::Remove { target: target@ },
            FileAction::Copy { source, target } => FileActionView::Copy {
                source: source@,
                target: target@,
            },
        }
    }
}

/// What a change does to the host.
pub open spec fn change_action(
    base: Seq<char>,
    upper: Seq<char>,
    change: ChangeView,
) -> FileActionView {
    if change.kind == ChangeKind::Deleted {
        FileActionView::Remove { target: joined(base, change.path) }
    } else {
        FileActionView::Copy {
            source: joined(upper, change.path),
            target: joined(base, change.path),
        }
    }
}

/// What a change does to the host, unless its path is unsafe.
pub fn apply_change(
    base_root: &FsPath,
    upper: &FsPath,
    change: &Change,
) -> (r: Result<FileAction, String>)
    ensures
        r is Ok <==> is_safe_relative(change@.path),
        match r {
            Ok(action) => action@ == change_action(base_root@, upper@, change@),
            Err(e) => e@ == unsafe_path_message(change@.path),
        },
{
    match validate_relative_path(&change.path) {
        Err(e) => return Err(e),
        Ok(()) => {},
    }
    let target = base_root.join(change.path.text.as_str());
    match change.kind {
        ChangeKind::Deleted => Ok(FileAction::Remove { target }),
        _ => Ok(FileAction::Copy { source: upper.join(change.path.text.as_str()), target }),
    }
}

/// The first backup of a path.
pub open spec fn find_backup(
    backups: Seq<BackupEntryView>,
    path: Seq<char>,
) -> Option<BackupEntryView>
    decreases backups.len(),
{
    if backups.len() == 0 {
        None
    } else if same_parts(backups[0].path, path) {
        Some(backups[0])
    } else {
        find_backup(backups.drop_first(), path)
    }
}

/// What puts a path of the host back.
pub open spec fn restore_action(
    base: Seq<char>,
    backup_root: Seq<char>,
    backups: Seq<BackupEntryView>,
    path: Seq<char>,
) -> Result<FileActionView, Seq<char>> {
    if !is_safe_relative(path) {
        Err(unsafe_path_message(path))
    } else {
        match find_backup(backups, path) {
            None => Err("missing backup metadata for "@ + path),
            Some(backup) => if backup.existed {
                Ok(
                    FileActionView::Copy {
                        source: joined(backup_root, path),
                        target: joined(base, path),
                    },
                )
            } else {
                Ok(FileActionView::Remove { target: joined(base, path) })
            },
        }
    }
}

/// What puts a path of the host back.
pub fn restore_entry(
    base_root: &FsPath,
    backup_root: &FsPath,
    backups: &Vec<BackupEntry>,
    path: &FsPath,
) -> (r: Result<FileAction, String>)
    ensures
        match r {
            Ok(action) => restore_action(base_root@, backup_root@, views(backups@), path@)
                == Ok::<FileActionView, Seq<char>>(action@),
            Err(e) => restore_action(base_root@, backup_root@, views(backups@), path@)
                == Err::<FileActionView, Seq<char>>(e@),
        },
{
    match validate_relative_path(path) {
        Err(e) => return Err(e),
        Ok(()) => {},
    }
    let ghost all = views(backups@);
    let mut i: usize = 0;
    assert(all.skip(0) =~= all);
    while i < backups.len()
        invariant
            i <= backups.len(),
            all == views(backups@),
            is_safe_relative(path@),
            find_backup(all, path@) == find_backup(all.skip(i as int), path@),
        decreases backups.len() - i,
    {
        proof {
            assert(all.skip(i as int)[0] == backups@[i as int]@);
            assert(all.skip(i as int).drop_first() =~= all.skip(i + 1));
        }
        if backups[i].path.same(path) {
            let target = base_root.join(path.text.as_str());
            return if backups[i].existed {
                Ok(FileAction::Copy { source: backup_root.join(path.text.as_str()), target })
            } else {
                Ok(FileAction::Remove { target })
            };
        }
        i += 1;
    }
    Err("missing backup metadata for ".to_owned().concat(path.text.as_str()))
}

/// The route changes that candidates stand for.
pub open spec fn route_change_of(candidate: RouteCandidateView) -> RouteChangeView {
    RouteChangeView {
        candidate_id: candidate.id,
        destination: candidate.destination,
        interface: candidate.interface,
        gateway: candidate.gateway,
        original: candidate.observed_route,
        state: RouteChangeState::Prepared,
    }
}

/// The identifier of a transaction, made from the time and a random number.
pub open spec fn transaction_key(stamp: Seq<char>, id: Seq<u8>) -> Seq<char> {
    "apply-"@ + stamp + "-"@ + short_id(id, 8)
}

/// The journal that an apply starts with.
pub open spec fn fresh_transaction(
    key: Seq<char>,
    environment: EnvironmentView,
    plan: ApplyPlanView,
    now: Timestamp,
) -> TransactionView {
    TransactionView {
        version: STATE_VERSION,
        id: key,
        environment: environment.name,
        created_at: now,
        rolled_back_at: None,
        base_root: environment.base_root,
        changes: plan.changes,
        backups: Seq::empty(),
        route_changes: Seq::new(
            plan.route_candidates.len(),
            |i: int| route_change_of(plan.route_candidates[i]),
        ),
    }
}

fn prepared_routes(candidates: &Vec<RouteCandidate>) -> (r: Vec<RouteChange>)
    ensures
        views(r@) == Seq::new(
            candidates@.len(),
            |i: int| route_change_of(views(candidates@)[i]),
        ),
{
    let mut r: Vec<RouteChange> = Vec::new();
    let mut i: usize = 0;
    while i < candidates.len()
        invariant
            i <= candidates.len(),
            r@.len() == i,
            forall|k: int| 0 <= k < i ==> (#[trigger] r@[k])@ == route_change_of(candidates@[k]@),
        decreases candidates.len() - i,
    {
        let candidate = &candidates[i];
        r.push(
            RouteChange {
                candidate_id: candidate.id.clone(),
                destination: candidate.destination.clone(),
                interface: candidate.interface.clone(),
                gateway: crate::text::copy_option(&candidate.gateway),
                original: candidate.observed_route.duplicate(),
                state: RouteChangeState::Prepared,
            },
        );
        i += 1;
    }
    assert(views(r@) =~= Seq::new(
        candidates@.len(),
        |i: int| route_change_of(views(candidates@)[i]),
    ));
    r
}

/// Where an apply stands: what it waits for.
#[derive(Debug, Clone, Copy, PartialEq, Eq, Structural)]
pub enum RunPhase {
    Start,
    BackupRoot,
    Backup { index: usize },
    Journal,
    Lease,
    Change { index: usize },
    RouteMark { index: usize },
    Route { index: usize },
    RouteMarked { index: usize },
    UndoRoute { index: usize },
    UndoRouteMark { index: usize },
    UndoFiles { after_route: bool },
    UndoJournal { after_route: bool },
    Done,
}

/// An apply that is under way.
pub struct ApplyRun {
    /// The journal. It is what `SaveJournal` saves.
    pub transaction: Transaction,
    pub upper: FsPath,
    pub backup_root: FsPath,
    pub auto_rollback: bool,
    /// Whether a lease watches the apply.
    pub armed: bool,
    pub phase: RunPhase,
    /// How many changes stand on the host.
    pub applied: usize,
    /// What made the apply fail.
    pub failure: String,
    /// What made the rollback of the routes fail.
    pub route_failure: Option<String>,
}

#[verifier::ext_equal]
pub struct RunView {
    pub transaction: TransactionView,
    pub upper: Seq<char>,
    pub backup_root: Seq<char>,
    pub auto_rollback: bool,
    pub armed: bool,
    pub phase: RunPhase,
    pub applied: usize,
    pub failure: Seq<char>,
    pub route_failure: Option<Seq<char>>,
}

impl View for ApplyRun {
    type V = RunView;

    open spec fn view(&self) -> RunView {
        RunView {
            transaction: self.transaction@,
            upper: self.upper@,
            backup_root: self.backup_root@,
            auto_rollback: self.auto_rollback,
            armed: self.armed,
            phase: self.phase,
            applied: self.applied,
            failure: self.failure@,
            route_failure: opt_text(self.route_failure),
        }
    }
}

/// What to do next for an apply.
pub enum ApplyAction {
    MakeDirectory { path: FsPath },
    Backup { source: FsPath, destination: FsPath },
    SaveJournal,
    ArmLease,
    Change { action: FileAction },
    Restore { action: FileAction },
    ApplyRoute { index: usize },
    RollbackRoute { index: usize },
    Finish { result: Result<(), String> },
}

#[verifier::ext_equal]
pub enum ApplyActionView {
    MakeDirectory { path: Seq<char> },
    Backup { source: Seq<char>, destination: Seq<char> },
    SaveJournal,
    ArmLease,
    Change { action: FileActionView },
    Restore { action: FileActionView },
    ApplyRoute { index: usize },
    RollbackRoute { index: usize },
    Finish { failure: Option<Seq<char>> },
}

impl View for ApplyAction {
    type V = ApplyActionView;

    open spec fn view(&self) -> ApplyActionView {
        match self {
            ApplyAction::MakeDirectory { path } => ApplyActionView::MakeDirectory { path: path@ },
            ApplyAction::Backup { source, destination } => ApplyActionView::Backup {
                source: source@,
                destination: destination@,
            },
            ApplyAction::SaveJournal => ApplyActionView::SaveJournal,
            ApplyAction::ArmLease => ApplyActionView::ArmLease,
            ApplyAction::Change { action } => ApplyActionView::Change { action: action@ },
            ApplyAction::Restore { action } => ApplyActionView::Restore { action: action@ },
            ApplyAction::ApplyRoute { index } => ApplyActionView::ApplyRoute { index: *index },
            ApplyAction::RollbackRoute { index } => ApplyActionView::RollbackRoute {
                index: *index,
            },
            ApplyAction::Finish { result } => ApplyActionView::Finish {
                failure: match result {
                    Ok(_) => None,
                    Err(e) => Some(e@),
                },
            },
        }
    }
}

/// What came of the last action of an apply.
pub enum Outcome {
    Begin,
    Done { result: Result<(), String> },
    /// What stood at a path that was backed up; nothing where there was nothing.
    BackedUp { found: Result<Option<FileKind>, String> },
}

/// What came of the last action of an apply, and when.
pub struct ApplyEvent {
    pub outcome: Outcome,
    pub at: Timestamp,
}

/// Whether an outcome is one that an apply waits for.
pub open spec fn run_awaits(phase: RunPhase, outcome: Outcome) -> bool {
    match phase {
        RunPhase::Start => outcome is Begin,
        RunPhase::Backup { .. } => outcome is BackedUp,
        RunPhase::Done => false,
        _ => outcome is Done,
    }
}

/// Whether every change has its backup.
pub open spec fn all_backed_up(t: TransactionView) -> bool {
    t.backups.len() == t.changes.len()
}

/// Whether none of the routes from a position on may be on the host.
pub open spec fn none_active(routes: Seq<RouteChangeView>, from: int) -> bool {
    forall|j: int| from <= j < routes.len() ==> !is_active(#[trigger] routes[j])
}

/// Whether the routes before a position are applied and those from another on are prepared.
pub open spec fn routes_stand(routes: Seq<RouteChangeView>, applied: int, prepared: int) -> bool {
    &&& forall|j: int|
        0 <= j < applied && j < routes.len() ==> (#[trigger] routes[j]).state
            == RouteChangeState::Applied
    &&& forall|j: int|
        prepared <= j < routes.len() ==> (#[trigger] routes[j]).state
            == RouteChangeState::Prepared
}

/// What holds at every point of an apply: the backups made so far are those of the first changes,
/// all of them safe; every backup, and the lease where one is needed, is there before the first
/// change; the changes that stand on the host are the first `applied`; and the states of the routes
/// tell which may be on the host.
pub open spec fn run_fits(run: RunView) -> bool {
    let t = run.transaction;
    let routes = t.route_changes;
    &&& run.applied <= t.changes.len()
    &&& t.changes.len() <= usize::MAX
    &&& routes.len() <= usize::MAX
    &&& t.backups.len() <= t.changes.len()
    &&& forall|i: int|
        0 <= i < t.backups.len() ==> (#[trigger] t.backups[i]).path == t.changes[i].path
            && is_safe_relative(t.changes[i].path)
    &&& match run.phase {
        RunPhase::Start => t.backups.len() == 0 && run.applied == 0 && routes_stand(routes, 0, 0),
        RunPhase::BackupRoot => t.backups.len() == 0 && run.applied == 0 && routes_stand(
            routes,
            0,
            0,
        ),
        RunPhase::Backup { index } => index < t.changes.len() && t.backups.len() == index
            && run.applied == 0 && is_safe_relative(t.changes[index as int].path) && routes_stand(
            routes,
            0,
            0,
        ),
        RunPhase::Journal => all_backed_up(t) && run.applied == 0 && routes_stand(routes, 0, 0),
        RunPhase::Lease => all_backed_up(t) && run.applied == 0 && routes_stand(routes, 0, 0),
        RunPhase::Change { index } => all_backed_up(t) && index < t.changes.len() && run.applied
            == index && routes_stand(routes, 0, 0),
        RunPhase::RouteMark { index } => all_backed_up(t) && run.applied == t.changes.len() && index
            < routes.len() && routes_stand(routes, index as int, index + 1)
            && routes[index as int].state == RouteChangeState::Applying,
        RunPhase::Route { index } => all_backed_up(t) && run.applied == t.changes.len() && index
            < routes.len() && routes_stand(routes, index as int, index + 1)
            && routes[index as int].state == RouteChangeState::Applying,
        RunPhase::RouteMarked { index } => all_backed_up(t) && run.applied == t.changes.len()
            && index < routes.len() && routes_stand(routes, index + 1, index + 1),
        RunPhase::UndoRoute { index } => all_backed_up(t) && index < routes.len() && is_active(
            routes[index as int],
        ) && none_active(routes, index + 1) && run.route_failure is None,
        RunPhase::UndoRouteMark { index } => all_backed_up(t) && index < routes.len()
            && none_active(routes, index as int) && run.route_failure is None,
        RunPhase::UndoFiles { after_route } => all_backed_up(t) && run.applied > 0 && ((after_route
            && run.route_failure is Some) || none_active(routes, 0)),
        RunPhase::UndoJournal { after_route } => run.applied == 0 && none_active(routes, 0)
            && t.rolled_back_at is Some,
        RunPhase::Done => true,
    }
    &&& (run.phase is Start || run.phase is BackupRoot || run.phase is Backup || run.phase
        is Journal || run.phase is Lease || run.phase is Change || run.phase is RouteMark
        || run.phase is Route || run.phase is RouteMarked) ==> run.route_failure is None
    &&& (run.phase is Change || run.phase is RouteMark || run.phase is Route || run.phase
        is RouteMarked) ==> needs_lease(run) ==> run.armed
}

pub open spec fn ended(run: RunView, failure: Option<Seq<char>>) -> (RunView, ApplyActionView) {
    (RunView { phase: RunPhase::Done, ..run }, ApplyActionView::Finish { failure })
}

/// The journal with a route in another state.
pub open spec fn with_route_state(
    t: TransactionView,
    index: int,
    state: RouteChangeState,
) -> TransactionView {
    TransactionView {
        route_changes: t.route_changes.update(
            index,
            RouteChangeView { state, ..t.route_changes[index] },
        ),
        ..t
    }
}

/// Whether a route may be on the host.
pub open spec fn is_active(route: RouteChangeView) -> bool {
    route.state == RouteChangeState::Applying || route.state == RouteChangeState::Applied
}

/// The last of the first `left` routes that may be on the host.
pub open spec fn last_active(routes: Seq<RouteChangeView>, left: int) -> Option<usize>
    decreases left,
{
    if left <= 0 {
        None
    } else if is_active(routes[left - 1]) {
        Some((left - 1) as usize)
    } else {
        last_active(routes, left - 1)
    }
}

/// The result of a rollback in words.
pub open spec fn result_text(failure: Option<Seq<char>>) -> Seq<char> {
    match failure {
        None => "ok"@,
        Some(e) => e,
    }
}

pub fn format_result(failure: &Option<String>) -> (r: String)
    ensures
        r@ == result_text(opt_text(*failure)),
{
    match failure {
        None => "ok".to_owned(),
        Some(e) => e.clone(),
    }
}

pub open spec fn incomplete_message(
    routes: Option<Seq<char>>,
    files: Option<Seq<char>>,
    failure: Seq<char>,
) -> Seq<char> {
    "route apply failed and automatic rollback was incomplete; route rollback: "@ + result_text(
        routes,
    ) + "; file rollback: "@ + result_text(files) + ": "@ + failure
}

/// An apply that turns to the backup of a change, or to the journal behind the last one.
pub open spec fn enter_backup(run: RunView, index: int) -> (RunView, ApplyActionView) {
    let t = run.transaction;
    if index >= t.changes.len() {
        (RunView { phase: RunPhase::Journal, ..run }, ApplyActionView::SaveJournal)
    } else {
        let path = t.changes[index].path;
        if !is_safe_relative(path) {
            ended(run, Some(unsafe_path_message(path)))
        } else {
            (
                RunView { phase: RunPhase::Backup { index: index as usize }, ..run },
                ApplyActionView::Backup {
                    source: joined(t.base_root, path),
                    destination: joined(run.backup_root, path),
                },
            )
        }
    }
}

/// The record of a backup.
pub open spec fn backup_of(path: Seq<char>, found: Option<FileKind>) -> BackupEntryView {
    BackupEntryView {
        path,
        existed: found is Some,
        kind: match found {
            Some(kind) => Some(kind.name()),
            None => None,
        },
    }
}

/// An apply that turns to a change, or to the routes behind the last one.
pub open spec fn enter_change(run: RunView, index: int, at: Timestamp) -> (
    RunView,
    ApplyActionView,
) {
    let t = run.transaction;
    if index >= t.changes.len() {
        enter_route(run, 0)
    } else {
        let change = t.changes[index];
        if !is_safe_relative(change.path) {
            enter_undo_files(
                RunView { failure: unsafe_path_message(change.path), ..run },
                false,
                at,
            )
        } else {
            (
                RunView { phase: RunPhase::Change { index: index as usize }, ..run },
                ApplyActionView::Change { action: change_action(t.base_root, run.upper, change) },
            )
        }
    }
}

/// An apply that turns to a route, or ends behind the last one.
pub open spec fn enter_route(run: RunView, index: int) -> (RunView, ApplyActionView) {
    if index >= run.transaction.route_changes.len() {
        ended(run, None)
    } else {
        (
            RunView {
                transaction: with_route_state(run.transaction, index, RouteChangeState::Applying),
                phase: RunPhase::RouteMark { index: index as usize },
                ..run
            },
            ApplyActionView::SaveJournal,
        )
    }
}

/// An apply that takes back the last of the first `left` routes that may be on the host, or turns
/// to the files.
pub open spec fn enter_undo_route(run: RunView, left: int, at: Timestamp) -> (
    RunView,
    ApplyActionView,
) {
    match last_active(run.transaction.route_changes, left) {
        Some(index) => (
            RunView { phase: RunPhase::UndoRoute { index }, ..run },
            ApplyActionView::RollbackRoute { index },
        ),
        None => enter_undo_files(run, true, at),
    }
}

/// An apply that takes back the last change that stands on the host, or ends behind the first.
pub open spec fn enter_undo_files(run: RunView, after_route: bool, at: Timestamp) -> (
    RunView,
    ApplyActionView,
) {
    let t = run.transaction;
    if run.applied == 0 {
        if after_route && run.route_failure is Some {
            ended(run, Some(incomplete_message(run.route_failure, None, run.failure)))
        } else {
            (
                RunView {
                    transaction: TransactionView { rolled_back_at: Some(at), ..t },
                    phase: RunPhase::UndoJournal { after_route },
                    ..run
                },
                ApplyActionView::SaveJournal,
            )
        }
    } else {
        let path = t.changes[run.applied - 1].path;
        match restore_action(t.base_root, run.backup_root, t.backups, path) {
            Ok(action) => (
                RunView { phase: RunPhase::UndoFiles { after_route }, ..run },
                ApplyActionView::Restore { action },
            ),
            Err(e) => undo_failed(run, after_route, e),
        }
    }
}

/// An apply whose changes could not be taken back.
pub open spec fn undo_failed(run: RunView, after_route: bool, e: Seq<char>) -> (
    RunView,
    ApplyActionView,
) {
    ended(
        run,
        Some(
            if after_route {
                incomplete_message(run.route_failure, Some(e), run.failure)
            } else {
                "apply failed and automatic rollback also failed: "@ + e + ": "@ + run.failure
            },
        ),
    )
}

/// Whether an apply has to be watched by a lease: it can be taken back by itself and changes the
/// real host, by its files or by a route.
pub open spec fn needs_lease(run: RunView) -> bool {
    run.auto_rollback && (same_parts(run.transaction.base_root, "/"@)
        || run.transaction.route_changes.len() > 0)
}

/// The next step of an apply.
pub open spec fn run_step(run: RunView, outcome: Outcome, at: Timestamp) -> (
    RunView,
    ApplyActionView,
) {
    match (run.phase, outcome) {
        (RunPhase::Start, _) => (
            RunView { phase: RunPhase::BackupRoot, ..run },
            ApplyActionView::MakeDirectory { path: run.backup_root },
        ),
        (RunPhase::BackupRoot, Outcome::Done { result }) => match result {
            Err(e) => ended(run, Some(e@)),
            Ok(_) => enter_backup(run, 0),
        },
        (RunPhase::Backup { index }, Outcome::BackedUp { found }) => match found {
            Err(e) => ended(run, Some(e@)),
            Ok(kind) => {
                let t = run.transaction;
                let backups = t.backups.push(backup_of(t.changes[index as int].path, kind));
                enter_backup(
                    RunView { transaction: TransactionView { backups, ..t }, ..run },
                    index + 1,
                )
            },
        },
        (RunPhase::Journal, Outcome::Done { result }) => match result {
            Err(e) => ended(run, Some(e@)),
            Ok(_) => if needs_lease(run) {
                (RunView { phase: RunPhase::Lease, ..run }, ApplyActionView::ArmLease)
            } else {
                enter_change(run, 0, at)
            },
        },
        (RunPhase::Lease, Outcome::Done { result }) => match result {
            Err(e) => ended(run, Some(e@)),
            Ok(_) => enter_change(RunView { armed: true, ..run }, 0, at),
        },
        (RunPhase::Change { index }, Outcome::Done { result }) => match result {
            Err(e) => enter_undo_files(RunView { failure: e@, ..run }, false, at),
            Ok(_) => enter_change(
                RunView { applied: (index + 1) as usize, ..run },
                index + 1,
                at,
            ),
        },
        (RunPhase::RouteMark { index }, Outcome::Done { result }) => match result {
            Err(e) => ended(run, Some(e@)),
            Ok(_) => (
                RunView { phase: RunPhase::Route { index }, ..run },
                ApplyActionView::ApplyRoute { index },
            ),
        },
        (RunPhase::Route { index }, Outcome::Done { result }) => match result {
            Err(e) => enter_undo_route(
                RunView { failure: e@, ..run },
                run.transaction.route_changes.len() as int,
                at,
            ),
            Ok(_) => (
                RunView {
                    transaction: with_route_state(
                        run.transaction,
                        index as int,
                        RouteChangeState::Applied,
                    ),
                    phase: RunPhase::RouteMarked { index },
                    ..run
                },
                ApplyActionView::SaveJournal,
            ),
        },
        (RunPhase::RouteMarked { index }, Outcome::Done { result }) => match result {
            Err(e) => ended(run, Some(e@)),
            Ok(_) => enter_route(run, index + 1),
        },
        (RunPhase::UndoRoute { index }, Outcome::Done { result }) => match result {
            Err(e) => enter_undo_files(RunView { route_failure: Some(e@), ..run }, true, at),
            Ok(_) => (
                RunView {
                    transaction: with_route_state(
                        run.transaction,
                        index as int,
                        RouteChangeState::RolledBack,
                    ),
                    phase: RunPhase::UndoRouteMark { index },
                    ..run
                },
                ApplyActionView::SaveJournal,
            ),
        },
        (RunPhase::UndoRouteMark { index }, Outcome::Done { result }) => match result {
            Err(e) => enter_undo_files(RunView { route_failure: Some(e@), ..run }, true, at),
            Ok(_) => enter_undo_route(run, index as int, at),
        },
        (RunPhase::UndoFiles { after_route }, Outcome::Done { result }) => match result {
            Err(e) => undo_failed(run, after_route, e@),
            Ok(_) => enter_undo_files(
                RunView { applied: (run.applied - 1) as usize, ..run },
                after_route,
                at,
            ),
        },
        (RunPhase::UndoJournal { after_route }, Outcome::Done { result }) => match result {
            Err(e) => ended(run, Some(e@)),
            Ok(_) => ended(
                run,
                Some(
                    if after_route {
                        "route apply failed; completed changes were rolled back: "@ + run.failure
                    } else {
                        "apply failed; completed changes were rolled back: "@ + run.failure
                    },
                ),
            ),
        },
        _ => ended(run, None),
    }
}

impl ApplyRun {
    fn end(&mut self, result: Result<(), String>) -> (r: ApplyAction)
        ensures
            (final(self)@, r@) == ended(
                old(self)@,
                match result {
                    Ok(_) => None,
                    Err(e) => Some(e@),
                },
            ),
    {
        self.phase = RunPhase::Done;
        ApplyAction::Finish { result }
    }

    fn save_at(&mut self, phase: RunPhase) -> (r: ApplyAction)
        ensures
            final(self)@ == (RunView { phase, ..old(self)@ }),
            r@ == ApplyActionView::SaveJournal,
    {
        self.phase = phase;
        ApplyAction::SaveJournal
    }

    fn mark_route(&mut self, index: usize, state: RouteChangeState)
        requires
            index < old(self)@.transaction.route_changes.len(),
        ensures
            final(self)@ == (RunView {
                transaction: with_route_state(old(self)@.transaction, index as int, state),
                ..old(self)@
            }),
    {
        let ghost before = views(self.transaction.route_changes@);
        self.transaction.route_changes[index].state = state;
        assert(views(self.transaction.route_changes@) =~= before.update(
            index as int,
            RouteChangeView { state, ..before[index as int] },
        ));
    }

    fn to_backup(&mut self, index: usize) -> (r: ApplyAction)
        ensures
            (final(self)@, r@) == enter_backup(old(self)@, index as int),
    {
        if index >= self.transaction.changes.len() {
            return self.save_at(RunPhase::Journal);
        }
        let path = self.transaction.changes[index].path.copy();
        assert(path@ == self@.transaction.changes[index as int].path);
        match validate_relative_path(&path) {
            Err(e) => self.end(Err(e)),
            Ok(()) => {
                self.phase = RunPhase::Backup { index };
                ApplyAction::Backup {
                    source: self.transaction.base_root.join(path.text.as_str()),
                    destination: self.backup_root.join(path.text.as_str()),
                }
            },
        }
    }

    fn to_change(&mut self, index: usize, at: Timestamp) -> (r: ApplyAction)
        requires
            old(self).applied <= old(self).transaction.changes.len(),
        ensures
            (final(self)@, r@) == enter_change(old(self)@, index as int, at),
    {
        if index >= self.transaction.changes.len() {
            return self.to_route(0);
        }
        let action = apply_change(
            &self.transaction.base_root,
            &self.upper,
            &self.transaction.changes[index],
        );
        assert(self@.transaction.changes[index as int] == self.transaction.changes@[index as int]@);
        match action {
            Err(e) => {
                self.failure = e;
                self.to_undo_files(false, at)
            },
            Ok(action) => {
                self.phase = RunPhase::Change { index };
                ApplyAction::Change { action }
            },
        }
    }

    fn to_route(&mut self, index: usize) -> (r: ApplyAction)
        ensures
            (final(self)@, r@) == enter_route(old(self)@, index as int),
    {
        if index >= self.transaction.route_changes.len() {
            return self.end(Ok(()));
        }
        self.mark_route(index, RouteChangeState::Applying);
        self.save_at(RunPhase::RouteMark { index })
    }

    fn to_undo_route(&mut self, left: usize, at: Timestamp) -> (r: ApplyAction)
        requires
            left <= old(self).transaction.route_changes.len(),
            old(self).applied <= old(self).transaction.changes.len(),
        ensures
            (final(self)@, r@) == enter_undo_route(old(self)@, left as int, at),
    {
        let mut i: usize = left;
        let ghost routes = views(self.transaction.route_changes@);
        while i > 0
            invariant
                i <= left <= self.transaction.route_changes.len(),
                routes == views(self.transaction.route_changes@),
                *self == *old(self),
                last_active(routes, left as int) == last_active(routes, i as int),
            decreases i,
        {
            let state = self.transaction.route_changes[i - 1].state;
            assert(routes[i - 1].state == state);
            if state == RouteChangeState::Applying || state == RouteChangeState::Applied {
                let index = i - 1;
                self.phase = RunPhase::UndoRoute { index };
                return ApplyAction::RollbackRoute { index };
            }
            i -= 1;
        }
        self.to_undo_files(true, at)
    }

    fn to_undo_files(&mut self, after_route: bool, at: Timestamp) -> (r: ApplyAction)
        requires
            old(self).applied <= old(self).transaction.changes.len(),
        ensures
            (final(self)@, r@) == enter_undo_files(old(self)@, after_route, at),
    {
        if self.applied == 0 {
            if after_route && self.route_failure.is_some() {
                let message = self.incomplete(&None);
                return self.end(Err(message));
            }
            self.transaction.rolled_back_at = Some(at);
            return self.save_at(RunPhase::UndoJournal { after_route });
        }
        let path = self.transaction.changes[self.applied - 1].path.copy();
        assert(path@ == self@.transaction.changes[self.applied - 1].path);
        let action = restore_entry(
            &self.transaction.base_root,
            &self.backup_root,
            &self.transaction.backups,
            &path,
        );
        match action {
            Ok(action) => {
                self.phase = RunPhase::UndoFiles { after_route };
                ApplyAction::Restore { action }
            },
            Err(e) => self.fail_undo(after_route, e),
        }
    }

    fn incomplete(&self, files: &Option<String>) -> (r: String)
        ensures
            r@ == incomplete_message(self@.route_failure, opt_text(*files), self@.failure),
    {
        "route apply failed and automatic rollback was incomplete; route rollback: ".to_owned().concat(
            format_result(&self.route_failure).as_str(),
        ).concat("; file rollback: ").concat(format_result(files).as_str()).concat(": ").concat(
            self.failure.as_str(),
        )
    }

    fn fail_undo(&mut self, after_route: bool, e: String) -> (r: ApplyAction)
        ensures
            (final(self)@, r@) == undo_failed(old(self)@, after_route, e@),
    {
        let message = if after_route {
            self.incomplete(&Some(e))
        } else {
            "apply failed and automatic rollback also failed: ".to_owned().concat(
                e.as_str(),
            ).concat(": ").concat(self.failure.as_str())
        };
        self.end(Err(message))
    }

    /// Takes an apply one step further.
    pub fn next(&mut self, event: &ApplyEvent) -> (r: ApplyAction)
        requires
            run_fits(old(self)@),
            run_awaits(old(self).phase, event.outcome),
        ensures
            (final(self)@, r@) == run_step(old(self)@, event.outcome, event.at),
            run_fits(final(self)@),
    {
        let at = event.at;
        proof {
            lemma_run_fits(self@, event.outcome, at);
        }
        match (self.phase, &event.outcome) {
            (RunPhase::Start, _) => {
                self.phase = RunPhase::BackupRoot;
                ApplyAction::MakeDirectory { path: self.backup_root.copy() }
            },
            (RunPhase::BackupRoot, Outcome::Done { result }) => match result {
                Err(e) => self.end(Err(e.clone())),
                Ok(_) => self.to_backup(0),
            },
            (RunPhase::Backup { index }, Outcome::BackedUp { found }) => match found {
                Err(e) => self.end(Err(e.clone())),
                Ok(kind) => {
                    let ghost before = views(self.transaction.backups@);
                    let entry = BackupEntry {
                        path: self.transaction.changes[index].path.copy(),
                        existed: kind.is_some(),
                        kind: match kind {
                            Some(k) => Some(k.label().to_owned()),
                            None => None,
                        },
                    };
                    assert(self@.transaction.changes[index as int].path == entry.path@);
                    self.transaction.backups.push(entry);
                    assert(views(self.transaction.backups@) =~= before.push(entry@));
                    self.to_backup(index + 1)
                },
            },
            (RunPhase::Journal, Outcome::Done { result }) => match result {
                Err(e) => self.end(Err(e.clone())),
                Ok(_) => if self.auto_rollback && (self.transaction.base_root.same(
                    &FsPath::new("/"),
                ) || self.transaction.route_changes.len() > 0) {
                    self.phase = RunPhase::Lease;
                    ApplyAction::ArmLease
                } else {
                    self.to_change(0, at)
                },
            },
            (RunPhase::Lease, Outcome::Done { result }) => match result {
                Err(e) => self.end(Err(e.clone())),
                Ok(_) => {
                    self.armed = true;
                    self.to_change(0, at)
                },
            },
            (RunPhase::Change { index }, Outcome::Done { result }) => match result {
                Err(e) => {
                    self.failure = e.clone();
                    self.to_undo_files(false, at)
                },
                Ok(_) => {
                    self.applied = index + 1;
                    self.to_change(index + 1, at)
                },
            },
            (RunPhase::RouteMark { index }, Outcome::Done { result }) => match result {
                Err(e) => self.end(Err(e.clone())),
                Ok(_) => {
                    self.phase = RunPhase::Route { index };
                    ApplyAction::ApplyRoute { index }
                },
            },
            (RunPhase::Route { index }, Outcome::Done { result }) => match result {
                Err(e) => {
                    self.failure = e.clone();
                    let all = self.transaction.route_changes.len();
                    self.to_undo_route(all, at)
                },
                Ok(_) => {
                    self.mark_route(index, RouteChangeState::Applied);
                    self.save_at(RunPhase::RouteMarked { index })
                },
            },
            (RunPhase::RouteMarked { index }, Outcome::Done { result }) => match result {
                Err(e) => self.end(Err(e.clone())),
                Ok(_) => self.to_route(index + 1),
            },
            (RunPhase::UndoRoute { index }, Outcome::Done { result }) => match result {
                Err(e) => {
                    self.route_failure = Some(e.clone());
                    self.to_undo_files(true, at)
                },
                Ok(_) => {
                    self.mark_route(index, RouteChangeState::RolledBack);
                    self.save_at(RunPhase::UndoRouteMark { index })
                },
            },
            (RunPhase::UndoRouteMark { index }, Outcome::Done { result }) => match result {
                Err(e) => {
                    self.route_failure = Some(e.clone());
                    self.to_undo_files(true, at)
                },
                Ok(_) => self.to_undo_route(index, at),
            },
            (RunPhase::UndoFiles { after_route }, Outcome::Done { result }) => match result {
                Err(e) => self.fail_undo(after_route, e.clone()),
                Ok(_) => {
                    self.applied = self.applied - 1;
                    self.to_undo_files(after_route, at)
                },
            },
            (RunPhase::UndoJournal { after_route }, Outcome::Done { result }) => match result {
                Err(e) => self.end(Err(e.clone())),
                Ok(_) => {
                    let message = if after_route {
                        "route apply failed; completed changes were rolled back: ".to_owned().concat(
                            self.failure.as_str(),
                        )
                    } else {
                        "apply failed; completed changes were rolled back: ".to_owned().concat(
                            self.failure.as_str(),
                        )
                    };
                    self.end(Err(message))
                },
            },
            _ => self.end(Ok(())),
        }
    }
}

proof fn lemma_last_active(routes: Seq<RouteChangeView>, left: int)
    requires
        0 <= left <= routes.len() <= usize::MAX,
        none_active(routes, left),
    ensures
        match last_active(routes, left) {
            Some(index) => index < left && is_active(routes[index as int]) && none_active(
                routes,
                index + 1,
            ),
            None => none_active(routes, 0),
        },
    decreases left,
{
    if left > 0 && !is_active(routes[left - 1]) {
        lemma_last_active(routes, left - 1);
    }
}

proof fn lemma_backup_found(t: TransactionView, i: int)
    requires
        0 <= i < t.backups.len(),
        t.backups[i].path == t.changes[i].path,
    ensures
        find_backup(t.backups, t.changes[i].path) is Some,
{
    lemma_finds(t.backups, t.changes[i].path, i);
}

proof fn lemma_finds(backups: Seq<BackupEntryView>, path: Seq<char>, i: int)
    requires
        0 <= i < backups.len(),
        same_parts(backups[i].path, path),
    ensures
        find_backup(backups, path) is Some,
    decreases backups.len(),
{
    if !same_parts(backups[0].path, path) {
        assert(backups.drop_first()[i - 1] == backups[i]);
        lemma_finds(backups.drop_first(), path, i - 1);
    }
}

proof fn lemma_undo_files_fits(run: RunView, after_route: bool, at: Timestamp)
    requires
        run_fits(RunView { phase: RunPhase::Done, ..run }),
        all_backed_up(run.transaction),
        (after_route && run.route_failure is Some) || none_active(
            run.transaction.route_changes,
            0,
        ),
    ensures
        run_fits(enter_undo_files(run, after_route, at).0),
        run.applied > 0 ==> enter_undo_files(run, after_route, at).1 is Restore,
{
    if run.applied > 0 {
        let t = run.transaction;
        assert(t.backups[run.applied - 1].path == t.changes[run.applied - 1].path);
        lemma_backup_found(t, run.applied - 1);
    }
}

proof fn lemma_undo_route_fits(run: RunView, left: int, at: Timestamp)
    requires
        run_fits(RunView { phase: RunPhase::Done, ..run }),
        all_backed_up(run.transaction),
        run.route_failure is None,
        0 <= left <= run.transaction.route_changes.len(),
        none_active(run.transaction.route_changes, left),
    ensures
        run_fits(enter_undo_route(run, left, at).0),
{
    lemma_last_active(run.transaction.route_changes, left);
    if last_active(run.transaction.route_changes, left) is None {
        lemma_undo_files_fits(run, true, at);
    }
}

/// What holds at every point of an apply holds after its next step.
pub proof fn lemma_run_fits(run: RunView, outcome: Outcome, at: Timestamp)
    requires
        run_fits(run),
        run_awaits(run.phase, outcome),
    ensures
        run_fits(run_step(run, outcome, at).0),
{
    let t = run.transaction;
    let routes = t.route_changes;
    match (run.phase, outcome) {
        (RunPhase::Backup { index }, Outcome::BackedUp { found: Ok(kind) }) => {
            let backups = t.backups.push(backup_of(t.changes[index as int].path, kind));
            assert forall|i: int| 0 <= i < backups.len() implies (#[trigger] backups[i]).path
                == t.changes[i].path && is_safe_relative(t.changes[i].path) by {
                if i < t.backups.len() {
                    assert(t.backups[i].path == t.changes[i].path);
                }
            }
        },
        (RunPhase::Change { index }, Outcome::Done { result: Err(e) }) => {
            lemma_undo_files_fits(RunView { failure: e@, ..run }, false, at);
        },
        (RunPhase::Change { index }, Outcome::Done { result: Ok(_) }) => {
            lemma_change_fits(RunView { applied: (index + 1) as usize, ..run }, index + 1, at);
        },
        (RunPhase::Journal, Outcome::Done { result: Ok(_) }) => {
            if !needs_lease(run) {
                lemma_change_fits(run, 0, at);
            }
        },
        (RunPhase::Lease, Outcome::Done { result: Ok(_) }) => {
            lemma_change_fits(RunView { armed: true, ..run }, 0, at);
        },
        (RunPhase::Route { index }, Outcome::Done { result: Err(e) }) => {
            lemma_undo_route_fits(RunView { failure: e@, ..run }, routes.len() as int, at);
        },
        (RunPhase::UndoRoute { index }, Outcome::Done { result: Err(e) }) => {
            lemma_undo_files_fits(RunView { route_failure: Some(e@), ..run }, true, at);
        },
        (RunPhase::UndoRouteMark { index }, Outcome::Done { result: Err(e) }) => {
            lemma_undo_files_fits(RunView { route_failure: Some(e@), ..run }, true, at);
        },
        (RunPhase::UndoRouteMark { index }, Outcome::Done { result: Ok(_) }) => {
            lemma_undo_route_fits(run, index as int, at);
        },
        (RunPhase::UndoFiles { after_route }, Outcome::Done { result: Ok(_) }) => {
            lemma_undo_files_fits(
                RunView { applied: (run.applied - 1) as usize, ..run },
                after_route,
                at,
            );
        },
        _ => {},
    }
}

proof fn lemma_change_fits(run: RunView, index: int, at: Timestamp)
    requires
        run_fits(RunView { phase: RunPhase::Done, ..run }),
        all_backed_up(run.transaction),
        0 <= index <= run.transaction.changes.len(),
        run.applied == index,
        routes_stand(run.transaction.route_changes, 0, 0),
        run.route_failure is None,
        needs_lease(run) ==> run.armed,
    ensures
        run_fits(enter_change(run, index, at).0),
{
    let t = run.transaction;
    if index < t.changes.len() {
        assert(t.backups[index].path == t.changes[index].path);
    }
}

/// The apply that a plan starts with.
pub open spec fn fresh_run(
    root: Seq<char>,
    environment: EnvironmentView,
    plan: ApplyPlanView,
    key: Seq<char>,
    now: Timestamp,
) -> RunView {
    RunView {
        transaction: fresh_transaction(key, environment, plan, now),
        upper: upper_path(root, environment.name),
        backup_root: backup_path(root, key),
        auto_rollback: environment.policy.auto_rollback,
        armed: false,
        phase: RunPhase::Start,
        applied: 0,
        failure: Seq::empty(),
        route_failure: None,
    }
}

/// What starting an apply comes to.
pub open spec fn started(
    root: Seq<char>,
    environment: EnvironmentView,
    plan: ApplyPlanView,
    now: Timestamp,
    id: Seq<u8>,
) -> Result<RunView, Seq<char>> {
    if !plan.allowed {
        Err("apply plan is blocked"@)
    } else {
        match compact_utc(now.seconds, now.nanoseconds) {
            None => Err("the current time cannot be written"@),
            Some(stamp) => Ok(
                fresh_run(root, environment, plan, transaction_key(stamp, id), now),
            ),
        }
    }
}

/// Starts the apply of a plan at a given time, under an identifier made from the given bytes.
pub fn apply_plan_at(
    store: &Store,
    environment: &Environment,
    plan: &ApplyPlan,
    now: Timestamp,
    id: &EnvironmentId,
) -> (r: Result<ApplyRun, String>)
    ensures
        match r {
            Ok(run) => started(store.root_text(), environment@, plan@, now, id@) == Ok::<
                RunView,
                Seq<char>,
            >(run@) && run_fits(run@),
            Err(e) => started(store.root_text(), environment@, plan@, now, id@) == Err::<
                RunView,
                Seq<char>,
            >(e@),
        },
        plan@.allowed && is_ordinary(now) ==> (r matches Ok(run) && is_identifier(
            run@.transaction.id,
        )),
{
    if !plan.allowed {
        return Err("apply plan is blocked".to_owned());
    }
    let stamp = match compact_text(&now) {
        Some(stamp) => stamp,
        None => return Err("the current time cannot be written".to_owned()),
    };
    let key = "apply-".to_owned().concat(stamp.as_str()).concat("-").concat(
        short_text(id, 8).as_str(),
    );
    proof {
        if is_ordinary(now) {
            law_transaction_ids_are_safe(stamp@, id@);
        }
    }
    let upper = store.upper_dir(environment.name.as_str());
    let backup_root = store.backup_dir(key.as_str());
    let transaction = Transaction {
        version: STATE_VERSION,
        id: key.clone(),
        environment: environment.name.clone(),
        created_at: now,
        rolled_back_at: None,
        base_root: environment.base_root.copy(),
        changes: duplicate_all(&plan.changes),
        backups: Vec::new(),
        route_changes: prepared_routes(&plan.route_candidates),
    };
    assert(transaction@.backups =~= Seq::empty());
    let run = ApplyRun {
        transaction,
        upper,
        backup_root,
        auto_rollback: environment.policy.auto_rollback,
        armed: false,
        phase: RunPhase::Start,
        applied: 0,
        failure: String::new(),
        route_failure: None,
    };
    assert(run@ == fresh_run(store.root_text(), environment@, plan@, key@, now));
    assert(run.transaction.changes@.len() == run.transaction.changes.len());
    assert(run.transaction.route_changes@.len() == run.transaction.route_changes.len());
    Ok(run)
}

/// Starts the apply of a plan now, under a random identifier.
pub fn apply_plan(
    store: &Store,
    environment: &Environment,
    plan: &ApplyPlan,
) -> (r: Result<ApplyRun, String>)
    ensures
        !plan@.allowed ==> (r matches Err(e) && e@ == "apply plan is blocked"@),
        exists|now: Timestamp, id: Seq<u8>|
            match r {
                Ok(run) => #[trigger] started(store.root_text(), environment@, plan@, now, id)
                    == Ok::<RunView, Seq<char>>(run@) && run_fits(run@),
                Err(e) => started(store.root_text(), environment@, plan@, now, id) == Err::<
                    RunView,
                    Seq<char>,
                >(e@),
            },
{
    let now = utc_now();
    let id = random_id();
    apply_plan_at(store, environment, plan, now, &id)
}

/// No change and no route reaches the host before every path that the plan changes has its backup
/// in a saved journal and, where the apply has to be watched by a lease, before that is armed. A
/// route under automatic rollback always has to be, wherever the files of the apply go. The lease
/// counts as armed only once arming it succeeded.
pub proof fn law_nothing_changes_before_the_journal(run: RunView, outcome: Outcome, at: Timestamp)
    requires
        run_fits(run),
        run_awaits(run.phase, outcome),
        run_step(run, outcome, at).1 is Change || run_step(run, outcome, at).1 is ApplyRoute,
    ensures
        all_backed_up(run.transaction),
        outcome matches Outcome::Done { result: Ok(_) },
        needs_lease(run) ==> run_step(run, outcome, at).0.armed,
        run_step(run, outcome, at).1 is ApplyRoute && run.auto_rollback ==> run.armed,
        run_step(run, outcome, at).0.armed ==> run.armed || run.phase is Lease,
        run.phase is Journal || run.phase is Lease || run.phase is Change || run.phase is RouteMark,
{
    if run.phase is BackupRoot {
        assert(!(run_step(run, outcome, at).1 is Change));
    }
}

/// An apply ends well only when every change stands on the host and every route is applied.
pub proof fn law_success_means_everything_applied(run: RunView, outcome: Outcome, at: Timestamp)
    requires
        run_fits(run),
        run_awaits(run.phase, outcome),
        run_step(run, outcome, at).1 == (ApplyActionView::Finish { failure: None }),
    ensures
        run_step(run, outcome, at).0.applied == run.transaction.changes.len(),
        forall|j: int|
            0 <= j < run.transaction.route_changes.len() ==> (#[trigger] run_step(
                run,
                outcome,
                at,
            ).0.transaction.route_changes[j]).state == RouteChangeState::Applied,
{
}

/// An apply that reports its changes as rolled back has left none of them on the host, and no
/// route.
pub proof fn law_rolled_back_means_nothing_left(run: RunView, outcome: Outcome, at: Timestamp)
    requires
        run_fits(run),
        run_awaits(run.phase, outcome),
        run.phase is UndoJournal,
    ensures
        run_step(run, outcome, at).0.applied == 0,
        none_active(run_step(run, outcome, at).0.transaction.route_changes, 0),
        run_step(run, outcome, at).0.transaction.rolled_back_at is Some,
{
}

/// The count of changes on the host goes up by one with each change that succeeds, down by one
/// with each that is taken back, and otherwise stays; what is taken back is always the last
/// change that stands.
pub proof fn law_changes_are_taken_back_in_reverse(run: RunView, outcome: Outcome, at: Timestamp)
    requires
        run_fits(run),
        run_awaits(run.phase, outcome),
    ensures
        run_step(run, outcome, at).0.applied == run.applied + (if outcome matches Outcome::Done {
            result: Ok(_),
        } && run.phase is Change {
            1int
        } else if outcome matches Outcome::Done { result: Ok(_) } && run.phase is UndoFiles {
            -1int
        } else {
            0int
        }),
        run_step(run, outcome, at).1 matches ApplyActionView::Restore { action } ==> ({
            let after = run_step(run, outcome, at).0;
            let t = after.transaction;
            after.applied > 0 && restore_action(
                t.base_root,
                after.backup_root,
                t.backups,
                t.changes[after.applied - 1].path,
            ) == Ok::<FileActionView, Seq<char>>(action)
        }),
        run_step(run, outcome, at).1 matches ApplyActionView::Change { action } ==> ({
            let after = run_step(run, outcome, at).0;
            let t = after.transaction;
            after.applied < t.changes.len() && action == change_action(
                t.base_root,
                after.upper,
                t.changes[after.applied as int],
            )
        }),
{
    match (run.phase, outcome) {
        (RunPhase::Change { index }, Outcome::Done { result: Ok(_) }) => {
            let next = RunView { applied: (index + 1) as usize, ..run };
            if index + 1 < run.transaction.changes.len() {
                assert(run.transaction.backups[index + 1].path == run.transaction.changes[index
                    + 1].path);
            }
        },
        (RunPhase::Journal, Outcome::Done { result: Ok(_) }) => {
            if run.transaction.changes.len() > 0 {
                assert(run.transaction.backups[0].path == run.transaction.changes[0].path);
            }
        },
        (RunPhase::Lease, Outcome::Done { result: Ok(_) }) => {
            if run.transaction.changes.len() > 0 {
                assert(run.transaction.backups[0].path == run.transaction.changes[0].path);
            }
        },
        _ => {},
    }
}

/// Taking back a change never fails for want of a backup: while changes are taken back, there is
/// always something to restore the last of them from.
pub proof fn law_every_change_can_be_taken_back(run: RunView, index: int)
    requires
        run_fits(run),
        all_backed_up(run.transaction),
        0 <= index < run.transaction.changes.len(),
    ensures
        restore_action(
            run.transaction.base_root,
            run.backup_root,
            run.transaction.backups,
            run.transaction.changes[index].path,
        ) is Ok,
{
    let t = run.transaction;
    assert(t.backups[index].path == t.changes[index].path);
    lemma_backup_found(t, index);
}

/// A transaction can be looked up by the identifier that it is given.
pub proof fn law_transaction_ids_are_safe(stamp: Seq<char>, id: Seq<u8>)
    requires
        id.len() == 16,
        is_compact(stamp),
    ensures
        is_identifier(transaction_key(stamp, id)),
{
    reveal_strlit("apply-");
    reveal_strlit("-");
    crate::identity::lemma_hex_digits(id);
    let key = transaction_key(stamp, id);
    let digits = short_id(id, 8);
    assert(key.len() == 6 + stamp.len() + 1 + 8);
    assert forall|i: int| 0 <= i < key.len() implies is_identifier_char(#[trigger] key[i]) by {
        if i < 6 {
            assert(key[i] == "apply-"@[i]);
        } else if i < 6 + stamp.len() {
            assert(key[i] == stamp[i - 6]);
        } else if i == 6 + stamp.len() {
            assert(key[i] == '-');
        } else {
            let k = i - 7 - stamp.len();
            assert(key[i] == digits[k]);
            assert(digits[k] == crate::identity::hex_text(id)[k]);
        }
    }
}

/// Where a rollback stands: what it waits for.
#[derive(Debug, Clone, Copy, PartialEq, Eq, Structural)]
pub enum UndoPhase {
    Start,
    Route { index: usize },
    RouteMark { index: usize },
    File,
    Journal,
    Done,
}

/// A rollback of a transaction that is under way.
pub struct RollbackRun {
    /// The journal. It is what `SaveJournal` saves.
    pub transaction: Transaction,
    pub backup_root: FsPath,
    pub phase: UndoPhase,
    /// How many changes are still to be taken back.
    pub left: usize,
}

#[verifier::ext_equal]
pub struct UndoView {
    pub transaction: TransactionView,
    pub backup_root: Seq<char>,
    pub phase: UndoPhase,
    pub left: usize,
}

impl View for RollbackRun {
    type V = UndoView;

    open spec fn view(&self) -> UndoView {
        UndoView {
            transaction: self.transaction@,
            backup_root: self.backup_root@,
            phase: self.phase,
            left: self.left,
        }
    }
}

pub open spec fn undo_awaits(phase: UndoPhase, outcome: Outcome) -> bool {
    match phase {
        UndoPhase::Start => outcome is Begin,
        UndoPhase::Done => false,
        _ => outcome is Done,
    }
}

/// What holds at every point of a rollback.
pub open spec fn undo_fits(run: UndoView) -> bool {
    let t = run.transaction;
    let routes = t.route_changes;
    &&& run.left <= t.changes.len() <= usize::MAX
    &&& routes.len() <= usize::MAX
    &&& match run.phase {
        UndoPhase::Start => run.left == t.changes.len(),
        UndoPhase::Route { index } => index < routes.len() && is_active(routes[index as int])
            && none_active(routes, index + 1) && run.left == t.changes.len(),
        UndoPhase::RouteMark { index } => index < routes.len() && none_active(
            routes,
            index as int,
        ) && run.left == t.changes.len(),
        UndoPhase::File => run.left > 0 && none_active(routes, 0),
        UndoPhase::Journal => run.left == 0 && none_active(routes, 0) && t.rolled_back_at is Some,
        UndoPhase::Done => true,
    }
}

pub open spec fn undo_ended(run: UndoView, failure: Option<Seq<char>>) -> (
    UndoView,
    ApplyActionView,
) {
    (UndoView { phase: UndoPhase::Done, ..run }, ApplyActionView::Finish { failure })
}

/// A rollback that turns to the last of the first `left` routes that may be on the host, or to
/// the files.
pub open spec fn undo_routes(run: UndoView, left: int, at: Timestamp) -> (
    UndoView,
    ApplyActionView,
) {
    match last_active(run.transaction.route_changes, left) {
        Some(index) => (
            UndoView { phase: UndoPhase::Route { index }, ..run },
            ApplyActionView::RollbackRoute { index },
        ),
        None => undo_files(run, at),
    }
}

/// A rollback that turns to the last change that is left, or to the journal.
pub open spec fn undo_files(run: UndoView, at: Timestamp) -> (UndoView, ApplyActionView) {
    let t = run.transaction;
    if run.left == 0 {
        (
            UndoView {
                transaction: TransactionView { rolled_back_at: Some(at), ..t },
                phase: UndoPhase::Journal,
                ..run
            },
            ApplyActionView::SaveJournal,
        )
    } else {
        match restore_action(
            t.base_root,
            run.backup_root,
            t.backups,
            t.changes[run.left - 1].path,
        ) {
            Ok(action) => (
                UndoView { phase: UndoPhase::File, ..run },
                ApplyActionView::Restore { action },
            ),
            Err(e) => undo_ended(run, Some(e)),
        }
    }
}

/// The next step of a rollback.
pub open spec fn undo_step(run: UndoView, outcome: Outcome, at: Timestamp) -> (
    UndoView,
    ApplyActionView,
) {
    let t = run.transaction;
    match (run.phase, outcome) {
        (UndoPhase::Start, _) => if t.rolled_back_at is Some {
            undo_ended(
                run,
                Some("transaction '"@ + t.id + "' was already rolled back"@),
            )
        } else {
            undo_routes(run, t.route_changes.len() as int, at)
        },
        (UndoPhase::Route { index }, Outcome::Done { result }) => match result {
            Err(e) => undo_ended(run, Some(e@)),
            Ok(_) => (
                UndoView {
                    transaction: with_route_state(t, index as int, RouteChangeState::RolledBack),
                    phase: UndoPhase::RouteMark { index },
                    ..run
                },
                ApplyActionView::SaveJournal,
            ),
        },
        (UndoPhase::RouteMark { index }, Outcome::Done { result }) => match result {
            Err(e) => undo_ended(run, Some(e@)),
            Ok(_) => undo_routes(run, index as int, at),
        },
        (UndoPhase::File, Outcome::Done { result }) => match result {
            Err(e) => undo_ended(run, Some(e@)),
            Ok(_) => undo_files(UndoView { left: (run.left - 1) as usize, ..run }, at),
        },
        (UndoPhase::Journal, Outcome::Done { result }) => match result {
            Err(e) => undo_ended(run, Some(e@)),
            Ok(_) => undo_ended(run, None),
        },
        _ => undo_ended(run, None),
    }
}

/// What holds at every point of a rollback holds after its next step.
pub proof fn lemma_undo_fits(run: UndoView, outcome: Outcome, at: Timestamp)
    requires
        undo_fits(run),
        undo_awaits(run.phase, outcome),
    ensures
        undo_fits(undo_step(run, outcome, at).0),
{
    let routes = run.transaction.route_changes;
    match (run.phase, outcome) {
        (UndoPhase::Start, _) => {
            lemma_last_active(routes, routes.len() as int);
        },
        (UndoPhase::RouteMark { index }, _) => {
            lemma_last_active(routes, index as int);
        },
        _ => {},
    }
}

/// Starts the rollback of a transaction.
pub fn rollback_transaction(store: &Store, transaction: Transaction) -> (r: RollbackRun)
    ensures
        r@ == (UndoView {
            transaction: transaction@,
            backup_root: backup_path(store.root_text(), transaction@.id),
            phase: UndoPhase::Start,
            left: transaction@.changes.len() as usize,
        }),
        undo_fits(r@),
{
    let backup_root = store.backup_dir(transaction.id.as_str());
    let left = transaction.changes.len();
    assert(transaction.route_changes@.len() == transaction.route_changes.len());
    RollbackRun { transaction, backup_root, phase: UndoPhase::Start, left }
}

impl RollbackRun {
    fn end(&mut self, result: Result<(), String>) -> (r: ApplyAction)
        ensures
            (final(self)@, r@) == undo_ended(
                old(self)@,
                match result {
                    Ok(_) => None,
                    Err(e) => Some(e@),
                },
            ),
    {
        self.phase = UndoPhase::Done;
        ApplyAction::Finish { result }
    }

    fn to_routes(&mut self, left: usize, at: Timestamp) -> (r: ApplyAction)
        requires
            left <= old(self).transaction.route_changes.len(),
            old(self).left <= old(self).transaction.changes.len(),
        ensures
            (final(self)@, r@) == undo_routes(old(self)@, left as int, at),
    {
        let mut i: usize = left;
        let ghost routes = views(self.transaction.route_changes@);
        while i > 0
            invariant
                i <= left <= self.transaction.route_changes.len(),
                routes == views(self.transaction.route_changes@),
                *self == *old(self),
                last_active(routes, left as int) == last_active(routes, i as int),
            decreases i,
        {
            let state = self.transaction.route_changes[i - 1].state;
            assert(routes[i - 1].state == state);
            if state == RouteChangeState::Applying || state == RouteChangeState::Applied {
                let index = i - 1;
                self.phase = UndoPhase::Route { index };
                return ApplyAction::RollbackRoute { index };
            }
            i -= 1;
        }
        self.to_files(at)
    }

    fn to_files(&mut self, at: Timestamp) -> (r: ApplyAction)
        requires
            old(self).left <= old(self).transaction.changes.len(),
        ensures
            (final(self)@, r@) == undo_files(old(self)@, at),
    {
        if self.left == 0 {
            self.transaction.rolled_back_at = Some(at);
            self.phase = UndoPhase::Journal;
            return ApplyAction::SaveJournal;
        }
        let path = self.transaction.changes[self.left - 1].path.copy();
        assert(path@ == self@.transaction.changes[self.left - 1].path);
        let action = restore_entry(
            &self.transaction.base_root,
            &self.backup_root,
            &self.transaction.backups,
            &path,
        );
        match action {
            Ok(action) => {
                self.phase = UndoPhase::File;
                ApplyAction::Restore { action }
            },
            Err(e) => self.end(Err(e)),
        }
    }

    /// Takes a rollback one step further.
    pub fn next(&mut self, event: &ApplyEvent) -> (r: ApplyAction)
        requires
            undo_fits(old(self)@),
            undo_awaits(old(self).phase, event.outcome),
        ensures
            (final(self)@, r@) == undo_step(old(self)@, event.outcome, event.at),
            undo_fits(final(self)@),
    {
        let at = event.at;
        proof {
            lemma_undo_fits(self@, event.outcome, at);
        }
        match (self.phase, &event.outcome) {
            (UndoPhase::Start, _) => {
                if self.transaction.rolled_back_at.is_some() {
                    let message = "transaction '".to_owned().concat(
                        self.transaction.id.as_str(),
                    ).concat("' was already rolled back");
                    return self.end(Err(message));
                }
                let all = self.transaction.route_changes.len();
                self.to_routes(all, at)
            },
            (UndoPhase::Route { index }, Outcome::Done { result }) => match result {
                Err(e) => self.end(Err(e.clone())),
                Ok(_) => {
                    let ghost before = views(self.transaction.route_changes@);
                    self.transaction.route_changes[index].state = RouteChangeState::RolledBack;
                    assert(views(self.transaction.route_changes@) =~= before.update(
                        index as int,
                        RouteChangeView {
                            state: RouteChangeState::RolledBack,
                            ..before[index as int]
                        },
                    ));
                    self.phase = UndoPhase::RouteMark { index };
                    ApplyAction::SaveJournal
                },
            },
            (UndoPhase::RouteMark { index }, Outcome::Done { result }) => match result {
                Err(e) => self.end(Err(e.clone())),
                Ok(_) => self.to_routes(index, at),
            },
            (UndoPhase::File, Outcome::Done { result }) => match result {
                Err(e) => self.end(Err(e.clone())),
                Ok(_) => {
                    self.left = self.left - 1;
                    self.to_files(at)
                },
            },
            (UndoPhase::Journal, Outcome::Done { result }) => match result {
                Err(e) => self.end(Err(e.clone())),
                Ok(_) => self.end(Ok(())),
            },
            _ => self.end(Ok(())),
        }
    }
}

/// A rollback ends well only when no change is left to take back, no route may be on the host,
/// and the journal says so.
pub proof fn law_rollback_is_complete(run: UndoView, outcome: Outcome, at: Timestamp)
    requires
        undo_fits(run),
        undo_awaits(run.phase, outcome),
        undo_step(run, outcome, at).1 == (ApplyActionView::Finish { failure: None }),
    ensures
        undo_step(run, outcome, at).0.left == 0,
        none_active(undo_step(run, outcome, at).0.transaction.route_changes, 0),
        undo_step(run, outcome, at).0.transaction.rolled_back_at is Some,
{
}

/// A transaction is rolled back once: a second rollback is refused before it touches anything.
pub proof fn law_no_second_rollback(run: UndoView, at: Timestamp)
    requires
        run.phase == UndoPhase::Start,
        run.transaction.rolled_back_at is Some,
    ensures
        undo_step(run, Outcome::Begin, at).1 == (ApplyActionView::Finish {
            failure: Some(
                "transaction '"@ + run.transaction.id + "' was already rolled back"@,
            ),
        }),
{
}

/// The destinations of the applied routes that the host does not take, or the lookup that failed.
pub open spec fn failed_routes(
    host: Host,
    routes: Seq<RouteChangeView>,
    live: Seq<Result<RouteObservation, String>>,
    n: int,
) -> Result<Seq<Seq<char>>, Seq<char>>
    decreases n,
{
    if n <= 0 {
        Ok(Seq::empty())
    } else {
        match failed_routes(host, routes, live, n - 1) {
            Err(e) => Err(e),
            Ok(list) => if routes[n - 1].state != RouteChangeState::Applied {
                Ok(list)
            } else if host != Host::MacOs {
                Err("route candidate verification is supported only on macOS"@)
            } else {
                match live[n - 1] {
                    Err(e) => Err(e@),
                    Ok(current) => if is_installed(routes[n - 1], current@) {
                        Ok(list)
                    } else {
                        Ok(list.push(routes[n - 1].destination))
                    },
                }
            },
        }
    }
}

proof fn lemma_failed_routes_keep_failure(
    host: Host,
    routes: Seq<RouteChangeView>,
    live: Seq<Result<RouteObservation, String>>,
    n: int,
    m: int,
)
    requires
        0 <= n <= m,
        failed_routes(host, routes, live, n) is Err,
    ensures
        failed_routes(host, routes, live, m) == failed_routes(host, routes, live, n),
    decreases m - n,
{
    if n < m {
        lemma_failed_routes_keep_failure(host, routes, live, n, m - 1);
    }
}

/// Looks at every applied route. `live` holds the live route to the destination of each.
pub fn verify_route_changes(
    host: Host,
    transaction: &Transaction,
    live: &Vec<Result<RouteObservation, String>>,
) -> (r: Result<Vec<String>, String>)
    requires
        live.len() == transaction.route_changes.len(),
    ensures
        match r {
            Ok(list) => failed_routes(
                host,
                transaction@.route_changes,
                live@,
                transaction@.route_changes.len() as int,
            ) == Ok::<Seq<Seq<char>>, Seq<char>>(texts(list@)),
            Err(e) => failed_routes(
                host,
                transaction@.route_changes,
                live@,
                transaction@.route_changes.len() as int,
            ) == Err::<Seq<Seq<char>>, Seq<char>>(e@),
        },
{
    let mut list: Vec<String> = Vec::new();
    let ghost routes = views(transaction.route_changes@);
    let mut i: usize = 0;
    assert(texts(list@) =~= Seq::empty());
    while i < transaction.route_changes.len()
        invariant
            i <= transaction.route_changes.len(),
            live.len() == transaction.route_changes.len(),
            routes == views(transaction.route_changes@),
            failed_routes(host, routes, live@, i as int) == Ok::<Seq<Seq<char>>, Seq<char>>(
                texts(list@),
            ),
        decreases transaction.route_changes.len() - i,
    {
        let change = &transaction.route_changes[i];
        let ghost before = texts(list@);
        assert(routes[i as int] == change@);
        if change.state == RouteChangeState::Applied {
            if host != Host::MacOs {
                proof {
                    lemma_failed_routes_keep_failure(
                        host,
                        routes,
                        live@,
                        i + 1,
                        routes.len() as int,
                    );
                }
                return Err("route candidate verification is supported only on macOS".to_owned());
            }
            match &live[i] {
                Err(e) => {
                    proof {
                        lemma_failed_routes_keep_failure(
                            host,
                            routes,
                            live@,
                            i + 1,
                            routes.len() as int,
                        );
                    }
                    return Err(e.clone());
                },
                Ok(current) => {
                    if !verify_route_change(change, current) {
                        list.push(change.destination.clone());
                        assert(texts(list@) =~= before.push(change@.destination));
                    }
                },
            }
        }
        i += 1;
    }
    Ok(list)
}

/// The arguments of the process that watches an apply.
pub fn guard_arguments(root: &FsPath, transaction: &str) -> (r: Vec<String>)
    ensures
        texts(r@) == seq![
            "--state-dir"@,
            root@,
            "__rollback-guard"@,
            transaction@,
            "--timeout"@,
            "15"@,
        ],
{
    let r = crate::text::arguments(
        vec![
            "--state-dir",
            root.text.as_str(),
            "__rollback-guard",
            transaction,
            "--timeout",
            "15",
        ],
    );
    assert(texts(r@) =~= seq![
        "--state-dir"@,
        root@,
        "__rollback-guard"@,
        transaction@,
        "--timeout"@,
        "15"@,
    ]);
    r
}

} // verus!
