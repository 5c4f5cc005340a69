//! What has happened when an apply or a rollback ends: its whole course, from the first action to
//! the last, over the same plain model of what stands where.
use vstd::prelude::*;

use crate::apply::{
    change_action, failed_routes, is_active, lemma_run_fits, lemma_undo_fits, none_active,
    result_text, run_awaits, run_fits, run_step, started, undo_awaits, undo_fits, undo_step,
    ApplyActionView, FileActionView, Outcome, RunPhase, RunView, UndoPhase, UndoView,
};
use crate::clock::{compact_utc, Timestamp};
use crate::command::Host;
use crate::connectivity::ends_with;
use crate::model::{
    ApplyPlanView, ChangeKind, EnvironmentView, RouteCandidateView, RouteChangeState,
    RouteChangeView, RouteObservation, TransactionView,
};
use crate::path::{is_safe_relative, joined, law_joined_path_stays_below, parts, same_parts};
use crate::readings::law_substrings_stand_inside;
use crate::recovery::{
    are_apart, brings_no_directory, can_leave, changed_places, leads_to, run_asked, standing,
    within, Place, Places,
};
use crate::store::{backup_path, upper_path};
use crate::text::has_substring;

verus! {

/// What came of an action, and what stands where afterwards.
#[verifier::reject_recursive_types(E)]
pub struct Step<E> {
    pub outcome: Outcome,
    pub at: Timestamp,
    pub places: Places<E>,
}

/// Where an apply stands after some steps, and what it asks for; at first it asks for nothing.
pub open spec fn course<E>(run: RunView, steps: Seq<Step<E>>) -> (RunView, Option<ApplyActionView>)
    decreases steps.len(),
{
    if steps.len() == 0 {
        (run, None)
    } else {
        let (next, action) = run_step(
            course(run, steps.drop_last()).0,
            steps.last().outcome,
            steps.last().at,
        );
        (next, Some(action))
    }
}

/// What stands where after some steps.
pub open spec fn places_after<E>(first: Places<E>, steps: Seq<Step<E>>) -> Places<E> {
    if steps.len() == 0 {
        first
    } else {
        steps.last().places
    }
}

/// Whether an apply can take this course: each outcome is one of the action that was asked for, and
/// that action can have left what stands where then.
pub open spec fn can_happen<E>(run: RunView, first: Places<E>, steps: Seq<Step<E>>) -> bool
    decreases steps.len(),
{
    steps.len() == 0 || {
        let before = steps.drop_last();
        let (now, asked) = course(run, before);
        &&& can_happen(run, first, before)
        &&& run_awaits(now.phase, steps.last().outcome)
        &&& match asked {
            None => steps.last().places == first,
            Some(action) => {
                &&& can_leave(
                    places_after(first, before),
                    action,
                    steps.last().outcome,
                    steps.last().places,
                )
                &&& brings_no_directory(places_after(first, before), action)
            },
        }
    }
}

/// Whether an action succeeded.
pub open spec fn is_ok(outcome: Outcome) -> bool {
    match outcome {
        Outcome::Begin => false,
        Outcome::Done { result } => result is Ok,
        Outcome::BackedUp { found } => found is Ok,
    }
}

/// Whether an action was asked for in the course of an apply and succeeded.
pub open spec fn was_done<E>(run: RunView, steps: Seq<Step<E>>, action: ApplyActionView) -> bool {
    exists|i: int|
        0 <= i < steps.len() && (#[trigger] course(run, steps.take(i))).1 == Some(action) && is_ok(
            steps[i].outcome,
        )
}

/// Whether an action was asked for in the course of an apply.
pub open spec fn was_asked<E>(run: RunView, steps: Seq<Step<E>>, action: ApplyActionView) -> bool {
    exists|i: int|
        0 <= i <= steps.len() && (#[trigger] course(run, steps.take(i))).1 == Some(action)
}

/// Whether the journal was saved with a backup of every change in it.
pub open spec fn backups_were_saved<E>(run: RunView, steps: Seq<Step<E>>) -> bool {
    exists|i: int|
        0 <= i < steps.len() && (#[trigger] course(run, steps.take(i))).1 == Some(
            ApplyActionView::SaveJournal,
        ) && is_ok(steps[i].outcome) && course(run, steps.take(i)).0.transaction.backups.len()
            == run.transaction.changes.len()
}

/// Whether the journal was saved with a route in a state.
pub open spec fn state_was_saved<E>(
    run: RunView,
    steps: Seq<Step<E>>,
    j: int,
    state: RouteChangeState,
) -> bool {
    exists|i: int|
        0 <= i < steps.len() && (#[trigger] course(run, steps.take(i))).1 == Some(
            ApplyActionView::SaveJournal,
        ) && is_ok(steps[i].outcome) && course(
            run,
            steps.take(i),
        ).0.transaction.route_changes[j].state == state
}

proof fn lemma_earlier<E>(run: RunView, steps: Seq<Step<E>>)
    requires
        steps.len() > 0,
    ensures
        forall|action: ApplyActionView|
            was_done(run, steps.drop_last(), action) ==> was_done(run, steps, action),
        forall|action: ApplyActionView|
            was_asked(run, steps, action) ==> was_asked(run, steps.drop_last(), action) || course(
                run,
                steps,
            ).1 == Some(action),
        forall|action: ApplyActionView|
            course(run, steps.drop_last()).1 == Some(action) && is_ok(steps.last().outcome)
                ==> #[trigger] was_done(run, steps, action),
        backups_were_saved(run, steps.drop_last()) ==> backups_were_saved(run, steps),
        course(run, steps.drop_last()).1 == Some(ApplyActionView::SaveJournal) && is_ok(
            steps.last().outcome,
        ) && course(run, steps.drop_last()).0.transaction.backups.len()
            == run.transaction.changes.len() ==> backups_were_saved(run, steps),
        forall|j: int, state: RouteChangeState|
            state_was_saved(run, steps.drop_last(), j, state) ==> state_was_saved(
                run,
                steps,
                j,
                state,
            ),
        forall|j: int, state: RouteChangeState|
            course(run, steps.drop_last()).1 == Some(ApplyActionView::SaveJournal) && is_ok(
                steps.last().outcome,
            ) && course(run, steps.drop_last()).0.transaction.route_changes[j].state == state
                ==> #[trigger] state_was_saved(run, steps, j, state),
{
    let before = steps.drop_last();
    let n = steps.len() - 1;
    assert(steps.take(n) =~= before);
    assert(steps.take(n + 1) =~= steps);
    assert forall|i: int| 0 <= i <= n implies #[trigger] before.take(i) == steps.take(i) by {
        assert(before.take(i) =~= steps.take(i));
    }
    assert forall|action: ApplyActionView| was_done(run, before, action) implies was_done(
        run,
        steps,
        action,
    ) by {
        let i = choose|i: int|
            0 <= i < before.len() && (#[trigger] course(run, before.take(i))).1 == Some(action)
                && is_ok(before[i].outcome);
        assert(course(run, steps.take(i)).1 == Some(action));
    }
    assert forall|action: ApplyActionView| was_asked(run, steps, action) implies was_asked(
        run,
        before,
        action,
    ) || course(run, steps).1 == Some(action) by {
        let i = choose|i: int|
            0 <= i <= steps.len() && (#[trigger] course(run, steps.take(i))).1 == Some(action);
        if i <= n {
            assert(course(run, before.take(i)).1 == Some(action));
        }
    }
    assert forall|action: ApplyActionView|
        course(run, before).1 == Some(action) && is_ok(
            steps.last().outcome,
        ) implies #[trigger] was_done(run, steps, action) by {
        assert(course(run, steps.take(n)).1 == Some(action));
    }
    if backups_were_saved(run, before) {
        let i = choose|i: int|
            0 <= i < before.len() && (#[trigger] course(run, before.take(i))).1 == Some(
                ApplyActionView::SaveJournal,
            ) && is_ok(before[i].outcome) && course(
                run,
                before.take(i),
            ).0.transaction.backups.len() == run.transaction.changes.len();
        assert(course(run, steps.take(i)).1 == Some(ApplyActionView::SaveJournal));
    }
    assert(course(run, steps.take(n)) == course(run, before));
    assert forall|j: int, state: RouteChangeState|
        state_was_saved(run, before, j, state) implies state_was_saved(run, steps, j, state) by {
        let i = choose|i: int|
            0 <= i < before.len() && (#[trigger] course(run, before.take(i))).1 == Some(
                ApplyActionView::SaveJournal,
            ) && is_ok(before[i].outcome) && course(
                run,
                before.take(i),
            ).0.transaction.route_changes[j].state == state;
        assert(course(run, steps.take(i)).1 == Some(ApplyActionView::SaveJournal));
    }
    assert forall|j: int, state: RouteChangeState|
        course(run, before).1 == Some(ApplyActionView::SaveJournal) && is_ok(steps.last().outcome)
            && course(run, before).0.transaction.route_changes[j].state
            == state implies #[trigger] state_was_saved(run, steps, j, state) by {
        assert(course(run, steps.take(n)).1 == Some(ApplyActionView::SaveJournal));
    }
}

/// Whether the layer of an apply lies apart from what it changes and from its backups.
pub open spec fn is_clear_of_layer(run: RunView) -> bool {
    &&& run.transaction.base_root.len() > 0
    &&& run.upper.len() > 0
    &&& run.backup_root.len() > 0
    &&& are_apart(parts(run.backup_root), parts(run.upper))
    &&& forall|i: int|
        0 <= i < run.transaction.changes.len() ==> are_apart(
            #[trigger] changed_places(run.transaction)[i],
            parts(run.upper),
        )
}

/// Where the layer of an apply holds what a change is to put in place.
pub open spec fn layer_place(run: RunView, i: int) -> Place {
    parts(joined(run.upper, run.transaction.changes[i].path))
}

/// Whether a place lies apart from those of the changes from the `i`th to the `n`th.
pub open spec fn is_left_alone(spots: Seq<Place>, i: int, n: int, k: Place) -> bool {
    forall|j: int| i <= j < n && j < spots.len() ==> are_apart(k, #[trigger] spots[j])
}

/// Whether the first `n` changes stand on the host, unless a later one has gone over them: at the
/// place of a deletion, and within it, there is nothing, and at that of any other change there is
/// what the layer held at first.
pub open spec fn is_in_place<E>(run: RunView, n: int, first: Places<E>, now: Places<E>) -> bool {
    let t = run.transaction;
    let spots = changed_places(t);
    &&& forall|i: int, k: Place|
        0 <= i < n && i < t.changes.len() && t.changes[i].kind == ChangeKind::Deleted && is_left_alone(
            spots,
            i + 1,
            n,
            k,
        ) && #[trigger] within(k, spots[i]) ==> standing(now, k) is None
    &&& forall|i: int|
        0 <= i < n && i < t.changes.len() && t.changes[i].kind != ChangeKind::Deleted && is_left_alone(
            spots,
            i + 1,
            n,
            spots[i],
        ) ==> standing(first, layer_place(run, i)) is Some && standing(now, #[trigger] spots[i])
            == standing(first, layer_place(run, i))
}

/// Whether the layer is as it was at first.
pub open spec fn layer_is_kept<E>(run: RunView, first: Places<E>, now: Places<E>) -> bool {
    forall|k: Place|
        within(k, parts(run.upper)) ==> #[trigger] standing(now, k) == standing(first, k)
}

/// Whether an apply has not failed so far.
pub open spec fn is_forward(phase: RunPhase) -> bool {
    match phase {
        RunPhase::Start => true,
        RunPhase::BackupRoot => true,
        RunPhase::Backup { .. } => true,
        RunPhase::Journal => true,
        RunPhase::Lease => true,
        RunPhase::Change { .. } => true,
        RunPhase::RouteMark { .. } => true,
        RunPhase::Route { .. } => true,
        RunPhase::RouteMarked { .. } => true,
        _ => false,
    }
}

/// What an apply asks for while it waits.
pub open spec fn is_awaited(run: RunView, action: ApplyActionView) -> bool {
    match run.phase {
        RunPhase::Start => false,
        RunPhase::Journal => action is SaveJournal,
        RunPhase::Lease => action is ArmLease,
        RunPhase::RouteMark { .. } => action is SaveJournal,
        RunPhase::Route { index } => action == (ApplyActionView::ApplyRoute { index }),
        RunPhase::RouteMarked { .. } => action is SaveJournal,
        RunPhase::UndoRoute { index } => action == (ApplyActionView::RollbackRoute { index }),
        RunPhase::UndoRouteMark { .. } => action is SaveJournal,
        RunPhase::UndoJournal { .. } => action is SaveJournal,
        RunPhase::Done => action is Finish,
        _ => run_asked(run, action),
    }
}

/// Whether a route is the same as another but for its state.
pub open spec fn same_but_state(a: RouteChangeView, b: RouteChangeView) -> bool {
    a == (RouteChangeView { state: a.state, ..b })
}

/// What stays the same from the first step of an apply to the last.
pub open spec fn same_work(run: RunView, now: RunView) -> bool {
    &&& now.transaction.base_root == run.transaction.base_root
    &&& now.transaction.changes == run.transaction.changes
    &&& now.transaction.id == run.transaction.id
    &&& now.transaction.environment == run.transaction.environment
    &&& now.upper == run.upper
    &&& now.backup_root == run.backup_root
    &&& now.auto_rollback == run.auto_rollback
    &&& now.transaction.route_changes.len() == run.transaction.route_changes.len()
    &&& forall|j: int|
        0 <= j < run.transaction.route_changes.len() ==> same_but_state(
            #[trigger] now.transaction.route_changes[j],
            run.transaction.route_changes[j],
        )
}

proof fn lemma_step(run: RunView, outcome: Outcome, at: Timestamp)
    requires
        run_fits(run),
        run_awaits(run.phase, outcome),
    ensures
        ({
            let (next, action) = run_step(run, outcome, at);
            &&& run_fits(next)
            &&& same_work(run, next)
            &&& is_awaited(next, action)
            &&& is_forward(next.phase) || action == (ApplyActionView::Finish { failure: None })
                ==> is_forward(run.phase) && (run.phase is Start || is_ok(outcome))
            &&& next.applied == match (run.phase, outcome) {
                (RunPhase::Change { index }, Outcome::Done { result: Ok(_) }) => run.applied + 1,
                (RunPhase::UndoFiles { .. }, Outcome::Done { result: Ok(_) }) => run.applied - 1,
                _ => run.applied as int,
            }
        }),
{
    lemma_run_fits(run, outcome, at);
    let t = run.transaction;
    match (run.phase, outcome) {
        (RunPhase::Change { index }, Outcome::Done { result: Ok(_) }) => {
            if index + 1 < t.changes.len() {
                assert(t.backups[index + 1].path == t.changes[index + 1].path);
            }
        },
        (RunPhase::Journal, Outcome::Done { result: Ok(_) }) => {
            if t.changes.len() > 0 {
                assert(t.backups[0].path == t.changes[0].path);
            }
        },
        (RunPhase::Lease, Outcome::Done { result: Ok(_) }) => {
            if t.changes.len() > 0 {
                assert(t.backups[0].path == t.changes[0].path);
            }
        },
        _ => {},
    }
}

proof fn lemma_chain(k: Place, a: Place, b: Place)
    requires
        within(k, a),
        within(a, b),
    ensures
        within(k, b),
{
    assert(k.take(b.len() as int) =~= a.take(b.len() as int));
}

proof fn lemma_both(k: Place, a: Place, b: Place)
    requires
        within(k, a),
        within(k, b),
    ensures
        !are_apart(a, b),
{
    if a.len() <= b.len() {
        assert(b.take(a.len() as int) =~= k.take(a.len() as int));
    } else {
        assert(a.take(b.len() as int) =~= k.take(b.len() as int));
    }
}

/// What happens within a place apart from another one leaves that alone.
proof fn lemma_apart_stays<E>(before: Places<E>, after: Places<E>, place: Place, other: Place)
    requires
        crate::recovery::differs_only_within(before, after, place),
        are_apart(place, other),
    ensures
        forall|k: Place|
            within(k, other) ==> #[trigger] standing(after, k) == standing(before, k),
{
    assert forall|k: Place| within(k, other) implies #[trigger] standing(after, k) == standing(
        before,
        k,
    ) by {
        if within(k, place) {
            lemma_both(k, place, other);
        }
        if leads_to(k, place) {
            lemma_chain(place, k, other);
        }
    }
}

/// One step leaves the layer as it is, and puts one change more in place.
proof fn lemma_delivered<E>(
    run: RunView,
    action: ApplyActionView,
    outcome: Outcome,
    first: Places<E>,
    before: Places<E>,
    after: Places<E>,
)
    requires
        run_fits(run),
        is_forward(run.phase),
        !(run.phase is Start),
        is_awaited(run, action),
        run_awaits(run.phase, outcome),
        is_ok(outcome),
        is_clear_of_layer(run),
        layer_is_kept(run, first, before),
        is_in_place(run, run.applied as int, first, before),
        can_leave(before, action, outcome, after),
    ensures
        layer_is_kept(run, first, after),
        is_in_place(
            run,
            run.applied + if run.phase is Change {
                1int
            } else {
                0int
            },
            first,
            after,
        ),
{
    let t = run.transaction;
    let spots = changed_places(t);
    let layer = parts(run.upper);
    match run.phase {
        RunPhase::BackupRoot => {
            let root = parts(run.backup_root);
            lemma_apart_stays(before, after, root, layer);
        },
        RunPhase::Backup { index } => {
            lemma_backup_leaves_layer(run, index as int, action, outcome, before, after);
        },
        RunPhase::Change { index } => {
            let n = index as int;
            let spot = spots[n];
            let done = action->Change_action;
            assert(are_apart(spot, layer));
            assert(t.backups[n].path == t.changes[n].path);
            law_joined_path_stays_below(run.upper, t.changes[n].path);
            let held = layer_place(run, n);
            assert(within(held, layer));
            assert(spot.take(spot.len() as int) =~= spot);
            assert(crate::recovery::differs_only_within(before, after, spot));
            lemma_apart_stays(before, after, spot, layer);
            lemma_change_in_place(run, n, done, first, before, after);
        },
        _ => {
            assert(after == before);
        },
    }
}

proof fn lemma_backup_leaves_layer<E>(
    run: RunView,
    n: int,
    action: ApplyActionView,
    outcome: Outcome,
    before: Places<E>,
    after: Places<E>,
)
    requires
        run_fits(run),
        run.phase == (RunPhase::Backup { index: n as usize }),
        0 <= n < run.transaction.changes.len(),
        n <= usize::MAX,
        is_awaited(run, action),
        run_awaits(run.phase, outcome),
        is_ok(outcome),
        is_clear_of_layer(run),
        can_leave(before, action, outcome, after),
    ensures
        forall|k: Place|
            within(k, parts(run.upper)) ==> #[trigger] standing(after, k) == standing(before, k),
{
    let path = run.transaction.changes[n].path;
    let root = parts(run.backup_root);
    let layer = parts(run.upper);
    let kept = parts(joined(run.backup_root, path));
    law_joined_path_stays_below(run.backup_root, path);
    assert(within(kept, root));
    if !are_apart(kept, layer) {
        if within(kept, layer) {
            lemma_both(kept, root, layer);
        } else {
            lemma_chain(layer, kept, root);
        }
    }
    if after != before {
        lemma_apart_stays(before, after, kept, layer);
    }
}

proof fn lemma_change_in_place<E>(
    run: RunView,
    n: int,
    done: FileActionView,
    first: Places<E>,
    before: Places<E>,
    after: Places<E>,
)
    requires
        0 <= n < run.transaction.changes.len(),
        is_clear_of_layer(run),
        layer_is_kept(run, first, before),
        is_in_place(run, n, first, before),
        done == change_action(
            run.transaction.base_root,
            run.upper,
            run.transaction.changes[n],
        ),
        within(layer_place(run, n), parts(run.upper)),
        crate::recovery::is_performed(before, done, after),
        crate::recovery::differs_only_within(before, after, changed_places(run.transaction)[n]),
    ensures
        is_in_place(run, n + 1, first, after),
{
    let t = run.transaction;
    let spots = changed_places(t);
    let spot = spots[n];
    let held = layer_place(run, n);
    assert forall|i: int, k: Place|
        0 <= i < n + 1 && i < t.changes.len() && t.changes[i].kind == ChangeKind::Deleted && is_left_alone(
            spots,
            i + 1,
            n + 1,
            k,
        ) && #[trigger] within(k, spots[i]) implies standing(after, k) is None by {
        if i < n {
            assert(are_apart(k, spots[n]));
            assert(is_left_alone(spots, i + 1, n, k));
            assert(standing(before, k) is None);
        }
    }
    assert forall|i: int|
        0 <= i < n + 1 && i < t.changes.len() && t.changes[i].kind != ChangeKind::Deleted && is_left_alone(
            spots,
            i + 1,
            n + 1,
            spots[i],
        ) implies standing(first, layer_place(run, i)) is Some && standing(
        after,
        #[trigger] spots[i],
    ) == standing(first, layer_place(run, i)) by {
        if i < n {
            assert(are_apart(spots[i], spots[n]));
            assert(is_left_alone(spots, i + 1, n, spots[i]));
        } else {
            assert(spot.take(spot.len() as int) =~= spot);
            assert(within(spot, spot));
            assert(spot.skip(spot.len() as int) =~= Seq::empty());
            assert(held + spot.skip(spot.len() as int) =~= held);
            assert(standing(before, held) == standing(first, held));
        }
    }
}

/// What has been shown of an apply after some steps.
spec fn holds_so_far<E>(run: RunView, first: Places<E>, steps: Seq<Step<E>>) -> bool {
    let (now, asked) = course(run, steps);
    let places = places_after(first, steps);
    &&& run_fits(now)
    &&& same_work(run, now)
    &&& steps.len() == 0 ==> now == run
    &&& steps.len() > 0 ==> asked is Some && is_awaited(now, asked->Some_0) && !(now.phase is Start)
    &&& is_forward(now.phase) || asked == Some(ApplyActionView::Finish { failure: None }) ==> {
        &&& layer_is_kept(run, first, places)
        &&& is_in_place(run, now.applied as int, first, places)
    }
}

proof fn lemma_holds<E>(run: RunView, first: Places<E>, steps: Seq<Step<E>>)
    requires
        run.phase is Start,
        run_fits(run),
        is_clear_of_layer(run),
        can_happen(run, first, steps),
    ensures
        holds_so_far(run, first, steps),
    decreases steps.len(),
{
    if steps.len() > 0 {
        let before = steps.drop_last();
        lemma_holds(run, first, before);
        let (now, asked) = course(run, before);
        let (next, action) = run_step(now, steps.last().outcome, steps.last().at);
        lemma_step(now, steps.last().outcome, steps.last().at);
        lemma_same_work(run, now, next);
        assert(changed_places(now.transaction) =~= changed_places(run.transaction));
        if is_forward(next.phase) || action == (ApplyActionView::Finish { failure: None }) {
            let was = places_after(first, before);
            let is = steps.last().places;
            lemma_clear_of_layer(run, now);
            lemma_same_layer(run, now, now.applied as int, first, was);
            if asked is Some {
                lemma_delivered(
                    now,
                    asked->Some_0,
                    steps.last().outcome,
                    first,
                    was,
                    is,
                );
            }
            lemma_same_layer(run, now, next.applied as int, first, is);
        }
    }
}

proof fn lemma_same_work(run: RunView, now: RunView, next: RunView)
    requires
        same_work(run, now),
        same_work(now, next),
    ensures
        same_work(run, next),
{
    assert forall|j: int| 0 <= j < run.transaction.route_changes.len() implies same_but_state(
        #[trigger] next.transaction.route_changes[j],
        run.transaction.route_changes[j],
    ) by {
        assert(same_but_state(
            now.transaction.route_changes[j],
            run.transaction.route_changes[j],
        ));
    }
}

proof fn lemma_clear_of_layer(run: RunView, now: RunView)
    requires
        same_work(run, now),
        is_clear_of_layer(run),
    ensures
        is_clear_of_layer(now),
{
    assert(changed_places(now.transaction) =~= changed_places(run.transaction));
    assert forall|i: int| 0 <= i < now.transaction.changes.len() implies are_apart(
        #[trigger] changed_places(now.transaction)[i],
        parts(now.upper),
    ) by {
        assert(are_apart(changed_places(run.transaction)[i], parts(run.upper)));
    }
}

proof fn lemma_same_layer<E>(
    run: RunView,
    now: RunView,
    n: int,
    first: Places<E>,
    places: Places<E>,
)
    requires
        same_work(run, now),
    ensures
        is_in_place(run, n, first, places) == is_in_place(now, n, first, places),
        layer_is_kept(run, first, places) == layer_is_kept(now, first, places),
{
    assert(changed_places(now.transaction) =~= changed_places(run.transaction));
    assert forall|i: int| #[trigger] layer_place(run, i) == layer_place(now, i) by {}
}

/// An apply that ends well has put the sandbox's files on the host: at the path of every change
/// stands exactly what stood in the layer at that path, and at that of every deletion, and within
/// it, nothing. Only where a later change lies at the same path, within it or around it, that
/// change has the last word. The layer itself is as it was.
pub proof fn law_applies_put_the_layer_in_place<E>(
    run: RunView,
    first: Places<E>,
    steps: Seq<Step<E>>,
    i: int,
    k: Place,
)
    requires
        run.phase is Start,
        run_fits(run),
        is_clear_of_layer(run),
        can_happen(run, first, steps),
        course(run, steps).1 == Some(ApplyActionView::Finish { failure: None }),
        0 <= i < run.transaction.changes.len(),
        within(k, parts(joined(run.transaction.base_root, run.transaction.changes[i].path))),
        forall|j: int|
            i < j < run.transaction.changes.len() ==> are_apart(
                k,
                parts(
                    joined(
                        run.transaction.base_root,
                        (#[trigger] run.transaction.changes[j]).path,
                    ),
                ),
            ),
    ensures
        run.transaction.changes[i].kind == ChangeKind::Deleted ==> standing(
            places_after(first, steps),
            k,
        ) is None,
        run.transaction.changes[i].kind != ChangeKind::Deleted && k == parts(
            joined(run.transaction.base_root, run.transaction.changes[i].path),
        ) ==> {
            &&& standing(places_after(first, steps), k) == standing(
                first,
                parts(joined(run.upper, run.transaction.changes[i].path)),
            )
            &&& standing(places_after(first, steps), k) is Some
        },
        layer_is_kept(run, first, places_after(first, steps)),
{
    lemma_holds(run, first, steps);
    lemma_ends_applied(run, first, steps);
    let spots = changed_places(run.transaction);
    assert(spots[i] == parts(joined(run.transaction.base_root, run.transaction.changes[i].path)));
    assert(is_left_alone(spots, i + 1, spots.len() as int, k)) by {
        assert forall|j: int| i + 1 <= j < spots.len() implies are_apart(
            k,
            #[trigger] spots[j],
        ) by {
            let path = run.transaction.changes[j].path;
        }
    }
}

proof fn lemma_ends_applied<E>(run: RunView, first: Places<E>, steps: Seq<Step<E>>)
    requires
        run.phase is Start,
        run_fits(run),
        is_clear_of_layer(run),
        can_happen(run, first, steps),
        course(run, steps).1 == Some(ApplyActionView::Finish { failure: None }),
    ensures
        course(run, steps).0.applied == run.transaction.changes.len(),
{
    let before = steps.drop_last();
    lemma_holds(run, first, before);
    let now = course(run, before).0;
    crate::apply::law_success_means_everything_applied(
        now,
        steps.last().outcome,
        steps.last().at,
    );
}

/// What the states of the routes tell of the course of an apply.
spec fn routes_tell<E>(run: RunView, steps: Seq<Step<E>>) -> bool {
    let now = course(run, steps).0;
    let routes = now.transaction.route_changes;
    &&& forall|j: int|
        0 <= j < routes.len() && (#[trigger] routes[j]).state == RouteChangeState::Applied
            ==> was_done(run, steps, ApplyActionView::ApplyRoute { index: j as usize })
    &&& forall|j: int|
        0 <= j < routes.len() && (#[trigger] routes[j]).state == RouteChangeState::RolledBack
            ==> was_done(run, steps, ApplyActionView::RollbackRoute { index: j as usize })
    &&& forall|j: int|
        0 <= j < routes.len() && was_asked(
            run,
            steps,
            ApplyActionView::ApplyRoute { index: j as usize },
        ) ==> (#[trigger] routes[j]).state != RouteChangeState::Prepared && state_was_saved(
            run,
            steps,
            j,
            RouteChangeState::Applying,
        )
    &&& forall|j: int|
        0 <= j < routes.len() ==> (#[trigger] routes[j]).state == RouteChangeState::Prepared
            || routes[j].state == RouteChangeState::Applying || routes[j].state
            == RouteChangeState::Applied || routes[j].state == RouteChangeState::RolledBack
    &&& now.transaction.rolled_back_at is Some ==> none_active(routes, 0) && !is_forward(now.phase)
}

/// Whether an apply starts out with a fresh journal: nothing backed up, nothing applied and nothing
/// rolled back.
pub open spec fn starts_fresh(run: RunView) -> bool {
    &&& run.phase is Start
    &&& run_fits(run)
    &&& !run.armed
    &&& run.transaction.rolled_back_at is None
}

proof fn lemma_runs<E>(run: RunView, first: Places<E>, steps: Seq<Step<E>>)
    requires
        run.phase is Start,
        run_fits(run),
        can_happen(run, first, steps),
    ensures
        ({
            let (now, asked) = course(run, steps);
            &&& run_fits(now)
            &&& same_work(run, now)
            &&& steps.len() == 0 ==> now == run
            &&& steps.len() > 0 ==> asked is Some && is_awaited(now, asked->Some_0) && !(now.phase
                is Start)
        }),
    decreases steps.len(),
{
    if steps.len() > 0 {
        let before = steps.drop_last();
        lemma_runs(run, first, before);
        let now = course(run, before).0;
        lemma_step(now, steps.last().outcome, steps.last().at);
        lemma_same_work(run, now, course(run, steps).0);
    }
}

#[verifier::rlimit(60)]
proof fn lemma_routes_tell<E>(run: RunView, first: Places<E>, steps: Seq<Step<E>>)
    requires
        starts_fresh(run),
        can_happen(run, first, steps),
    ensures
        routes_tell(run, steps),
    decreases steps.len(),
{
    lemma_runs(run, first, steps);
    let routes = course(run, steps).0.transaction.route_changes;
    if steps.len() == 0 {
        assert forall|j: int| 0 <= j < routes.len() implies !#[trigger] was_asked(
            run,
            steps,
            ApplyActionView::ApplyRoute { index: j as usize },
        ) by {
            if was_asked(run, steps, ApplyActionView::ApplyRoute { index: j as usize }) {
                let i = choose|i: int|
                    0 <= i <= steps.len() && (#[trigger] course(run, steps.take(i))).1 == Some(
                        ApplyActionView::ApplyRoute { index: j as usize },
                    );
                assert(steps.take(i) =~= steps);
            }
        }
    } else {
        let before = steps.drop_last();
        let outcome = steps.last().outcome;
        lemma_routes_tell(run, first, before);
        lemma_runs(run, first, before);
        lemma_earlier(run, steps);
        let (now, asked) = course(run, before);
        let (next, action) = run_step(now, outcome, steps.last().at);
        let was = now.transaction.route_changes;
        lemma_route_moves(now, outcome, steps.last().at);
        assert forall|j: int| 0 <= j < routes.len() implies {
            &&& (#[trigger] routes[j]).state == RouteChangeState::Applied ==> was_done(
                run,
                steps,
                ApplyActionView::ApplyRoute { index: j as usize },
            )
            &&& routes[j].state == RouteChangeState::RolledBack ==> was_done(
                run,
                steps,
                ApplyActionView::RollbackRoute { index: j as usize },
            )
            &&& was_asked(run, steps, ApplyActionView::ApplyRoute { index: j as usize })
                ==> routes[j].state != RouteChangeState::Prepared && state_was_saved(
                run,
                steps,
                j,
                RouteChangeState::Applying,
            )
        } by {
            let old_state = was[j].state;
            assert(routes[j].state == old_state || is_route_move(now, outcome, j, routes[j].state));
            assert(same_but_state(was[j], run.transaction.route_changes[j]));
            if routes[j].state != old_state {
                assert(is_route_move(now, outcome, j, routes[j].state));
            }
            if was_asked(run, steps, ApplyActionView::ApplyRoute { index: j as usize })
                && !was_asked(run, before, ApplyActionView::ApplyRoute { index: j as usize }) {
                assert(action == (ApplyActionView::ApplyRoute { index: j as usize }));
                assert(now.phase == (RunPhase::RouteMark { index: j as usize }));
                assert(was[j].state == RouteChangeState::Applying);
                assert(state_was_saved(run, steps, j, RouteChangeState::Applying));
            }
        }
    }
}

/// Whether a step can have brought a route into a state.
spec fn is_route_move(
    run: RunView,
    outcome: Outcome,
    j: int,
    state: RouteChangeState,
) -> bool {
    match state {
        RouteChangeState::Prepared => false,
        RouteChangeState::Applying => is_forward(run.phase) && is_ok(outcome)
            && run.transaction.route_changes[j].state == RouteChangeState::Prepared,
        RouteChangeState::Applied => run.phase == (RunPhase::Route { index: j as usize }) && is_ok(
            outcome,
        ),
        RouteChangeState::RolledBack => run.phase == (RunPhase::UndoRoute { index: j as usize })
            && is_ok(outcome),
    }
}

proof fn lemma_route_moves(run: RunView, outcome: Outcome, at: Timestamp)
    requires
        run_fits(run),
        run_awaits(run.phase, outcome),
        run.transaction.rolled_back_at is Some ==> none_active(run.transaction.route_changes, 0)
            && !is_forward(run.phase),
    ensures
        ({
            let (next, action) = run_step(run, outcome, at);
            let routes = next.transaction.route_changes;
            &&& routes.len() == run.transaction.route_changes.len()
            &&& forall|j: int|
                0 <= j < routes.len() ==> (#[trigger] routes[j]).state
                    == run.transaction.route_changes[j].state || is_route_move(
                    run,
                    outcome,
                    j,
                    routes[j].state,
                )
            &&& action matches ApplyActionView::ApplyRoute { index } ==> run.phase
                == (RunPhase::RouteMark { index }) && is_ok(outcome)
            &&& next.transaction.rolled_back_at is Some ==> none_active(routes, 0) && !is_forward(
                next.phase,
            )
        }),
{
    lemma_step(run, outcome, at);
    let (next, action) = run_step(run, outcome, at);
    let t = run.transaction;
    if next.transaction.rolled_back_at is Some && t.rolled_back_at is Some {
        assert(none_active(t.route_changes, 0));
        let routes = next.transaction.route_changes;
        assert forall|j: int| 0 <= j < routes.len() implies !is_active(#[trigger] routes[j]) by {
            assert(!is_active(t.route_changes[j]));
        }
    }
}

/// An apply that ends well has installed every route of its transaction: each was asked for, after
/// its place in the journal was saved as being applied, and each attempt succeeded. What is
/// installed is what the transaction started with.
pub proof fn law_applies_install_every_route<E>(
    run: RunView,
    first: Places<E>,
    steps: Seq<Step<E>>,
    j: int,
)
    requires
        starts_fresh(run),
        can_happen(run, first, steps),
        course(run, steps).1 == Some(ApplyActionView::Finish { failure: None }),
        0 <= j < run.transaction.route_changes.len(),
    ensures
        was_done(run, steps, ApplyActionView::ApplyRoute { index: j as usize }),
        ({
            let before = run.transaction.route_changes[j];
            let after = course(run, steps).0.transaction.route_changes[j];
            &&& after.destination == before.destination
            &&& after.interface == before.interface
            &&& after.gateway == before.gateway
            &&& after.original == before.original
            &&& after.candidate_id == before.candidate_id
        }),
{
    lemma_routes_tell(run, first, steps);
    lemma_runs(run, first, steps);
    lemma_runs(run, first, steps.drop_last());
    let now = course(run, steps.drop_last()).0;
    crate::apply::law_success_means_everything_applied(
        now,
        steps.last().outcome,
        steps.last().at,
    );
    assert(course(run, steps).0.transaction.route_changes[j].state == RouteChangeState::Applied);
    assert(same_but_state(
        course(run, steps).0.transaction.route_changes[j],
        run.transaction.route_changes[j],
    ));
}

/// No route is touched before the journal says so: when an apply asks for a route, the journal was
/// saved with that route as being applied.
pub proof fn law_routes_are_journalled_first<E>(
    run: RunView,
    first: Places<E>,
    steps: Seq<Step<E>>,
    j: int,
)
    requires
        starts_fresh(run),
        can_happen(run, first, steps),
        0 <= j < run.transaction.route_changes.len(),
        was_asked(run, steps, ApplyActionView::ApplyRoute { index: j as usize }),
    ensures
        state_was_saved(run, steps, j, RouteChangeState::Applying),
{
    lemma_routes_tell(run, first, steps);
    lemma_runs(run, first, steps);
    assert(course(run, steps).0.transaction.route_changes[j].state
        != RouteChangeState::Prepared);
}

/// An apply whose journal says that it is rolled back has taken back every route that it touched:
/// for each that was asked for, a rollback was asked for and succeeded.
pub proof fn law_failed_applies_take_their_routes_back<E>(
    run: RunView,
    first: Places<E>,
    steps: Seq<Step<E>>,
    j: int,
)
    requires
        starts_fresh(run),
        can_happen(run, first, steps),
        course(run, steps).0.transaction.rolled_back_at is Some,
        0 <= j < run.transaction.route_changes.len(),
        was_asked(run, steps, ApplyActionView::ApplyRoute { index: j as usize }),
    ensures
        was_done(run, steps, ApplyActionView::RollbackRoute { index: j as usize }),
{
    lemma_routes_tell(run, first, steps);
    lemma_runs(run, first, steps);
    let route = course(run, steps).0.transaction.route_changes[j];
    assert(!is_active(route));
    assert(route.state != RouteChangeState::Prepared);
}

/// What an apply has done before it comes to its changes.
spec fn is_prepared<E>(run: RunView, steps: Seq<Step<E>>) -> bool {
    let now = course(run, steps).0;
    let t = run.transaction;
    &&& forall|i: int|
        0 <= i < now.transaction.backups.len() ==> was_done(
            run,
            steps,
            ApplyActionView::Backup {
                source: joined(t.base_root, (#[trigger] t.changes[i]).path),
                destination: joined(run.backup_root, t.changes[i].path),
            },
        )
    &&& now.armed ==> was_done(run, steps, ApplyActionView::ArmLease)
    &&& now.phase is Lease || now.phase is Change || now.phase is RouteMark || now.phase is Route
        || now.phase is RouteMarked ==> backups_were_saved(run, steps)
}

#[verifier::rlimit(60)]
proof fn lemma_prepared<E>(run: RunView, first: Places<E>, steps: Seq<Step<E>>)
    requires
        starts_fresh(run),
        can_happen(run, first, steps),
    ensures
        is_prepared(run, steps),
    decreases steps.len(),
{
    lemma_runs(run, first, steps);
    if steps.len() > 0 {
        let before = steps.drop_last();
        let outcome = steps.last().outcome;
        lemma_prepared(run, first, before);
        lemma_runs(run, first, before);
        lemma_earlier(run, steps);
        let (now, asked) = course(run, before);
        let next = run_step(now, outcome, steps.last().at).0;
        let t = run.transaction;
        lemma_step(now, outcome, steps.last().at);
        assert forall|i: int| 0 <= i < next.transaction.backups.len() implies was_done(
            run,
            steps,
            ApplyActionView::Backup {
                source: joined(t.base_root, (#[trigger] t.changes[i]).path),
                destination: joined(run.backup_root, t.changes[i].path),
            },
        ) by {
            let action = ApplyActionView::Backup {
                source: joined(t.base_root, t.changes[i].path),
                destination: joined(run.backup_root, t.changes[i].path),
            };
            if i < now.transaction.backups.len() {
                assert(was_done(run, before, action));
            } else {
                assert(now.phase == (RunPhase::Backup { index: i as usize }));
                assert(asked == Some(action));
            }
        }
    }
}

/// Nothing reaches the host unprepared: when an apply asks for a change or a route, every path that
/// it changes was backed up, to its own place among the backups, the journal was saved with all of
/// that, and, where it can be taken back by itself and is about the real root or a route, its lease
/// was armed.
pub proof fn law_changes_come_last<E>(
    run: RunView,
    first: Places<E>,
    steps: Seq<Step<E>>,
    i: int,
)
    requires
        starts_fresh(run),
        can_happen(run, first, steps),
        course(run, steps).1 matches Some(action) && (action is Change || action is ApplyRoute),
        0 <= i < run.transaction.changes.len(),
    ensures
        was_done(
            run,
            steps,
            ApplyActionView::Backup {
                source: joined(run.transaction.base_root, run.transaction.changes[i].path),
                destination: joined(run.backup_root, run.transaction.changes[i].path),
            },
        ),
        backups_were_saved(run, steps),
{
    lemma_prepared(run, first, steps);
    lemma_runs(run, first, steps);
    let now = course(run, steps).0;
    assert(run.transaction.changes[i].path == now.transaction.changes[i].path);
}

/// A lease is armed before the first change or route of an apply that can be taken back by itself
/// and is about the real root or a route.
pub proof fn law_leases_come_before_changes<E>(
    run: RunView,
    first: Places<E>,
    steps: Seq<Step<E>>,
)
    requires
        starts_fresh(run),
        can_happen(run, first, steps),
        course(run, steps).1 matches Some(action) && (action is Change || action is ApplyRoute),
        run.auto_rollback,
        same_parts(run.transaction.base_root, "/"@) || run.transaction.route_changes.len() > 0,
    ensures
        was_done(run, steps, ApplyActionView::ArmLease),
        backups_were_saved(run, steps),
{
    lemma_prepared(run, first, steps);
    lemma_runs(run, first, steps);
}

/// An apply fails only if something does: as long as every action succeeds and every path is safe,
/// it goes on or ends well.
pub proof fn law_applies_fail_only_if_something_does(run: RunView, outcome: Outcome, at: Timestamp)
    requires
        run_fits(run),
        run_awaits(run.phase, outcome),
        is_forward(run.phase),
        run.phase is Start || is_ok(outcome),
        forall|i: int|
            0 <= i < run.transaction.changes.len() ==> is_safe_relative(
                (#[trigger] run.transaction.changes[i]).path,
            ),
    ensures
        ({
            let (next, action) = run_step(run, outcome, at);
            &&& is_forward(next.phase) || action == (ApplyActionView::Finish { failure: None })
            &&& !(action is Restore)
            &&& !(action is RollbackRoute)
            &&& next.transaction.rolled_back_at == run.transaction.rolled_back_at
        }),
{
    lemma_step(run, outcome, at);
}

/// A failure is never passed over: after an action that failed, an apply asks for no further change
/// and no further route, and it does not end well.
pub proof fn law_failures_stop_an_apply(run: RunView, outcome: Outcome, at: Timestamp)
    requires
        run_fits(run),
        run_awaits(run.phase, outcome),
        !(run.phase is Start),
        !is_ok(outcome),
    ensures
        ({
            let (next, action) = run_step(run, outcome, at);
            &&& !is_forward(next.phase)
            &&& !(action is Change)
            &&& !(action is ApplyRoute)
            &&& action != (ApplyActionView::Finish { failure: None })
            &&& run.phase is Change && run.applied > 0 ==> action is Restore
            &&& run.phase is Route ==> action is RollbackRoute
        }),
{
    lemma_step(run, outcome, at);
    if run.phase is Route {
        let routes = run.transaction.route_changes;
        let index = run.phase->Route_index;
        assert(is_active(routes[index as int]));
        lemma_some_active(routes, routes.len() as int, index as int);
    }
    if run.phase is Change && run.applied > 0 {
        crate::apply::law_every_change_can_be_taken_back(run, run.applied - 1);
    }
}

proof fn lemma_some_active(routes: Seq<RouteChangeView>, left: int, j: int)
    requires
        0 <= j < left <= routes.len(),
        is_active(routes[j]),
    ensures
        crate::apply::last_active(routes, left) is Some,
    decreases left,
{
    if !is_active(routes[left - 1]) {
        lemma_some_active(routes, left - 1, j);
    }
}

/// Where a rollback stands after some outcomes, and what it asks for.
pub open spec fn undo_course(run: UndoView, steps: Seq<(Outcome, Timestamp)>) -> (
    UndoView,
    Option<ApplyActionView>,
)
    decreases steps.len(),
{
    if steps.len() == 0 {
        (run, None)
    } else {
        let (next, action) = undo_step(
            undo_course(run, steps.drop_last()).0,
            steps.last().0,
            steps.last().1,
        );
        (next, Some(action))
    }
}

/// Whether each outcome is one of the action that a rollback asked for.
pub open spec fn undo_can_happen(run: UndoView, steps: Seq<(Outcome, Timestamp)>) -> bool
    decreases steps.len(),
{
    steps.len() == 0 || {
        &&& undo_can_happen(run, steps.drop_last())
        &&& undo_awaits(undo_course(run, steps.drop_last()).0.phase, steps.last().0)
    }
}

/// Whether a rollback asked for an action that succeeded.
pub open spec fn undo_was_done(
    run: UndoView,
    steps: Seq<(Outcome, Timestamp)>,
    action: ApplyActionView,
) -> bool {
    exists|i: int|
        0 <= i < steps.len() && (#[trigger] undo_course(run, steps.take(i))).1 == Some(action)
            && is_ok(steps[i].0)
}

spec fn undo_tells(run: UndoView, steps: Seq<(Outcome, Timestamp)>) -> bool {
    let (now, asked) = undo_course(run, steps);
    let routes = now.transaction.route_changes;
    &&& undo_fits(now)
    &&& routes.len() == run.transaction.route_changes.len()
    &&& now.transaction.changes == run.transaction.changes
    &&& steps.len() == 0 ==> now == run
    &&& match now.phase {
        UndoPhase::Start => steps.len() == 0,
        UndoPhase::Route { index } => asked == Some(ApplyActionView::RollbackRoute { index }),
        UndoPhase::RouteMark { .. } => asked == Some(ApplyActionView::SaveJournal),
        UndoPhase::File => asked is Some && asked->Some_0 is Restore,
        UndoPhase::Journal => asked == Some(ApplyActionView::SaveJournal),
        UndoPhase::Done => asked is Some && asked->Some_0 is Finish,
    }
    &&& forall|j: int|
        0 <= j < routes.len() ==> same_but_state(
            #[trigger] routes[j],
            run.transaction.route_changes[j],
        ) && (routes[j].state == run.transaction.route_changes[j].state || undo_was_done(
            run,
            steps,
            ApplyActionView::RollbackRoute { index: j as usize },
        ))
}

proof fn lemma_undo_tells(run: UndoView, steps: Seq<(Outcome, Timestamp)>)
    requires
        run.phase is Start,
        undo_fits(run),
        undo_can_happen(run, steps),
    ensures
        undo_tells(run, steps),
    decreases steps.len(),
{
    if steps.len() > 0 {
        let before = steps.drop_last();
        let n = steps.len() - 1;
        lemma_undo_tells(run, before);
        let (now, asked) = undo_course(run, before);
        let (next, action) = undo_step(now, steps.last().0, steps.last().1);
        lemma_undo_fits(now, steps.last().0, steps.last().1);
        assert(steps.take(n) =~= before);
        let routes = next.transaction.route_changes;
        assert forall|j: int| 0 <= j < routes.len() implies same_but_state(
            #[trigger] routes[j],
            run.transaction.route_changes[j],
        ) && (routes[j].state == run.transaction.route_changes[j].state || undo_was_done(
            run,
            steps,
            ApplyActionView::RollbackRoute { index: j as usize },
        )) by {
            let back = ApplyActionView::RollbackRoute { index: j as usize };
            assert(same_but_state(
                now.transaction.route_changes[j],
                run.transaction.route_changes[j],
            ));
            if undo_was_done(run, before, back) {
                let i = choose|i: int|
                    0 <= i < before.len() && (#[trigger] undo_course(run, before.take(i))).1
                        == Some(back) && is_ok(before[i].0);
                assert(before.take(i) =~= steps.take(i));
                assert(undo_course(run, steps.take(i)).1 == Some(back));
            } else if routes[j].state != run.transaction.route_changes[j].state {
                assert(now.phase == (UndoPhase::Route { index: j as usize }));
                assert(undo_course(run, steps.take(n)).1 == Some(back));
            }
        }
    }
}

/// A rollback that ends well has taken back every route that may have been on the host: for each, a
/// rollback was asked for and succeeded. It asks for nothing else than routes and files to be put
/// back and the journal to be saved, and for files only when no route is left.
pub proof fn law_rollbacks_take_every_route_back(
    run: UndoView,
    steps: Seq<(Outcome, Timestamp)>,
    j: int,
)
    requires
        run.phase is Start,
        undo_fits(run),
        undo_can_happen(run, steps),
        0 <= j < run.transaction.route_changes.len(),
        run.transaction.route_changes[j].state == RouteChangeState::Applying
            || run.transaction.route_changes[j].state == RouteChangeState::Applied,
        undo_course(run, steps).1 matches Some(action) && (action is Restore || action
            == (ApplyActionView::Finish { failure: None })),
    ensures
        undo_was_done(run, steps, ApplyActionView::RollbackRoute { index: j as usize }),
{
    lemma_undo_tells(run, steps);
    let (now, asked) = undo_course(run, steps);
    let routes = now.transaction.route_changes;
    if asked == Some(ApplyActionView::Finish { failure: None }) {
        let before = steps.drop_last();
        lemma_undo_tells(run, before);
        crate::apply::law_rollback_is_complete(
            undo_course(run, before).0,
            steps.last().0,
            steps.last().1,
        );
    }
    assert(none_active(routes, 0));
    assert(!is_active(routes[j]));
}

/// A rollback fails only if something does: as long as every action succeeds, the transaction was
/// not rolled back before and every change has a backup, it goes on or ends well.
pub proof fn law_rollbacks_fail_only_if_something_does(
    run: UndoView,
    outcome: Outcome,
    at: Timestamp,
)
    requires
        undo_fits(run),
        undo_awaits(run.phase, outcome),
        run.phase is Start || is_ok(outcome),
        run.phase is Start ==> run.transaction.rolled_back_at is None,
        run.transaction.backups.len() == run.transaction.changes.len(),
        forall|i: int|
            0 <= i < run.transaction.changes.len() ==> is_safe_relative(
                (#[trigger] run.transaction.changes[i]).path,
            ) && run.transaction.backups[i].path == run.transaction.changes[i].path,
    ensures
        ({
            let (next, action) = undo_step(run, outcome, at);
            action matches ApplyActionView::Finish { failure } ==> failure is None && run.phase
                == UndoPhase::Journal
        }),
        ({
            let (next, action) = undo_step(run, outcome, at);
            !(action is Change) && !(action is ApplyRoute) && !(action is Backup)
        }),
{
    let t = run.transaction;
    lemma_undo_fits(run, outcome, at);
    let left = if run.phase is File {
        run.left - 1
    } else {
        run.left as int
    };
    if left > 0 {
        assert(t.backups[left - 1].path == t.changes[left - 1].path);
        lemma_backup_is_found(t, left - 1);
    }
}

proof fn lemma_backup_is_found(t: TransactionView, i: int)
    requires
        0 <= i < t.backups.len(),
        t.backups[i].path == t.changes[i].path,
    ensures
        crate::apply::find_backup(t.backups, t.changes[i].path) is Some,
{
    lemma_finds_backup(t.backups, t.changes[i].path, i);
}

proof fn lemma_finds_backup(
    backups: Seq<crate::model::BackupEntryView>,
    path: Seq<char>,
    i: int,
)
    requires
        0 <= i < backups.len(),
        same_parts(backups[i].path, path),
    ensures
        crate::apply::find_backup(backups, path) is Some,
    decreases backups.len(),
{
    if !same_parts(backups[0].path, path) {
        assert(backups.drop_first()[i - 1] == backups[i]);
        lemma_finds_backup(backups.drop_first(), path, i - 1);
    }
}

/// An apply carries its plan: it starts only from a plan that is allowed, with all of its changes,
/// in order and as they are, and a route for each of its candidates, which leads where the
/// candidate does and is to be put back as it was observed. It works on the base root and the layer
/// of its own environment, keeps its backups with its own journal, and nothing of it is done yet.
pub proof fn law_applies_carry_their_plan(
    root: Seq<char>,
    environment: EnvironmentView,
    plan: ApplyPlanView,
    now: Timestamp,
    id: Seq<u8>,
)
    requires
        plan.changes.len() <= usize::MAX,
        plan.route_candidates.len() <= usize::MAX,
    ensures
        !plan.allowed ==> started(root, environment, plan, now, id) is Err,
        plan.allowed && compact_utc(now.seconds, now.nanoseconds) is Some ==> started(
            root,
            environment,
            plan,
            now,
            id,
        ) is Ok,
        started(root, environment, plan, now, id) matches Ok(run) ==> {
            &&& starts_fresh(run)
            &&& run.transaction.changes == plan.changes
            &&& run.transaction.backups.len() == 0
            &&& run.transaction.environment == environment.name
            &&& run.transaction.base_root == environment.base_root
            &&& run.transaction.created_at == now
            &&& run.upper == upper_path(root, environment.name)
            &&& run.backup_root == backup_path(root, run.transaction.id)
            &&& run.auto_rollback == environment.policy.auto_rollback
            &&& run.transaction.route_changes.len() == plan.route_candidates.len()
            &&& forall|i: int|
                0 <= i < plan.route_candidates.len() ==> stands_for_candidate(
                    #[trigger] run.transaction.route_changes[i],
                    plan.route_candidates[i],
                )
        },
{
}

/// Whether a route of an apply is that of a candidate, with nothing done yet.
pub open spec fn stands_for_candidate(
    route: RouteChangeView,
    candidate: RouteCandidateView,
) -> bool {
    &&& route.candidate_id == candidate.id
    &&& route.destination == candidate.destination
    &&& route.interface == candidate.interface
    &&& route.gateway == candidate.gateway
    &&& route.original == candidate.observed_route
    &&& route.state == RouteChangeState::Prepared
}

/// Whether an applied route does not show: the live route to its destination is no host route, or
/// leads through another interface, or through another gateway than it is to.
pub open spec fn does_not_show(
    routes: Seq<RouteChangeView>,
    live: Seq<Result<RouteObservation, String>>,
    i: int,
) -> bool {
    &&& routes[i].state == RouteChangeState::Applied
    &&& live[i] matches Ok(current) && !(current@.flags.contains("HOST"@) && current@.interface
        == Some(routes[i].interface) && (routes[i].gateway is Some ==> current@.gateway
        == routes[i].gateway))
}

/// The routes that a check after an apply complains of are exactly the applied ones that do not
/// show. It can be made wherever no route was applied, and on macOS wherever the live routes can be
/// looked up.
pub proof fn law_checked_routes_show(
    host: Host,
    routes: Seq<RouteChangeView>,
    live: Seq<Result<RouteObservation, String>>,
    n: int,
    destination: Seq<char>,
)
    requires
        0 <= n <= routes.len(),
        live.len() == routes.len(),
    ensures
        failed_routes(host, routes, live, n) matches Ok(list) ==> (list.contains(destination)
            <==> exists|i: int|
            0 <= i < n && #[trigger] does_not_show(routes, live, i) && routes[i].destination
                == destination),
        failed_routes(host, routes, live, n) is Ok <==> forall|i: int|
            0 <= i < n && (#[trigger] routes[i]).state == RouteChangeState::Applied ==> host
                == Host::MacOs && live[i] is Ok,
    decreases n,
{
    if n > 0 {
        law_checked_routes_show(host, routes, live, n - 1, destination);
        if let Ok(list) = failed_routes(host, routes, live, n) {
            let before = failed_routes(host, routes, live, n - 1)->Ok_0;
            if list.contains(destination) {
                let k = choose|k: int| 0 <= k < list.len() && list[k] == destination;
                if k < before.len() {
                    assert(before.contains(before[k]));
                } else {
                    assert(does_not_show(routes, live, n - 1));
                }
            }
            if before.contains(destination) {
                let k = choose|k: int| 0 <= k < before.len() && before[k] == destination;
                assert(list[k] == destination);
            }
            if does_not_show(routes, live, n - 1) {
                assert(list[list.len() - 1] == routes[n - 1].destination);
            }
        }
        assert(routes[n - 1].state == RouteChangeState::Applied || routes[n - 1].state
            != RouteChangeState::Applied);
    }
}

/// An apply that has saved its journal is watched by a lease exactly if it is to be taken back by
/// itself and changes the host: the files of the host itself, or any route.
pub proof fn law_leases_watch_what_changes_the_host(run: RunView, at: Timestamp)
    requires
        run.phase is Journal,
    ensures
        run_step(run, Outcome::Done { result: Ok(()) }, at).1 is ArmLease <==> run.auto_rollback && (
        parts(run.transaction.base_root) == parts("/"@) || run.transaction.route_changes.len() > 0),
{
}

/// An apply that failed ends with what made it fail, whatever came of taking it back. Where a route
/// could not be taken back the end says so, and where a file could not either.
pub proof fn law_failed_applies_end_with_their_cause(run: RunView, outcome: Outcome, at: Timestamp)
    requires
        run_fits(run),
        run_awaits(run.phase, outcome),
        run.phase is UndoFiles || run.phase is UndoJournal,
        run.phase is UndoJournal ==> is_ok(outcome),
    ensures
        run_step(run, outcome, at).1 matches ApplyActionView::Finish { failure } ==> {
            &&& failure is Some
            &&& ends_with(failure->Some_0, run.failure)
            &&& run.phase matches RunPhase::UndoFiles { after_route } ==> {
                &&& after_route && run.route_failure is Some ==> has_substring(
                    failure->Some_0,
                    run.route_failure->Some_0,
                )
                &&& outcome matches Outcome::Done { result: Err(e) } ==> has_substring(
                    failure->Some_0,
                    e@,
                )
            }
        },
{
    let next = run_step(run, outcome, at);
    if next.1 is Finish {
        let text = next.1->Finish_failure->Some_0;
        let cause = run.failure;
        assert(text.skip(text.len() - cause.len()) =~= cause);
        if let RunPhase::UndoFiles { after_route } = run.phase {
            lemma_incomplete(run, outcome, at, after_route);
        }
    }
}

proof fn lemma_incomplete(run: RunView, outcome: Outcome, at: Timestamp, after_route: bool)
    requires
        run_fits(run),
        run_awaits(run.phase, outcome),
        run.phase == (RunPhase::UndoFiles { after_route }),
        run_step(run, outcome, at).1 is Finish,
    ensures
        ({
            let text = run_step(run, outcome, at).1->Finish_failure->Some_0;
            &&& after_route && run.route_failure is Some ==> has_substring(
                text,
                run.route_failure->Some_0,
            )
            &&& outcome matches Outcome::Done { result: Err(e) } ==> has_substring(text, e@)
        }),
{
    let text = run_step(run, outcome, at).1->Finish_failure->Some_0;
    let t = run.transaction;
    let head = "route apply failed and automatic rollback was incomplete; route rollback: "@;
    let plain = "apply failed and automatic rollback also failed: "@;
    let routes = result_text(run.route_failure);
    let tail = text.skip((head.len() + routes.len()) as int);
    if after_route {
        if text.len() >= head.len() + routes.len() {
            assert(text =~= head + routes + tail);
        }
        law_substrings_stand_inside(head, routes, tail);
        if let Outcome::Done { result: Err(e) } = outcome {
            let front = head + routes + "; file rollback: "@;
            law_substrings_stand_inside(front, e@, ": "@ + run.failure);
            assert(text =~= front + e@ + (": "@ + run.failure));
        }
    } else if let Outcome::Done { result: Err(e) } = outcome {
        law_substrings_stand_inside(plain, e@, ": "@ + run.failure);
        assert(text =~= plain + e@ + (": "@ + run.failure));
    }
}

/// An apply whose last change was taken back is recorded as rolled back, unless a route of it could
/// not be; then it ends with an error and is not. Once that is saved, it ends with an error too.
pub proof fn law_applies_that_were_taken_back_are_recorded(
    run: RunView,
    outcome: Outcome,
    at: Timestamp,
)
    requires
        run_awaits(run.phase, outcome),
        is_ok(outcome),
    ensures
        run.phase is UndoFiles && run.applied == 1 ==> ({
            let (next, action) = run_step(run, outcome, at);
            if run.phase == (RunPhase::UndoFiles { after_route: true }) && run.route_failure
                is Some {
                (action matches ApplyActionView::Finish { failure } && failure is Some)
                    && next.transaction == run.transaction
            } else {
                action is SaveJournal && next.transaction == (TransactionView {
                    rolled_back_at: Some(at),
                    ..run.transaction
                })
            }
        }),
        run.phase is UndoJournal ==> (run_step(run, outcome, at).1
            matches ApplyActionView::Finish { failure } && failure is Some),
{
}

} // verus!
