//! Why an apply can be taken back: what its actions leave on the host, told over a plain model of
//! what stands where.
//!
//! A *place* is a path by its parts. What stands at a place, a file, a link or a directory by
//! itself, is one value of any type; where nothing stands there is none. What is in a directory
//! stands at the places within that of the directory.
use vstd::prelude::*;

use crate::apply::{
    all_backed_up, backup_of, change_action, find_backup, lemma_run_fits, restore_action,
    run_awaits, run_fits, run_step, undo_awaits, undo_fits, undo_step, ApplyActionView,
    FileActionView, Outcome, RunPhase, RunView, UndoPhase, UndoView,
};
use crate::clock::Timestamp;
use crate::model::{BackupEntryView, TransactionView};
use crate::path::{
    is_safe_relative, joined, law_joined_path_stays_below, parts, same_parts, PathPart,
};

verus! {

/// A path by its parts.
pub type Place = Seq<PathPart>;

/// What stands at each place.
pub type Places<E> = Map<Place, E>;

/// What stands at a place.
pub open spec fn standing<E>(places: Places<E>, k: Place) -> Option<E> {
    if places.dom().contains(k) {
        Some(places[k])
    } else {
        None
    }
}

/// Whether a place is another one or lies within it.
pub open spec fn within(k: Place, other: Place) -> bool {
    other.len() <= k.len() && k.take(other.len() as int) == other
}

/// Whether a place is a directory on the way to another one.
pub open spec fn leads_to(k: Place, other: Place) -> bool {
    k.len() < other.len() && within(other, k)
}

/// Whether neither of two places lies within the other.
pub open spec fn are_apart(a: Place, b: Place) -> bool {
    !within(a, b) && !within(b, a)
}

/// Whether what stands somewhere has a directory to stand in.
pub open spec fn is_tree<E>(places: Places<E>) -> bool {
    forall|k: Place, n: int|
        standing(places, k) is Some && 0 < n < k.len() ==> standing(
            places,
            #[trigger] k.take(n),
        ) is Some
}

/// Whether nothing stands within a place but what stands at it.
pub open spec fn is_leaf<E>(places: Places<E>, place: Place) -> bool {
    forall|k: Place| within(k, place) && k != place ==> #[trigger] standing(places, k) is None
}

/// Whether nothing has changed but within a place and by directories made on the way to it.
pub open spec fn differs_only_within<E>(
    before: Places<E>,
    after: Places<E>,
    place: Place,
) -> bool {
    forall|k: Place|
        !within(k, place) && !(leads_to(k, place) && standing(before, k) is None)
            ==> #[trigger] standing(after, k) == standing(before, k)
}

/// Whether a place was given what stands within another: all of that is there now, directories
/// have been made on the way, and what else was within the place may have stayed or not.
pub open spec fn is_copied<E>(
    before: Places<E>,
    source: Place,
    target: Place,
    after: Places<E>,
) -> bool {
    &&& standing(before, source) is Some
    &&& differs_only_within(before, after, target)
    &&& forall|k: Place|
        within(k, target) ==> {
            let given = standing(before, source + k.skip(target.len() as int));
            if given is Some {
                #[trigger] standing(after, k) == given
            } else {
                standing(after, k) is None || standing(after, k) == standing(before, k)
            }
        }
}

/// Whether a place was cleared with all that is within it.
pub open spec fn is_removed<E>(before: Places<E>, target: Place, after: Places<E>) -> bool {
    forall|k: Place|
        #[trigger] standing(after, k) == if within(k, target) {
            None
        } else {
            standing(before, k)
        }
}

/// Whether an action on a place that succeeded can have left these places.
pub open spec fn is_performed<E>(
    before: Places<E>,
    action: FileActionView,
    after: Places<E>,
) -> bool {
    match action {
        FileActionView::Remove { target } => is_removed(before, parts(target), after),
        FileActionView::Copy { source, target } => is_copied(
            before,
            parts(source),
            parts(target),
            after,
        ),
    }
}

/// The place that an action is about.
pub open spec fn target_of(action: FileActionView) -> Place {
    match action {
        FileActionView::Remove { target } => parts(target),
        FileActionView::Copy { source, target } => parts(target),
    }
}

/// Whether an action with this outcome can have left these places. An action that succeeds does
/// what it says, and a backup tells whether anything was there. One that fails may leave all that
/// is within its place in any state, and directories on the way to it, but touches nothing else.
pub open spec fn can_leave<E>(
    before: Places<E>,
    action: ApplyActionView,
    outcome: Outcome,
    after: Places<E>,
) -> bool {
    match action {
        ApplyActionView::MakeDirectory { path } => {
            &&& differs_only_within(before, after, parts(path))
            &&& forall|k: Place|
                within(k, parts(path)) && k != parts(path) ==> #[trigger] standing(after, k)
                    == standing(before, k)
        },
        ApplyActionView::Backup { source, destination } => match outcome {
            Outcome::BackedUp { found: Ok(kind) } => {
                &&& kind is Some <==> standing(before, parts(source)) is Some
                &&& if kind is Some {
                    is_copied(before, parts(source), parts(destination), after)
                } else {
                    after == before
                }
            },
            _ => differs_only_within(before, after, parts(destination)),
        },
        ApplyActionView::Change { action } => match outcome {
            Outcome::Done { result: Ok(_) } => is_performed(before, action, after),
            _ => differs_only_within(before, after, target_of(action)),
        },
        ApplyActionView::Restore { action } => match outcome {
            Outcome::Done { result: Ok(_) } => is_performed(before, action, after),
            _ => differs_only_within(before, after, target_of(action)),
        },
        _ => after == before,
    }
}

/// Whether an action puts a file or a link in place, if it is a change that puts anything there:
/// a layer is told by its files and links, never by a directory.
pub open spec fn brings_no_directory<E>(before: Places<E>, action: ApplyActionView) -> bool {
    match action {
        ApplyActionView::Change { action: FileActionView::Copy { source, target } } => is_leaf(
            before,
            parts(source),
        ),
        _ => true,
    }
}

/// The places that the changes of a transaction are about.
pub open spec fn changed_places(t: TransactionView) -> Seq<Place> {
    Seq::new(t.changes.len(), |i: int| parts(joined(t.base_root, t.changes[i].path)))
}

/// Whether a place lies within that of a change.
pub open spec fn is_touched(spots: Seq<Place>, k: Place) -> bool {
    exists|i: int| 0 <= i < spots.len() && within(k, #[trigger] spots[i])
}

/// Whether a place lies within that of one of the first changes.
pub open spec fn is_touched_by(spots: Seq<Place>, n: int, k: Place) -> bool {
    exists|i: int| 0 <= i < n && i < spots.len() && within(k, #[trigger] spots[i])
}

/// Whether a place is that of one of the first changes.
pub open spec fn is_changed_by(spots: Seq<Place>, n: int, k: Place) -> bool {
    exists|i: int| 0 <= i < n && i < spots.len() && k == #[trigger] spots[i]
}

/// Whether a place is a directory on the way to that of a change.
pub open spec fn leads_to_a_change(spots: Seq<Place>, k: Place) -> bool {
    exists|i: int| 0 <= i < spots.len() && leads_to(k, #[trigger] spots[i])
}

/// Whether a place lies within that of a change at which an action failed.
pub open spec fn is_spoiled(spots: Seq<Place>, failed: Set<int>, k: Place) -> bool {
    exists|i: int|
        0 <= i < spots.len() && failed.contains(i) && within(k, #[trigger] spots[i])
}

/// Whether nothing is claimed of a place: nothing stood there at first, and a directory may have
/// been made there on the way to a change; or it lies within a place at which an action failed, as
/// long as that has not been put back itself, or nothing stood there at first.
pub open spec fn is_set_aside<E>(
    spots: Seq<Place>,
    failed: Set<int>,
    taken_back: bool,
    first: Places<E>,
    k: Place,
) -> bool {
    ||| standing(first, k) is None && leads_to_a_change(spots, k)
    ||| is_spoiled(spots, failed, k) && (!taken_back || standing(first, k) is None)
}

/// Whether the host is as it was at first, but for the first `n` changes: what does not lie within
/// the places of these is as it was, and within them nothing is new but what they put in place.
pub open spec fn differs_by<E>(
    spots: Seq<Place>,
    n: int,
    failed: Set<int>,
    taken_back: bool,
    first: Places<E>,
    now: Places<E>,
) -> bool {
    forall|k: Place|
        #[trigger] is_touched(spots, k) && !is_set_aside(spots, failed, taken_back, first, k) ==> {
            &&& !is_touched_by(spots, n, k) ==> standing(now, k) == standing(first, k)
            &&& standing(first, k) is None && !is_changed_by(spots, n, k) ==> standing(now, k)
                is None
        }
}

/// Whether every place within that of a change holds what it held at first, but for those of
/// which nothing is claimed.
pub open spec fn is_restored<E>(
    spots: Seq<Place>,
    failed: Set<int>,
    taken_back: bool,
    first: Places<E>,
    now: Places<E>,
) -> bool {
    forall|k: Place|
        #[trigger] is_touched(spots, k) && !is_set_aside(spots, failed, taken_back, first, k)
            ==> standing(now, k) == standing(first, k)
}

/// Whether a place lies within that of a change at which nothing stood at first.
pub open spec fn is_in_a_new_place<E>(spots: Seq<Place>, first: Places<E>, k: Place) -> bool {
    exists|i: int|
        0 <= i < spots.len() && standing(first, spots[i]) is None && within(k, #[trigger] spots[i])
}

/// Whether something that is new may stay at a place when the changes are taken back: nothing
/// stood there at first, but at the place of every change that it lies within something did, and
/// a directory may have been made there on the way to a change, or an action that failed may have
/// left something.
pub open spec fn may_stay<E>(
    spots: Seq<Place>,
    failed: Set<int>,
    first: Places<E>,
    k: Place,
) -> bool {
    &&& standing(first, k) is None
    &&& !is_in_a_new_place(spots, first, k)
    &&& leads_to_a_change(spots, k) || is_spoiled(spots, failed, k)
}

/// Whether every place within that of a change holds what it held at first, but for those at
/// which something new may stay.
pub open spec fn is_brought_back<E>(
    spots: Seq<Place>,
    failed: Set<int>,
    first: Places<E>,
    now: Places<E>,
) -> bool {
    forall|k: Place| #[trigger]
        is_touched(spots, k) && !may_stay(spots, failed, first, k) ==> standing(now, k)
            == standing(first, k)
}

/// Whether nothing stands within the places of the changes from the `n`th on at which nothing
/// stood at first.
pub open spec fn is_cleared_from<E>(
    spots: Seq<Place>,
    n: int,
    first: Places<E>,
    now: Places<E>,
) -> bool {
    forall|i: int, k: Place|
        n <= i < spots.len() && standing(first, spots[i]) is None && #[trigger] within(k, spots[i])
            ==> standing(now, k) is None
}

/// Whether every place within that of a change holds what it held at first.
pub open spec fn is_untouched<E>(spots: Seq<Place>, first: Places<E>, now: Places<E>) -> bool {
    forall|k: Place| #[trigger]
        is_touched(spots, k) ==> standing(now, k) == standing(first, k)
}

/// Where the backup of a place is kept.
pub open spec fn kept_at(base: Place, root: Place, k: Place) -> Place {
    root + k.skip(base.len() as int)
}

/// Whether the changes of a transaction stay clear of its backups: none is about a place within or
/// around them.
pub open spec fn is_clear_of_backups(t: TransactionView, backup_root: Seq<char>) -> bool {
    &&& t.base_root.len() > 0
    &&& backup_root.len() > 0
    &&& forall|i: int|
        0 <= i < t.changes.len() ==> are_apart(
            #[trigger] changed_places(t)[i],
            parts(backup_root),
        )
}

/// Whether all that is kept stood on the host at first.
pub open spec fn nothing_else_is_kept<E>(
    base: Place,
    root: Place,
    first: Places<E>,
    now: Places<E>,
) -> bool {
    forall|k: Place|
        within(k, base) && k != base && standing(now, #[trigger] kept_at(base, root, k)) is Some
            ==> standing(first, k) is Some
}

/// Whether the backups made so far are those of the first changes, and hold all that stood within
/// their places at first and nothing else.
pub open spec fn backups_hold<E>(
    t: TransactionView,
    backup_root: Seq<char>,
    first: Places<E>,
    now: Places<E>,
) -> bool {
    let spots = changed_places(t);
    let base = parts(t.base_root);
    let root = parts(backup_root);
    &&& t.backups.len() <= t.changes.len()
    &&& forall|i: int|
        0 <= i < t.backups.len() ==> {
            &&& (#[trigger] t.backups[i]).path == t.changes[i].path
            &&& is_safe_relative(t.changes[i].path)
            &&& t.backups[i].existed <==> standing(first, spots[i]) is Some
        }
    &&& forall|i: int, k: Place|
        0 <= i < t.backups.len() && t.backups[i].existed && #[trigger] within(k, spots[i])
            ==> standing(now, kept_at(base, root, k)) == standing(first, k)
    &&& nothing_else_is_kept(base, root, first, now)
}

proof fn lemma_within_both(k: Place, a: Place, b: Place)
    requires
        within(k, a),
        within(k, b),
    ensures
        within(a, b) || within(b, a),
{
    if a.len() <= b.len() {
        assert(b.take(a.len() as int) =~= k.take(a.len() as int));
    } else {
        assert(a.take(b.len() as int) =~= k.take(b.len() as int));
    }
}

proof fn lemma_within_chain(k: Place, a: Place, b: Place)
    requires
        within(k, a),
        within(a, b),
    ensures
        within(k, b),
{
    assert(k.take(b.len() as int) =~= a.take(b.len() as int));
}

/// The place of a change and that of its backup are the same path, taken from two directories.
proof fn lemma_spot(t: TransactionView, backup_root: Seq<char>, i: int)
    requires
        is_clear_of_backups(t, backup_root),
        0 <= i < t.changes.len(),
        is_safe_relative(t.changes[i].path),
    ensures
        within(changed_places(t)[i], parts(t.base_root)),
        within(parts(joined(backup_root, t.changes[i].path)), parts(backup_root)),
        parts(joined(backup_root, t.changes[i].path)) == kept_at(
            parts(t.base_root),
            parts(backup_root),
            changed_places(t)[i],
        ),
{
    let path = t.changes[i].path;
    let base = parts(t.base_root);
    let root = parts(backup_root);
    let keep = |p: PathPart| p != PathPart::Current;
    let tail = parts(path).filter(keep);
    law_joined_path_stays_below(t.base_root, path);
    law_joined_path_stays_below(backup_root, path);
    assert((base + tail).skip(base.len() as int) =~= tail);
}

/// Taking places from the host to the backups keeps how they lie to each other.
proof fn lemma_kept(base: Place, root: Place, k: Place, spot: Place)
    requires
        within(k, base),
        within(spot, base),
    ensures
        within(kept_at(base, root, k), root),
        within(kept_at(base, root, k), kept_at(base, root, spot)) <==> within(k, spot),
        leads_to(kept_at(base, root, k), kept_at(base, root, spot)) <==> leads_to(k, spot),
        within(k, spot) ==> {
            &&& kept_at(base, root, spot) + k.skip(spot.len() as int) == kept_at(base, root, k)
            &&& spot + kept_at(base, root, k).skip(kept_at(base, root, spot).len() as int) == k
        },
{
    let kept = kept_at(base, root, k);
    let held = kept_at(base, root, spot);
    let b = base.len() as int;
    let r = root.len() as int;
    assert(kept.take(r) =~= root);
    lemma_kept_front(base, root, k, spot);
    lemma_kept_front(base, root, spot, k);
    if within(k, spot) {
        assert(held + k.skip(spot.len() as int) =~= kept) by {
            assert forall|j: int| 0 <= j < kept.len() implies (held + k.skip(
                spot.len() as int,
            ))[j] == kept[j] by {
                if r <= j && j < held.len() {
                    assert(held[j] == spot[j - r + b]);
                    assert(spot[j - r + b] == k.take(spot.len() as int)[j - r + b]);
                }
            }
        }
        assert(spot + kept.skip(held.len() as int) =~= k) by {
            assert forall|j: int| 0 <= j < k.len() implies (spot + kept.skip(
                held.len() as int,
            ))[j] == k[j] by {
                if j < spot.len() {
                    assert(spot[j] == k.take(spot.len() as int)[j]);
                }
            }
        }
    }
}

proof fn lemma_kept_front(base: Place, root: Place, k: Place, spot: Place)
    requires
        within(k, base),
        within(spot, base),
    ensures
        within(kept_at(base, root, k), kept_at(base, root, spot)) <==> within(k, spot),
{
    let kept = kept_at(base, root, k);
    let held = kept_at(base, root, spot);
    let b = base.len() as int;
    let r = root.len() as int;
    if within(k, spot) {
        assert(kept.take(held.len() as int) =~= held) by {
            assert forall|j: int| r <= j < held.len() implies kept[j] == held[j] by {
                assert(spot[j - r + b] == k.take(spot.len() as int)[j - r + b]);
            }
        }
    }
    if within(kept, held) {
        assert(k.take(spot.len() as int) =~= spot) by {
            assert forall|j: int| 0 <= j < spot.len() implies k[j] == spot[j] by {
                if j < b {
                    assert(k.take(b)[j] == spot.take(b)[j]);
                } else {
                    assert(held[j - b + r] == kept.take(held.len() as int)[j - b + r]);
                    assert(held[j - b + r] == spot[j]);
                    assert(kept[j - b + r] == k[j]);
                }
            }
        }
    }
}

/// What lies within the place of a change lies neither within the backups nor on the way to them.
proof fn lemma_touched_is_clear(t: TransactionView, backup_root: Seq<char>, k: Place)
    requires
        is_clear_of_backups(t, backup_root),
        is_touched(changed_places(t), k),
    ensures
        !within(k, parts(backup_root)),
        !within(parts(backup_root), k),
        k.len() > 0,
{
    let spots = changed_places(t);
    let root = parts(backup_root);
    let i = choose|i: int| 0 <= i < spots.len() && within(k, #[trigger] spots[i]);
    assert(are_apart(spots[i], root));
    if within(k, root) {
        lemma_within_both(k, spots[i], root);
    }
    if within(root, k) {
        lemma_within_chain(root, k, spots[i]);
    }
    if k.len() == 0 {
        assert(root.take(0) =~= k);
    }
}

/// An action on the place of a change leaves the backups alone.
proof fn lemma_backups_stay<E>(
    t: TransactionView,
    backup_root: Seq<char>,
    first: Places<E>,
    before: Places<E>,
    after: Places<E>,
    index: int,
)
    requires
        is_clear_of_backups(t, backup_root),
        backups_hold(t, backup_root, first, before),
        0 <= index < t.changes.len(),
        differs_only_within(before, after, changed_places(t)[index]),
    ensures
        backups_hold(t, backup_root, first, after),
{
    let spots = changed_places(t);
    let spot = spots[index];
    let base = parts(t.base_root);
    let root = parts(backup_root);
    assert(are_apart(spot, root));
    assert forall|k: Place| within(k, root) implies #[trigger] standing(after, k) == standing(
        before,
        k,
    ) by {
        if within(k, spot) {
            lemma_within_both(k, spot, root);
        }
        if leads_to(k, spot) {
            lemma_within_chain(spot, k, root);
        }
    }
    assert forall|k: Place| #[trigger] within(kept_at(base, root, k), root) by {
        assert(kept_at(base, root, k).take(root.len() as int) =~= root);
    }
    assert forall|i: int, k: Place|
        0 <= i < t.backups.len() && t.backups[i].existed && #[trigger] within(
            k,
            spots[i],
        ) implies standing(after, kept_at(base, root, k)) == standing(first, k) by {
        assert(within(kept_at(base, root, k), root));
    }
    assert forall|k: Place|
        within(k, base) && k != base && standing(after, #[trigger] kept_at(base, root, k))
            is Some implies standing(first, k) is Some by {
        assert(within(kept_at(base, root, k), root));
    }
}

/// A change that succeeds is one more by which the host differs.
proof fn lemma_changed<E>(
    spots: Seq<Place>,
    n: int,
    failed: Set<int>,
    first: Places<E>,
    before: Places<E>,
    action: FileActionView,
    after: Places<E>,
)
    requires
        0 <= n < spots.len(),
        differs_by(spots, n, failed, false, first, before),
        target_of(action) == spots[n],
        is_performed(before, action, after),
        action matches FileActionView::Copy { source, target } ==> is_leaf(before, parts(source)),
    ensures
        differs_by(spots, n + 1, failed, false, first, after),
{
    let spot = spots[n];
    assert forall|k: Place| #[trigger]
        is_touched(spots, k) && !is_set_aside(spots, failed, false, first, k) implies {
        &&& !is_touched_by(spots, n + 1, k) ==> standing(after, k) == standing(first, k)
        &&& standing(first, k) is None && !is_changed_by(spots, n + 1, k) ==> standing(after, k)
            is None
    } by {
        if !is_touched_by(spots, n + 1, k) {
            assert(!within(k, spot));
            assert(!is_touched_by(spots, n, k));
            if leads_to(k, spot) {
                assert(leads_to_a_change(spots, k));
                assert(standing(first, k) is Some);
            }
            assert(standing(after, k) == standing(before, k));
        }
        if standing(first, k) is None && !is_changed_by(spots, n + 1, k) {
            assert(k != spot);
            assert(!is_changed_by(spots, n, k));
            assert(standing(before, k) is None);
            if within(k, spot) {
                if let FileActionView::Copy { source, target } = action {
                    let from = parts(source) + k.skip(spot.len() as int);
                    assert(from.take(parts(source).len() as int) =~= parts(source));
                    assert(within(from, parts(source)));
                    if k.len() == spot.len() {
                        assert(k.take(spot.len() as int) =~= k);
                    }
                    assert(from.len() > parts(source).len());
                    assert(standing(before, from) is None);
                }
                assert(standing(after, k) is None);
            } else {
                assert(!leads_to(k, spot)) by {
                    if leads_to(k, spot) {
                        assert(leads_to_a_change(spots, k));
                    }
                }
                assert(standing(after, k) == standing(before, k));
            }
        }
    }
}

/// An action that fails at the place of a change spoils that place, and no other.
proof fn lemma_failed<E>(
    spots: Seq<Place>,
    n: int,
    at: int,
    failed: Set<int>,
    first: Places<E>,
    before: Places<E>,
    after: Places<E>,
)
    requires
        0 <= at < spots.len(),
        differs_by(spots, n, failed, false, first, before),
        differs_only_within(before, after, spots[at]),
    ensures
        differs_by(spots, n, failed.insert(at), false, first, after),
{
    let spot = spots[at];
    let spoiled = failed.insert(at);
    assert forall|k: Place| #[trigger]
        is_touched(spots, k) && !is_set_aside(spots, spoiled, false, first, k) implies {
        &&& !is_touched_by(spots, n, k) ==> standing(after, k) == standing(first, k)
        &&& standing(first, k) is None && !is_changed_by(spots, n, k) ==> standing(after, k)
            is None
    } by {
        assert(spoiled.contains(at));
        assert(!within(k, spot));
        assert(!is_spoiled(spots, failed, k)) by {
            if is_spoiled(spots, failed, k) {
                let i = choose|i: int|
                    0 <= i < spots.len() && failed.contains(i) && within(k, #[trigger] spots[i]);
                assert(spoiled.contains(i));
            }
        }
        if leads_to(k, spot) && standing(before, k) is None {
            assert(leads_to_a_change(spots, k));
            assert(standing(first, k) is Some);
            assert(!is_touched_by(spots, n, k) ==> standing(before, k) == standing(first, k));
        } else {
            assert(standing(after, k) == standing(before, k));
        }
    }
}

proof fn lemma_found(backups: Seq<BackupEntryView>, path: Seq<char>) -> (i: int)
    requires
        find_backup(backups, path) is Some,
    ensures
        0 <= i < backups.len(),
        same_parts(backups[i].path, path),
        find_backup(backups, path) == Some(backups[i]),
    decreases backups.len(),
{
    if same_parts(backups[0].path, path) {
        0
    } else {
        let k = lemma_found(backups.drop_first(), path);
        k + 1
    }
}

/// What puts a change back copies its backup if something stood at its place at first, and clears
/// the place if nothing did.
proof fn lemma_restoring<E>(
    t: TransactionView,
    backup_root: Seq<char>,
    first: Places<E>,
    now: Places<E>,
    i: int,
    action: FileActionView,
)
    requires
        is_clear_of_backups(t, backup_root),
        backups_hold(t, backup_root, first, now),
        all_backed_up(t),
        0 <= i < t.changes.len(),
        restore_action(t.base_root, backup_root, t.backups, t.changes[i].path) == Ok::<
            FileActionView,
            Seq<char>,
        >(action),
    ensures
        target_of(action) == changed_places(t)[i],
        match action {
            FileActionView::Remove { .. } => standing(first, changed_places(t)[i]) is None,
            FileActionView::Copy { source, .. } => t.backups[i].existed && standing(
                first,
                changed_places(t)[i],
            ) is Some && parts(source) == kept_at(
                parts(t.base_root),
                parts(backup_root),
                changed_places(t)[i],
            ),
        },
{
    let path = t.changes[i].path;
    let j = lemma_found(t.backups, path);
    assert(t.backups[j].path == t.changes[j].path);
    assert(t.backups[i].path == path);
    law_joined_path_stays_below(t.base_root, t.changes[j].path);
    law_joined_path_stays_below(t.base_root, path);
    assert(changed_places(t)[i] == changed_places(t)[j]);
    lemma_spot(t, backup_root, i);
}

/// Putting the last change back leaves one change less by which the host differs.
proof fn lemma_restored<E>(
    t: TransactionView,
    backup_root: Seq<char>,
    i: int,
    failed: Set<int>,
    taken_back: bool,
    first: Places<E>,
    before: Places<E>,
    action: FileActionView,
    after: Places<E>,
)
    requires
        is_tree(first),
        is_clear_of_backups(t, backup_root),
        backups_hold(t, backup_root, first, before),
        all_backed_up(t),
        0 <= i < t.changes.len(),
        restore_action(t.base_root, backup_root, t.backups, t.changes[i].path) == Ok::<
            FileActionView,
            Seq<char>,
        >(action),
        differs_by(changed_places(t), i + 1, failed, taken_back, first, before),
        is_performed(before, action, after),
    ensures
        differs_by(changed_places(t), i, failed, taken_back, first, after),
{
    let spots = changed_places(t);
    let spot = spots[i];
    let base = parts(t.base_root);
    let root = parts(backup_root);
    lemma_restoring(t, backup_root, first, before, i, action);
    assert(t.backups[i].path == t.changes[i].path);
    lemma_spot(t, backup_root, i);
    assert(spot.take(spot.len() as int) =~= spot);
    assert(is_touched(spots, spot));
    lemma_touched_is_clear(t, backup_root, spot);
    assert forall|k: Place| #[trigger]
        is_touched(spots, k) && !is_set_aside(spots, failed, taken_back, first, k) implies {
        &&& !is_touched_by(spots, i, k) ==> standing(after, k) == standing(first, k)
        &&& standing(first, k) is None && !is_changed_by(spots, i, k) ==> standing(after, k)
            is None
    } by {
        lemma_touched_is_clear(t, backup_root, k);
        if within(k, spot) {
            match action {
                FileActionView::Remove { .. } => {
                    if standing(first, k) is Some {
                        lemma_stands_above(first, k, spot);
                    }
                    assert(standing(after, k) is None);
                },
                FileActionView::Copy { source, .. } => {
                    lemma_within_chain(k, spot, base);
                    lemma_kept(base, root, k, spot);
                    let given = standing(before, parts(source) + k.skip(spot.len() as int));
                    assert(given == standing(first, k));
                    if given is None {
                        assert(k != spot);
                        if !is_changed_by(spots, i, k) {
                            assert(!is_changed_by(spots, i + 1, k));
                            assert(standing(before, k) is None);
                        }
                        if !is_touched_by(spots, i, k) {
                            assert(!is_changed_by(spots, i, k)) by {
                                lemma_changed_is_touched(spots, i, k);
                            }
                        }
                    }
                },
            }
        } else {
            if leads_to(k, spot) && standing(before, k) is None && action is Copy {
                lemma_stands_above(first, spot, k);
                assert(standing(first, k) is Some);
                if !is_touched_by(spots, i, k) {
                    assert(!is_touched_by(spots, i + 1, k));
                }
            } else {
                assert(standing(after, k) == standing(before, k));
            }
            if !is_touched_by(spots, i, k) {
                assert(!is_touched_by(spots, i + 1, k));
            }
            if standing(first, k) is None && !is_changed_by(spots, i, k) {
                assert(k != spot) by {
                    if k == spot {
                        assert(k.take(spot.len() as int) =~= spot);
                    }
                }
                assert(!is_changed_by(spots, i + 1, k));
            }
        }
    }
}

/// Putting the last change back clears its place where nothing stood at first, and brings nothing
/// to those that are cleared already.
proof fn lemma_cleared<E>(
    t: TransactionView,
    backup_root: Seq<char>,
    i: int,
    first: Places<E>,
    before: Places<E>,
    action: FileActionView,
    after: Places<E>,
)
    requires
        is_tree(first),
        is_clear_of_backups(t, backup_root),
        backups_hold(t, backup_root, first, before),
        all_backed_up(t),
        0 <= i < t.changes.len(),
        restore_action(t.base_root, backup_root, t.backups, t.changes[i].path) == Ok::<
            FileActionView,
            Seq<char>,
        >(action),
        is_cleared_from(changed_places(t), i + 1, first, before),
        is_performed(before, action, after),
    ensures
        is_cleared_from(changed_places(t), i, first, after),
{
    let spots = changed_places(t);
    let spot = spots[i];
    let base = parts(t.base_root);
    let root = parts(backup_root);
    lemma_restoring(t, backup_root, first, before, i, action);
    assert(t.backups[i].path == t.changes[i].path);
    lemma_spot(t, backup_root, i);
    assert forall|j: int, k: Place|
        i <= j < spots.len() && standing(first, spots[j]) is None && #[trigger] within(
            k,
            spots[j],
        ) implies standing(after, k) is None by {
        assert(is_touched(spots, k));
        lemma_touched_is_clear(t, backup_root, k);
        assert(spots[j].take(spots[j].len() as int) =~= spots[j]);
        assert(is_touched(spots, spots[j]));
        lemma_touched_is_clear(t, backup_root, spots[j]);
        if j > i {
            assert(standing(before, k) is None);
        }
        if let FileActionView::Copy { source, .. } = action {
            assert(j > i);
            if standing(first, k) is Some {
                lemma_stands_above(first, k, spots[j]);
            }
            if within(k, spot) {
                lemma_within_chain(k, spot, base);
                lemma_kept(base, root, k, spot);
                assert(standing(before, parts(source) + k.skip(spot.len() as int)) == standing(
                    first,
                    k,
                ));
            } else if leads_to(k, spot) {
                lemma_within_chain(spot, k, spots[j]);
                lemma_stands_above(first, spot, spots[j]);
            } else {
                assert(standing(after, k) == standing(before, k));
            }
        }
    }
}

proof fn lemma_changed_is_touched(spots: Seq<Place>, n: int, k: Place)
    ensures
        is_changed_by(spots, n, k) ==> is_touched_by(spots, n, k),
{
    if is_changed_by(spots, n, k) {
        let i = choose|i: int| 0 <= i < n && i < spots.len() && k == #[trigger] spots[i];
        assert(k.take(spots[i].len() as int) =~= spots[i]);
        assert(within(k, spots[i]));
    }
}

proof fn lemma_stands_above<E>(places: Places<E>, k: Place, above: Place)
    requires
        is_tree(places),
        standing(places, k) is Some,
        within(k, above),
        above.len() > 0,
    ensures
        standing(places, above) is Some,
{
    if above.len() == k.len() {
        assert(k.take(above.len() as int) =~= k);
    } else {
        assert(k.take(above.len() as int) == above);
    }
}

/// What happens within the backups or on the way to them leaves the host alone.
proof fn lemma_host_stays<E>(
    t: TransactionView,
    backup_root: Seq<char>,
    before: Places<E>,
    after: Places<E>,
    place: Place,
)
    requires
        is_clear_of_backups(t, backup_root),
        within(place, parts(backup_root)),
        differs_only_within(before, after, place),
    ensures
        forall|k: Place| #[trigger]
            is_touched(changed_places(t), k) ==> standing(after, k) == standing(before, k),
{
    let root = parts(backup_root);
    assert forall|k: Place| #[trigger] is_touched(changed_places(t), k) implies standing(after, k)
        == standing(before, k) by {
        lemma_touched_is_clear(t, backup_root, k);
        if within(k, place) {
            lemma_within_chain(k, place, root);
        }
        if leads_to(k, place) {
            lemma_within_both(place, k, root);
        }
    }
}

/// A backup keeps all that stands within the place of its change, and nothing else.
proof fn lemma_backed_up<E>(
    t: TransactionView,
    backup_root: Seq<char>,
    n: int,
    first: Places<E>,
    before: Places<E>,
    after: Places<E>,
)
    requires
        is_tree(first),
        is_clear_of_backups(t, backup_root),
        backups_hold(t, backup_root, first, before),
        is_untouched(changed_places(t), first, before),
        0 <= n < t.changes.len(),
        is_safe_relative(t.changes[n].path),
        is_copied(
            before,
            changed_places(t)[n],
            parts(joined(backup_root, t.changes[n].path)),
            after,
        ),
    ensures
        backups_hold(t, backup_root, first, after),
        is_untouched(changed_places(t), first, after),
        standing(first, changed_places(t)[n]) is Some,
        forall|k: Place| #[trigger]
            within(k, changed_places(t)[n]) ==> standing(
                after,
                kept_at(parts(t.base_root), parts(backup_root), k),
            ) == standing(first, k),
{
    let spots = changed_places(t);
    let base = parts(t.base_root);
    let root = parts(backup_root);
    let spot = spots[n];
    let held = kept_at(base, root, spot);
    lemma_spot(t, backup_root, n);
    lemma_host_stays(t, backup_root, before, after, held);
    assert(spot.take(spot.len() as int) =~= spot);
    assert(is_touched(spots, spot));
    assert forall|k: Place| #[trigger] within(k, spot) implies standing(
        after,
        kept_at(base, root, k),
    ) == standing(first, k) by {
        assert(is_touched(spots, k));
        lemma_within_chain(k, spot, base);
        lemma_kept(base, root, k, spot);
        assert(within(kept_at(base, root, k), held));
        if standing(before, k) is None {
            assert(k != spot);
            if k == base {
                assert(within(base, spot));
                assert(base =~= spot) by {
                    assert(base.len() == spot.len());
                    assert(base.take(spot.len() as int) =~= base);
                }
            }
            assert(standing(before, kept_at(base, root, k)) is None);
        }
    }
    assert forall|k: Place|
        within(k, base) && k.len() > 0 && !within(k, spot) && (standing(first, k) is None
            || standing(before, kept_at(base, root, k)) is Some || !leads_to(
            k,
            spot,
        )) implies #[trigger] standing(after, kept_at(base, root, k))
        == standing(before, kept_at(base, root, k)) by {
        lemma_kept(base, root, k, spot);
        if leads_to(k, spot) && standing(before, kept_at(base, root, k)) is None {
            lemma_stands_above(first, spot, k);
        }
    }
    assert forall|i: int, k: Place|
        0 <= i < t.backups.len() && t.backups[i].existed && #[trigger] within(
            k,
            spots[i],
        ) implies standing(after, kept_at(base, root, k)) == standing(first, k) by {
        assert(t.backups[i].path == t.changes[i].path);
        lemma_spot(t, backup_root, i);
        lemma_within_chain(k, spots[i], base);
        assert(standing(before, kept_at(base, root, k)) == standing(first, k));
        assert(is_touched(spots, k));
        lemma_touched_is_clear(t, backup_root, k);
        if !within(k, spot) {
            assert(standing(after, kept_at(base, root, k)) == standing(
                before,
                kept_at(base, root, k),
            ));
        }
    }
    assert forall|k: Place|
        within(k, base) && k != base && standing(after, #[trigger] kept_at(base, root, k))
            is Some implies standing(first, k) is Some by {
        if k.len() == base.len() {
            assert(k.take(base.len() as int) =~= k);
        }
        if !within(k, spot) && standing(first, k) is None {
            assert(standing(after, kept_at(base, root, k)) == standing(
                before,
                kept_at(base, root, k),
            ));
        }
    }
}

/// Making the directory of the backups leaves the host and the backups alone.
proof fn lemma_directory_made<E>(
    t: TransactionView,
    backup_root: Seq<char>,
    first: Places<E>,
    before: Places<E>,
    after: Places<E>,
)
    requires
        is_clear_of_backups(t, backup_root),
        t.backups.len() == 0,
        backups_hold(t, backup_root, first, before),
        is_untouched(changed_places(t), first, before),
        differs_only_within(before, after, parts(backup_root)),
        forall|k: Place|
            within(k, parts(backup_root)) && k != parts(backup_root) ==> #[trigger] standing(
                after,
                k,
            ) == standing(before, k),
    ensures
        backups_hold(t, backup_root, first, after),
        is_untouched(changed_places(t), first, after),
{
    let base = parts(t.base_root);
    let root = parts(backup_root);
    assert(root.take(root.len() as int) =~= root);
    lemma_host_stays(t, backup_root, before, after, root);
    assert forall|k: Place|
        within(k, base) && k != base && standing(after, #[trigger] kept_at(base, root, k))
            is Some implies standing(first, k) is Some by {
        lemma_kept(base, root, k, k);
        if k.len() == base.len() {
            assert(k.take(base.len() as int) =~= k);
        }
        assert(kept_at(base, root, k).len() > root.len());
    }
}

/// Whether an apply waits for this action.
pub open spec fn run_asked(run: RunView, action: ApplyActionView) -> bool {
    let t = run.transaction;
    match run.phase {
        RunPhase::Backup { index } => action == (ApplyActionView::Backup {
            source: joined(t.base_root, t.changes[index as int].path),
            destination: joined(run.backup_root, t.changes[index as int].path),
        }),
        RunPhase::Change { index } => action == (ApplyActionView::Change {
            action: change_action(t.base_root, run.upper, t.changes[index as int]),
        }),
        RunPhase::UndoFiles { .. } => (action matches ApplyActionView::Restore { action }
            && restore_action(
            t.base_root,
            run.backup_root,
            t.backups,
            t.changes[run.applied - 1].path,
        ) == Ok::<FileActionView, Seq<char>>(action)),
        RunPhase::BackupRoot => action == (ApplyActionView::MakeDirectory {
            path: run.backup_root,
        }),
        _ => !(action is MakeDirectory) && !(action is Backup) && !(action is Change) && !(action
            is Restore),
    }
}

/// Whether an apply has not come to its changes yet.
pub open spec fn is_gathering(phase: RunPhase) -> bool {
    match phase {
        RunPhase::Start => true,
        RunPhase::BackupRoot => true,
        RunPhase::Backup { .. } => true,
        RunPhase::Journal => true,
        RunPhase::Lease => true,
        _ => false,
    }
}

/// Whether an apply is still on its way, with no change that failed.
pub open spec fn is_ahead(phase: RunPhase) -> bool {
    match phase {
        RunPhase::Start => true,
        RunPhase::BackupRoot => true,
        RunPhase::Backup { .. } => true,
        RunPhase::Journal => true,
        RunPhase::Lease => true,
        RunPhase::Change { .. } => true,
        _ => false,
    }
}

/// Whether an apply can be taken back. `first` is what stood where when it started, and `failed`
/// are the changes at whose places an action has failed.
pub open spec fn is_recoverable<E>(
    run: RunView,
    failed: Set<int>,
    first: Places<E>,
    now: Places<E>,
) -> bool {
    let t = run.transaction;
    let spots = changed_places(t);
    &&& is_tree(first)
    &&& is_clear_of_backups(t, run.backup_root)
    &&& (run.phase is Done && !all_backed_up(t)) || backups_hold(t, run.backup_root, first, now)
    &&& differs_by(spots, run.applied as int, failed, false, first, now)
    &&& is_ahead(run.phase) ==> failed == Set::<int>::empty()
    &&& is_gathering(run.phase) ==> is_untouched(spots, first, now)
}

/// The changes at whose places an action has failed after another outcome.
pub open spec fn failed_after(run: RunView, outcome: Outcome, failed: Set<int>) -> Set<int> {
    match (run.phase, outcome) {
        (RunPhase::Change { index }, Outcome::Done { result: Err(_) }) => failed.insert(
            index as int,
        ),
        (RunPhase::UndoFiles { .. }, Outcome::Done { result: Err(_) }) => failed.insert(
            run.applied - 1,
        ),
        _ => failed,
    }
}

/// A step of an apply leaves its changes and where they are kept alone, and it asks for what it
/// waits for next.
proof fn lemma_run_frame(run: RunView, outcome: Outcome, at: Timestamp)
    requires
        run_fits(run),
        run_awaits(run.phase, outcome),
    ensures
        ({
            let (next, asked) = run_step(run, outcome, at);
            &&& next.transaction.base_root == run.transaction.base_root
            &&& next.transaction.changes == run.transaction.changes
            &&& next.backup_root == run.backup_root
            &&& run_asked(next, asked)
            &&& is_gathering(next.phase) ==> is_gathering(run.phase)
            &&& is_ahead(next.phase) ==> is_ahead(run.phase) && !(run.phase is Change && outcome
                matches Outcome::Done { result: Err(_) })
            &&& next.transaction.backups == match (run.phase, outcome) {
                (RunPhase::Backup { index }, Outcome::BackedUp { found: Ok(kind) }) =>
                    run.transaction.backups.push(
                        backup_of(run.transaction.changes[index as int].path, kind),
                    ),
                _ => run.transaction.backups,
            }
            &&& next.phase is Done && !all_backed_up(next.transaction) || !(run.phase is Backup
                && outcome matches Outcome::BackedUp { found: Err(_) })
            &&& next.applied == match (run.phase, outcome) {
                (RunPhase::Change { index }, Outcome::Done { result: Ok(_) }) => index + 1,
                (RunPhase::UndoFiles { .. }, Outcome::Done { result: Ok(_) }) => run.applied - 1,
                _ => run.applied as int,
            }
        }),
{
    let t = run.transaction;
    match (run.phase, outcome) {
        (RunPhase::Change { index }, Outcome::Done { result: Ok(_) }) => {
            if index + 1 < t.changes.len() {
                assert(t.backups[index + 1].path == t.changes[index + 1].path);
            }
        },
        (RunPhase::Journal, Outcome::Done { result: Ok(_) }) => {
            if t.changes.len() > 0 {
                assert(t.backups[0].path == t.changes[0].path);
            }
        },
        (RunPhase::Lease, Outcome::Done { result: Ok(_) }) => {
            if t.changes.len() > 0 {
                assert(t.backups[0].path == t.changes[0].path);
            }
        },
        _ => {},
    }
}

proof fn lemma_untouched<E>(
    spots: Seq<Place>,
    failed: Set<int>,
    first: Places<E>,
    now: Places<E>,
)
    requires
        is_untouched(spots, first, now),
    ensures
        differs_by(spots, 0, failed, false, first, now),
{
}

/// When the last change has been put back, the host is as it was.
proof fn lemma_brought_back<E>(
    spots: Seq<Place>,
    failed: Set<int>,
    first: Places<E>,
    now: Places<E>,
)
    requires
        is_restored(spots, failed, true, first, now),
        is_cleared_from(spots, 0, first, now),
        is_tree(first),
        forall|i: int| 0 <= i < spots.len() ==> (#[trigger] spots[i]).len() > 0,
    ensures
        is_brought_back(spots, failed, first, now),
        forall|i: int|
            0 <= i < spots.len() ==> standing(now, #[trigger] spots[i]) == standing(
                first,
                spots[i],
            ),
{
    assert forall|k: Place| #[trigger]
        is_touched(spots, k) && !may_stay(spots, failed, first, k) implies standing(now, k)
        == standing(first, k) by {
        if is_in_a_new_place(spots, first, k) {
            let i = choose|i: int|
                0 <= i < spots.len() && standing(first, spots[i]) is None && within(
                    k,
                    #[trigger] spots[i],
                );
            assert(standing(now, k) is None);
            if standing(first, k) is Some {
                lemma_stands_above(first, k, spots[i]);
            }
        } else {
            assert(!is_set_aside(spots, failed, true, first, k));
        }
    }
    assert forall|i: int| 0 <= i < spots.len() implies standing(now, #[trigger] spots[i])
        == standing(first, spots[i]) by {
        let k = spots[i];
        assert(k.take(k.len() as int) =~= k);
        assert(within(k, spots[i]));
        assert(is_touched(spots, k));
        if standing(first, k) is None {
            assert(is_in_a_new_place(spots, first, k));
        }
        assert(!may_stay(spots, failed, first, k));
    }
}

proof fn lemma_all_taken_back<E>(
    spots: Seq<Place>,
    failed: Set<int>,
    taken_back: bool,
    first: Places<E>,
    now: Places<E>,
)
    requires
        differs_by(spots, 0, failed, taken_back, first, now),
    ensures
        is_restored(spots, failed, taken_back, first, now),
{
    assert forall|k: Place| #[trigger]
        is_touched(spots, k) && !is_set_aside(spots, failed, taken_back, first, k) implies standing(
        now,
        k,
    ) == standing(first, k) by {
        assert(!is_touched_by(spots, 0, k));
    }
}

/// An apply starts out so that it can be taken back, as long as nothing is kept yet where its
/// backups go.
pub proof fn law_applies_start_recoverable<E>(run: RunView, first: Places<E>)
    requires
        run.phase is Start,
        run.applied == 0,
        run.transaction.backups.len() == 0,
        is_tree(first),
        is_clear_of_backups(run.transaction, run.backup_root),
        is_leaf(first, parts(run.backup_root)),
    ensures
        is_recoverable(run, Set::empty(), first, first),
{
    let base = parts(run.transaction.base_root);
    let root = parts(run.backup_root);
    assert forall|k: Place|
        within(k, base) && k != base && standing(first, #[trigger] kept_at(base, root, k))
            is Some implies standing(first, k) is Some by {
        lemma_kept(base, root, k, k);
        if k.len() == base.len() {
            assert(k.take(base.len() as int) =~= k);
        }
        assert(kept_at(base, root, k).len() > root.len());
        assert(kept_at(base, root, k) != root);
    }
}

/// What becomes of the places while an apply gathers its backups.
proof fn lemma_gathered<E>(
    run: RunView,
    action: ApplyActionView,
    outcome: Outcome,
    at: Timestamp,
    first: Places<E>,
    before: Places<E>,
    after: Places<E>,
)
    requires
        run_fits(run),
        run_awaits(run.phase, outcome),
        run_asked(run, action),
        is_recoverable(run, Set::empty(), first, before),
        can_leave(before, action, outcome, after),
        is_gathering(run.phase),
    ensures
        ({
            let next = run_step(run, outcome, at).0;
            &&& is_untouched(changed_places(run.transaction), first, after)
            &&& (next.phase is Done && !all_backed_up(next.transaction)) || backups_hold(
                next.transaction,
                run.backup_root,
                first,
                after,
            )
        }),
{
    lemma_run_frame(run, outcome, at);
    let next = run_step(run, outcome, at).0;
    let t = run.transaction;
    let root = run.backup_root;
    assert(changed_places(next.transaction) =~= changed_places(t));
    match run.phase {
        RunPhase::BackupRoot => {
            lemma_directory_made(t, root, first, before, after);
        },
        RunPhase::Backup { index } => {
            let n = index as int;
            lemma_spot(t, root, n);
            let spot = changed_places(t)[n];
            assert(spot.take(spot.len() as int) =~= spot);
            assert(is_touched(changed_places(t), spot));
            if let Outcome::BackedUp { found: Ok(kind) } = outcome {
                if kind is Some {
                    lemma_backed_up(t, root, n, first, before, after);
                }
                lemma_backup_recorded(t, next.transaction, root, n, kind, first, after);
            } else {
                lemma_host_stays(
                    t,
                    root,
                    before,
                    after,
                    parts(joined(root, t.changes[n].path)),
                );
            }
        },
        _ => {},
    }
}

/// The record of a backup tells what is kept.
proof fn lemma_backup_recorded<E>(
    t: TransactionView,
    next: TransactionView,
    backup_root: Seq<char>,
    n: int,
    kind: Option<crate::diff::FileKind>,
    first: Places<E>,
    now: Places<E>,
)
    requires
        backups_hold(t, backup_root, first, now),
        0 <= n < t.changes.len(),
        t.backups.len() == n,
        is_safe_relative(t.changes[n].path),
        next.base_root == t.base_root,
        next.changes == t.changes,
        next.backups == t.backups.push(backup_of(t.changes[n].path, kind)),
        kind is Some <==> standing(first, changed_places(t)[n]) is Some,
        kind is Some ==> forall|k: Place| #[trigger]
            within(k, changed_places(t)[n]) ==> standing(
                now,
                kept_at(parts(t.base_root), parts(backup_root), k),
            ) == standing(first, k),
    ensures
        backups_hold(next, backup_root, first, now),
{
    let spots = changed_places(t);
    let base = parts(t.base_root);
    let root = parts(backup_root);
    assert(changed_places(next) =~= spots);
    assert forall|i: int| 0 <= i < next.backups.len() implies {
        &&& (#[trigger] next.backups[i]).path == next.changes[i].path
        &&& is_safe_relative(next.changes[i].path)
        &&& next.backups[i].existed <==> standing(first, spots[i]) is Some
    } by {
        if i < n {
            assert(next.backups[i] == t.backups[i]);
        }
    }
    assert forall|i: int, k: Place|
        0 <= i < next.backups.len() && next.backups[i].existed && #[trigger] within(
            k,
            spots[i],
        ) implies standing(now, kept_at(base, root, k)) == standing(first, k) by {
        if i < n {
            assert(next.backups[i] == t.backups[i]);
        }
    }
}

/// What becomes of the places once an apply has come to its changes.
proof fn lemma_moved_on<E>(
    run: RunView,
    action: ApplyActionView,
    outcome: Outcome,
    at: Timestamp,
    failed: Set<int>,
    first: Places<E>,
    before: Places<E>,
    after: Places<E>,
)
    requires
        run_fits(run),
        run_awaits(run.phase, outcome),
        run_asked(run, action),
        is_recoverable(run, failed, first, before),
        can_leave(before, action, outcome, after),
        brings_no_directory(before, action),
        !is_gathering(run.phase),
    ensures
        backups_hold(run.transaction, run.backup_root, first, after),
        differs_by(
            changed_places(run.transaction),
            run_step(run, outcome, at).0.applied as int,
            failed_after(run, outcome, failed),
            false,
            first,
            after,
        ),
{
    lemma_run_frame(run, outcome, at);
    let t = run.transaction;
    let root = run.backup_root;
    let spots = changed_places(t);
    if let RunPhase::Change { index } = run.phase {
        let i = index as int;
        let done = change_action(t.base_root, run.upper, t.changes[i]);
        assert(target_of(done) == spots[i]);
        lemma_backups_stay(t, root, first, before, after, i);
        if outcome matches Outcome::Done { result: Ok(_) } {
            lemma_changed(spots, i, failed, first, before, done, after);
        } else {
            lemma_failed(spots, i, i, failed, first, before, after);
        }
    } else if run.phase is UndoFiles {
        let i = run.applied - 1;
        let back = action->Restore_action;
        lemma_restoring(t, root, first, before, i, back);
        lemma_backups_stay(t, root, first, before, after, i);
        if outcome matches Outcome::Done { result: Ok(_) } {
            lemma_restored(t, root, i, failed, false, first, before, back, after);
        } else {
            lemma_failed(spots, i + 1, i, failed, first, before, after);
        }
    }
}

/// An apply can be taken back at every point, whatever comes of its actions: the backups made so
/// far hold all that stood within the places of their changes at first, and the host differs from
/// what it was by no more than the changes that stand. When an apply says that its changes are
/// rolled back, every place within that of a change holds what it held at first: all but those
/// within a place at which an action failed, and but for directories made on the way to a change
/// where nothing stood. Changes may lie within each other.
pub proof fn law_applies_stay_recoverable<E>(
    run: RunView,
    action: ApplyActionView,
    outcome: Outcome,
    at: Timestamp,
    failed: Set<int>,
    first: Places<E>,
    before: Places<E>,
    after: Places<E>,
)
    requires
        run_fits(run),
        run_awaits(run.phase, outcome),
        run_asked(run, action),
        is_recoverable(run, failed, first, before),
        can_leave(before, action, outcome, after),
        brings_no_directory(before, action),
    ensures
        run_fits(run_step(run, outcome, at).0),
        run_asked(run_step(run, outcome, at).0, run_step(run, outcome, at).1),
        is_recoverable(
            run_step(run, outcome, at).0,
            failed_after(run, outcome, failed),
            first,
            after,
        ),
        run_step(run, outcome, at).0.phase is UndoJournal ==> is_restored(
            changed_places(run.transaction),
            failed_after(run, outcome, failed),
            false,
            first,
            after,
        ),
{
    lemma_run_fits(run, outcome, at);
    lemma_run_frame(run, outcome, at);
    let next = run_step(run, outcome, at).0;
    let t = run.transaction;
    let root = run.backup_root;
    let spots = changed_places(t);
    let now_failed = failed_after(run, outcome, failed);
    assert(changed_places(next.transaction) =~= spots);
    assert(is_clear_of_backups(next.transaction, root)) by {
        assert forall|i: int| 0 <= i < next.transaction.changes.len() implies are_apart(
            #[trigger] changed_places(next.transaction)[i],
            parts(root),
        ) by {
            assert(are_apart(spots[i], parts(root)));
        }
    }
    if is_gathering(run.phase) {
        lemma_gathered(run, action, outcome, at, first, before, after);
        lemma_untouched(spots, failed, first, after);
    } else {
        lemma_moved_on(run, action, outcome, at, failed, first, before, after);
        lemma_same_backups(t, next.transaction, root, first, after);
    }
    if next.phase is UndoJournal {
        lemma_all_taken_back(spots, now_failed, false, first, after);
    }
}

proof fn lemma_same_backups<E>(
    t: TransactionView,
    next: TransactionView,
    backup_root: Seq<char>,
    first: Places<E>,
    now: Places<E>,
)
    requires
        backups_hold(t, backup_root, first, now),
        next.base_root == t.base_root,
        next.changes == t.changes,
        next.backups == t.backups,
    ensures
        backups_hold(next, backup_root, first, now),
{
    assert(changed_places(next) =~= changed_places(t));
}

/// Whether a rollback waits for this action.
pub open spec fn undo_asked(run: UndoView, action: ApplyActionView) -> bool {
    let t = run.transaction;
    match run.phase {
        UndoPhase::File => (action matches ApplyActionView::Restore { action } && restore_action(
            t.base_root,
            run.backup_root,
            t.backups,
            t.changes[run.left - 1].path,
        ) == Ok::<FileActionView, Seq<char>>(action)),
        _ => !(action is MakeDirectory) && !(action is Backup) && !(action is Change) && !(action
            is Restore),
    }
}

/// Whether a rollback is under way to what stood on the host at first. `failed` are the changes at
/// whose places an action of the apply failed.
pub open spec fn is_recovering<E>(
    run: UndoView,
    failed: Set<int>,
    first: Places<E>,
    now: Places<E>,
) -> bool {
    let t = run.transaction;
    &&& is_tree(first)
    &&& is_clear_of_backups(t, run.backup_root)
    &&& all_backed_up(t)
    &&& backups_hold(t, run.backup_root, first, now)
    &&& differs_by(changed_places(t), run.left as int, failed, true, first, now)
    &&& is_cleared_from(changed_places(t), run.left as int, first, now)
}

/// Once every change has its backup, whatever has become of the apply, a rollback can start.
pub proof fn law_rollbacks_can_start<E>(
    run: RunView,
    failed: Set<int>,
    first: Places<E>,
    now: Places<E>,
)
    requires
        run_fits(run),
        is_recoverable(run, failed, first, now),
        all_backed_up(run.transaction),
    ensures
        is_recovering(
            (UndoView {
                transaction: run.transaction,
                backup_root: run.backup_root,
                phase: UndoPhase::Start,
                left: run.transaction.changes.len() as usize,
            }),
            failed,
            first,
            now,
        ),
{
    let spots = changed_places(run.transaction);
    let n = spots.len() as int;
    let stood = run.applied as int;
    assert forall|k: Place| #[trigger]
        is_touched(spots, k) && !is_set_aside(spots, failed, true, first, k) implies {
        &&& !is_touched_by(spots, n, k) ==> standing(now, k) == standing(first, k)
        &&& standing(first, k) is None && !is_changed_by(spots, n, k) ==> standing(now, k) is None
    } by {
        let i = choose|i: int| 0 <= i < spots.len() && within(k, #[trigger] spots[i]);
        assert(is_touched_by(spots, n, k));
        if standing(first, k) is None && !is_changed_by(spots, n, k) {
            assert(!is_set_aside(spots, failed, false, first, k));
            assert(!is_changed_by(spots, stood, k)) by {
                if is_changed_by(spots, stood, k) {
                    let j = choose|j: int|
                        0 <= j < stood && j < spots.len() && k == #[trigger] spots[j];
                    assert(k == spots[j] && j < n);
                }
            }
        }
    }
}

/// A rollback brings back what stood on the host before the apply. When it ends well, the place of
/// every change holds what it held at first, and so does every place within it: nothing is left
/// there that was not there before. All that may stay is what was made within a directory that
/// stood there before: directories on the way to a change within it, and what an action of the
/// apply that failed has left. Changes may lie within each other.
pub proof fn law_rollbacks_restore_the_host<E>(
    run: UndoView,
    action: ApplyActionView,
    outcome: Outcome,
    at: Timestamp,
    failed: Set<int>,
    first: Places<E>,
    before: Places<E>,
    after: Places<E>,
)
    requires
        undo_fits(run),
        undo_awaits(run.phase, outcome),
        undo_asked(run, action),
        is_recovering(run, failed, first, before),
        can_leave(before, action, outcome, after),
    ensures
        undo_asked(undo_step(run, outcome, at).0, undo_step(run, outcome, at).1),
        undo_step(run, outcome, at).1 is Finish || is_recovering(
            undo_step(run, outcome, at).0,
            failed,
            first,
            after,
        ),
        undo_step(run, outcome, at).1 == (ApplyActionView::Finish { failure: None })
            ==> {
            &&& is_brought_back(changed_places(run.transaction), failed, first, after)
            &&& forall|i: int|
                0 <= i < run.transaction.changes.len() ==> standing(
                    after,
                    #[trigger] changed_places(run.transaction)[i],
                ) == standing(first, changed_places(run.transaction)[i])
            &&& undo_step(run, outcome, at).0.transaction.rolled_back_at is Some
        },
        backups_hold(
            undo_step(run, outcome, at).0.transaction,
            run.backup_root,
            first,
            after,
        ),
{
    let t = run.transaction;
    let root = run.backup_root;
    let spots = changed_places(t);
    let next = undo_step(run, outcome, at).0;
    assert(next.transaction.base_root == t.base_root && next.transaction.changes == t.changes
        && next.transaction.backups == t.backups);
    assert(changed_places(next.transaction) =~= spots);
    assert(is_clear_of_backups(next.transaction, root)) by {
        assert forall|i: int| 0 <= i < next.transaction.changes.len() implies are_apart(
            #[trigger] changed_places(next.transaction)[i],
            parts(root),
        ) by {
            assert(are_apart(spots[i], parts(root)));
        }
    }
    if run.phase is File {
        let i = run.left - 1;
        let back = action->Restore_action;
        lemma_restoring(t, root, first, before, i, back);
        lemma_backups_stay(t, root, first, before, after, i);
        if outcome matches Outcome::Done { result: Ok(_) } {
            lemma_restored(t, root, i, failed, true, first, before, back, after);
            lemma_cleared(t, root, i, first, before, back, after);
        }
    }
    lemma_same_backups(t, next.transaction, root, first, after);
    if run.left == 0 {
        lemma_all_taken_back(spots, failed, true, first, before);
        assert forall|i: int| 0 <= i < spots.len() implies (#[trigger] spots[i]).len() > 0 by {
            assert(spots[i].take(spots[i].len() as int) =~= spots[i]);
            assert(within(spots[i], spots[i]));
            lemma_touched_is_clear(t, root, spots[i]);
        }
        lemma_brought_back(spots, failed, first, before);
    }
}

/// Where nothing failed and every directory on the way to a change, within a directory that another
/// one is about, was there before, a rollback leaves every place within those of the changes
/// exactly as it was.
pub proof fn law_orderly_changes_are_restored_whole<E>(
    spots: Seq<Place>,
    first: Places<E>,
    now: Places<E>,
)
    requires
        is_brought_back(spots, Set::empty(), first, now),
        forall|k: Place| #[trigger]
            is_touched(spots, k) && leads_to_a_change(spots, k) && !is_in_a_new_place(
                spots,
                first,
                k,
            ) ==> standing(first, k) is Some,
    ensures
        is_untouched(spots, first, now),
{
    assert forall|k: Place| #[trigger] is_touched(spots, k) implies standing(now, k) == standing(
        first,
        k,
    ) by {
        assert(!may_stay(spots, Set::empty(), first, k));
    }
}

} // verus!
