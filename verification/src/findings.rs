//! What holds of a scan as a whole: what it finds, what it records, and what it passes over.
use vstd::prelude::*;

use crate::clock::Timestamp;
use crate::diff::{
    attribute_bytes, attribute_names, change_ranks, change_text, changes_path, conflict_paths,
    content_bytes, deletion, header_only, host_at, ignores, is_conflict,
    law_host_changes_are_conflicts, layer_change, layer_view, le_bytes, node_digest, node_encoding,
    origin_of, scan, scan_deletion, scan_deletions, scan_layer, sorted_changes, Attribute,
    AttributeView, FileKind, FileText, HostNodeView, LayerEntryView, NodeView, ScanState,
};
use crate::model::{Change, ChangeKind, ChangeView, EnvironmentView, Origin, OriginView};
use crate::order::{
    lemma_distinct_positions, lemma_every_position, lemma_sorted_members, lemma_stable_order_exists,
    pick, sort_positions, sorted_by, Ranked,
};
use crate::path::{is_safe_relative, is_under, parts, same_parts, PathPart};
use crate::plan::{planned, HostFindings};

verus! {

/// Whether a change says how a path of the layer differs from what is on record of the host: a
/// marker of a deletion is one; what the host did not hold was added; what it held as another sort
/// of file changed its type; and all else was modified.
pub open spec fn describes(change: ChangeView, entry: LayerEntryView, record: OriginView) -> bool {
    let node = entry.node;
    let gone = node.kind == FileKind::CharDevice && node.device == 0;
    &&& change.path == entry.path
    &&& change.original_digest == record.digest
    &&& change.kind == ChangeKind::Deleted <==> gone
    &&& !gone ==> (change.kind == ChangeKind::Added <==> !record.existed)
    &&& !gone ==> (change.kind == ChangeKind::Modified <==> record.existed && record.kind == Some(
        node.kind.name(),
    ))
    &&& change.sandbox_digest == if gone {
        None
    } else {
        Some(node_digest(node))
    }
    &&& change.binary <==> node.kind == FileKind::File && (node.content.len() > 2_097_152
        || node.content.contains(0u8) || !vstd::utf8::valid_utf8(node.content))
}

/// Whether a scan has to look at a path of the layer: it is no directory, and lies under none of
/// the ignored paths.
pub open spec fn is_looked_at(environment: EnvironmentView, entry: LayerEntryView) -> bool {
    &&& entry.node.kind != FileKind::Directory
    &&& is_counted(environment, entry.path)
}

/// Whether a path lies under none of the ignored ones.
pub open spec fn is_counted(environment: EnvironmentView, path: Seq<char>) -> bool {
    forall|i: int|
        0 <= i < environment.ignored_paths.len() ==> !is_under(
            path,
            #[trigger] environment.ignored_paths[i],
        )
}

/// Whether later records keep those that were there.
spec fn keeps(before: ScanState, after: ScanState) -> bool {
    &&& before.changes.len() <= after.changes.len()
    &&& forall|k: int|
        0 <= k < before.changes.len() ==> #[trigger] after.changes[k] == before.changes[k]
    &&& forall|key: Seq<PathPart>| #[trigger]
        before.origins.dom().contains(key) ==> after.origins.dom().contains(key)
            && after.origins[key] == before.origins[key]
    &&& after.failure is None ==> before.failure is None
}

proof fn lemma_deletions_keep(
    ignored: Seq<Seq<char>>,
    hosts: Map<Seq<PathPart>, HostNodeView>,
    start: ScanState,
    deleted: Seq<Seq<char>>,
    n: int,
)
    requires
        0 <= n <= deleted.len(),
    ensures
        keeps(
            scan_deletions(ignored, hosts, start, deleted.take(n)),
            scan_deletions(ignored, hosts, start, deleted),
        ),
        keeps(start, scan_deletions(ignored, hosts, start, deleted)),
    decreases deleted.len(),
{
    if deleted.len() == 0 {
        assert(deleted.take(n) =~= deleted);
    } else {
        let shorter = deleted.drop_last();
        if n == deleted.len() {
            assert(deleted.take(n) =~= deleted);
            lemma_deletions_keep(ignored, hosts, start, shorter, 0);
        } else {
            assert(shorter.take(n) =~= deleted.take(n));
            lemma_deletions_keep(ignored, hosts, start, shorter, n);
        }
    }
}

proof fn lemma_layer_lists(
    ignored: Seq<Seq<char>>,
    hosts: Map<Seq<PathPart>, HostNodeView>,
    origins: Map<Seq<PathPart>, OriginView>,
    paths: Map<Seq<PathPart>, Seq<char>>,
    entries: Seq<LayerEntryView>,
    i: int,
) -> (k: int)
    requires
        0 <= i < entries.len(),
        scan_layer(ignored, hosts, origins, paths, entries).failure is None,
    ensures
        is_safe_relative(entries[i].path),
        entries[i].node.kind != FileKind::Directory && !ignores(ignored, entries[i].path) ==> ({
            let state = scan_layer(ignored, hosts, origins, paths, entries);
            &&& 0 <= k < state.changes.len()
            &&& state.origins.dom().contains(parts(entries[i].path))
            &&& state.changes[k] == layer_change(
                state.origins[parts(entries[i].path)],
                entries[i],
            )
        }),
    decreases entries.len(),
{
    let shorter = entries.drop_last();
    let before = scan_layer(ignored, hosts, origins, paths, shorter);
    let after = scan_layer(ignored, hosts, origins, paths, entries);
    assert(before.failure is None);
    if i == entries.len() - 1 {
        after.changes.len() - 1
    } else {
        assert(shorter[i] == entries[i]);
        lemma_layer_lists(ignored, hosts, origins, paths, shorter, i)
    }
}

proof fn lemma_layer_source(
    ignored: Seq<Seq<char>>,
    hosts: Map<Seq<PathPart>, HostNodeView>,
    origins: Map<Seq<PathPart>, OriginView>,
    paths: Map<Seq<PathPart>, Seq<char>>,
    entries: Seq<LayerEntryView>,
    k: int,
) -> (i: int)
    requires
        0 <= k < scan_layer(ignored, hosts, origins, paths, entries).changes.len(),
    ensures
        0 <= i < entries.len(),
        entries[i].node.kind != FileKind::Directory,
        !ignores(ignored, entries[i].path),
        ({
            let state = scan_layer(ignored, hosts, origins, paths, entries);
            &&& state.origins.dom().contains(parts(entries[i].path))
            &&& state.changes[k] == layer_change(
                state.origins[parts(entries[i].path)],
                entries[i],
            )
        }),
    decreases entries.len(),
{
    let shorter = entries.drop_last();
    let before = scan_layer(ignored, hosts, origins, paths, shorter);
    if k < before.changes.len() {
        let i = lemma_layer_source(ignored, hosts, origins, paths, shorter, k);
        assert(shorter[i] == entries[i]);
        i
    } else {
        entries.len() - 1
    }
}

proof fn lemma_listed(changes: Seq<ChangeView>, k: int) -> (j: int)
    requires
        0 <= k < changes.len(),
    ensures
        0 <= j < sorted_changes(changes).len(),
        sorted_changes(changes)[j] == changes[k],
{
    lemma_sorted_members::<Change, ChangeView>(change_ranks(changes), changes);
    assert(changes.contains(changes[k]));
    assert(sorted_changes(changes).contains(changes[k]));
    choose|j: int|
        0 <= j < sorted_changes(changes).len() && sorted_changes(changes)[j] == changes[k]
}

/// A scan that does not fail lists a change for each path of the layer that is no directory and
/// lies under none of the ignored paths, and the change says how the path differs from what is on
/// record of the host.
pub proof fn law_scans_find_every_path_of_the_layer(
    environment: EnvironmentView,
    entries: Seq<LayerEntryView>,
    hosts: Map<Seq<PathPart>, HostNodeView>,
    i: int,
)
    requires
        0 <= i < entries.len(),
        scan(environment, Some(entries), hosts).failure is None,
        is_looked_at(environment, entries[i]),
    ensures
        ({
            let state = scan(environment, Some(entries), hosts);
            &&& state.origins.dom().contains(parts(entries[i].path))
            &&& exists|j: int|
                0 <= j < sorted_changes(state.changes).len() && describes(
                    #[trigger] sorted_changes(state.changes)[j],
                    entries[i],
                    state.origins[parts(entries[i].path)],
                )
        }),
{
    let ignored = environment.ignored_paths;
    let first = scan_layer(ignored, hosts, environment.origins, environment.origin_paths, entries);
    let state = scan(environment, Some(entries), hosts);
    lemma_deletions_keep(ignored, hosts, first, environment.deleted_paths, 0);
    assert(!ignores(ignored, entries[i].path));
    let k = lemma_layer_lists(
        ignored,
        hosts,
        environment.origins,
        environment.origin_paths,
        entries,
        i,
    );
    assert(state.changes[k] == first.changes[k]);
    let j = lemma_listed(state.changes, k);
    assert(describes(
        sorted_changes(state.changes)[j],
        entries[i],
        state.origins[parts(entries[i].path)],
    ));
}

/// A scan that does not fail lists each staged deletion of what the host held, unless its path is
/// ignored: there is a change at its path, and it is a deletion unless the layer holds something
/// there.
pub proof fn law_scans_find_every_deletion(
    environment: EnvironmentView,
    entries: Seq<LayerEntryView>,
    hosts: Map<Seq<PathPart>, HostNodeView>,
    i: int,
)
    requires
        0 <= i < environment.deleted_paths.len(),
        scan(environment, Some(entries), hosts).failure is None,
        is_counted(environment, environment.deleted_paths[i]),
    ensures
        ({
            let path = environment.deleted_paths[i];
            let state = scan(environment, Some(entries), hosts);
            &&& state.origins.dom().contains(parts(path))
            &&& state.origins[parts(path)].existed ==> exists|j: int|
                0 <= j < sorted_changes(state.changes).len() && is_deleted_or_held(
                    entries,
                    #[trigger] sorted_changes(state.changes)[j],
                    path,
                )
        }),
{
    let state = scan(environment, Some(entries), hosts);
    let path = environment.deleted_paths[i];
    let k = lemma_deletion_is_taken(environment, entries, hosts, i);
    if state.origins[parts(path)].existed {
        let j = lemma_listed(state.changes, k);
        assert(is_deleted_or_held(entries, sorted_changes(state.changes)[j], path));
    }
}

proof fn lemma_deletion_is_taken(
    environment: EnvironmentView,
    entries: Seq<LayerEntryView>,
    hosts: Map<Seq<PathPart>, HostNodeView>,
    i: int,
) -> (k: int)
    requires
        0 <= i < environment.deleted_paths.len(),
        scan(environment, Some(entries), hosts).failure is None,
        is_counted(environment, environment.deleted_paths[i]),
    ensures
        ({
            let path = environment.deleted_paths[i];
            let state = scan(environment, Some(entries), hosts);
            &&& state.origins.dom().contains(parts(path))
            &&& state.origins[parts(path)].existed ==> 0 <= k < state.changes.len()
                && is_deleted_or_held(entries, state.changes[k], path)
        }),
{
    let ignored = environment.ignored_paths;
    let deleted = environment.deleted_paths;
    let path = deleted[i];
    let first = scan_layer(ignored, hosts, environment.origins, environment.origin_paths, entries);
    let state = scan_deletions(ignored, hosts, first, deleted);
    let before = scan_deletions(ignored, hosts, first, deleted.take(i));
    let after = scan_deletions(ignored, hosts, first, deleted.take(i + 1));
    assert(deleted.take(i + 1).drop_last() =~= deleted.take(i));
    assert(deleted.take(i + 1).last() == path);
    assert(after == scan_deletion(ignored, hosts, before, path));
    lemma_deletions_keep_one(ignored, hosts, first, deleted, i + 1, parts(path));
    assert(!ignores(ignored, path));
    if changes_path(before.changes, path) {
        let k = choose|k: int|
            0 <= k < before.changes.len() && same_parts((#[trigger] before.changes[k]).path, path);
        lemma_deletion_or_layer(environment, entries, hosts, i, k);
        lemma_deletions_keep_one(ignored, hosts, first, deleted, i, parts(path));
        assert(state.changes[k] == before.changes[k]);
        k
    } else {
        lemma_one_deletion(ignored, hosts, before, path);
        after.changes.len() - 1
    }
}

proof fn lemma_one_deletion(
    ignored: Seq<Seq<char>>,
    hosts: Map<Seq<PathPart>, HostNodeView>,
    before: ScanState,
    path: Seq<char>,
)
    requires
        scan_deletion(ignored, hosts, before, path).failure is None,
        !ignores(ignored, path),
        !changes_path(before.changes, path),
    ensures
        ({
            let after = scan_deletion(ignored, hosts, before, path);
            &&& after.origins.dom().contains(parts(path))
            &&& after.origins[parts(path)].existed ==> after.changes.len() > 0
                && after.changes.last().path == path && after.changes.last().kind
                == ChangeKind::Deleted
        }),
{
}

proof fn lemma_deletions_keep_one(
    ignored: Seq<Seq<char>>,
    hosts: Map<Seq<PathPart>, HostNodeView>,
    start: ScanState,
    deleted: Seq<Seq<char>>,
    n: int,
    key: Seq<PathPart>,
)
    requires
        0 <= n <= deleted.len(),
    ensures
        ({
            let before = scan_deletions(ignored, hosts, start, deleted.take(n));
            let after = scan_deletions(ignored, hosts, start, deleted);
            &&& after.failure is None ==> before.failure is None
            &&& before.changes.len() <= after.changes.len()
            &&& before.changes == after.changes.take(before.changes.len() as int)
            &&& before.origins.dom().contains(key) ==> after.origins.dom().contains(key)
                && after.origins[key] == before.origins[key]
        }),
{
    lemma_deletions_keep(ignored, hosts, start, deleted, n);
    let before = scan_deletions(ignored, hosts, start, deleted.take(n));
    let after = scan_deletions(ignored, hosts, start, deleted);
    assert(before.changes =~= after.changes.take(before.changes.len() as int));
}

/// Whether a change is about a path, and deletes it or is that of a path of the layer.
pub open spec fn is_deleted_or_held(
    entries: Seq<LayerEntryView>,
    change: ChangeView,
    path: Seq<char>,
) -> bool {
    &&& same_parts(change.path, path)
    &&& change.kind == ChangeKind::Deleted || exists|e: int|
        0 <= e < entries.len() && same_parts((#[trigger] entries[e]).path, path)
}

proof fn lemma_deletion_or_layer(
    environment: EnvironmentView,
    entries: Seq<LayerEntryView>,
    hosts: Map<Seq<PathPart>, HostNodeView>,
    n: int,
    k: int,
)
    requires
        0 <= n <= environment.deleted_paths.len(),
        ({
            let first = scan_layer(
                environment.ignored_paths,
                hosts,
                environment.origins,
                environment.origin_paths,
                entries,
            );
            0 <= k < scan_deletions(
                environment.ignored_paths,
                hosts,
                first,
                environment.deleted_paths.take(n),
            ).changes.len()
        }),
    ensures
        ({
            let first = scan_layer(
                environment.ignored_paths,
                hosts,
                environment.origins,
                environment.origin_paths,
                entries,
            );
            let state = scan_deletions(
                environment.ignored_paths,
                hosts,
                first,
                environment.deleted_paths.take(n),
            );
            let change = state.changes[k];
            &&& state.origins.dom().contains(parts(change.path))
            &&& k < first.changes.len() ==> change == first.changes[k]
            &&& k >= first.changes.len() ==> exists|d: int|
                0 <= d < n && !ignores(
                    environment.ignored_paths,
                    #[trigger] environment.deleted_paths[d],
                ) && state.origins.dom().contains(parts(environment.deleted_paths[d]))
                    && state.origins[parts(environment.deleted_paths[d])].existed && change
                    == deletion(
                    state.origins[parts(environment.deleted_paths[d])],
                    environment.deleted_paths[d],
                ) && !changes_path(first.changes, environment.deleted_paths[d])
            &&& change.kind == ChangeKind::Deleted || exists|e: int|
                0 <= e < entries.len() && (#[trigger] entries[e]).path == change.path
        }),
    decreases n,
{
    let ignored = environment.ignored_paths;
    let deleted = environment.deleted_paths;
    let first = scan_layer(ignored, hosts, environment.origins, environment.origin_paths, entries);
    let state = scan_deletions(ignored, hosts, first, deleted.take(n));
    if n == 0 {
        assert(deleted.take(0) =~= Seq::<Seq<char>>::empty());
    } else {
        assert(deleted.take(n).drop_last() =~= deleted.take(n - 1));
        let before = scan_deletions(ignored, hosts, first, deleted.take(n - 1));
        assert(state == scan_deletion(ignored, hosts, before, deleted[n - 1]));
        if k < before.changes.len() {
            lemma_deletion_or_layer(environment, entries, hosts, n - 1, k);
            if k >= first.changes.len() {
                let d = choose|d: int|
                    0 <= d < n - 1 && !ignores(ignored, #[trigger] deleted[d])
                        && before.origins.dom().contains(parts(deleted[d]))
                        && before.origins[parts(deleted[d])].existed && before.changes[k]
                        == deletion(before.origins[parts(deleted[d])], deleted[d])
                        && !changes_path(first.changes, deleted[d]);
                assert(!ignores(ignored, deleted[d]));
                assert(state.origins[parts(deleted[d])] == before.origins[parts(deleted[d])]);
            }
        } else {
            lemma_deletions_keep(ignored, hosts, first, deleted.take(n - 1), 0);
            assert(!changes_path(first.changes, deleted[n - 1])) by {
                if changes_path(first.changes, deleted[n - 1]) {
                    let c = choose|c: int|
                        0 <= c < first.changes.len() && same_parts(
                            (#[trigger] first.changes[c]).path,
                            deleted[n - 1],
                        );
                    assert(before.changes[c] == first.changes[c]);
                    assert(changes_path(before.changes, deleted[n - 1]));
                }
            }
            assert(!ignores(ignored, deleted[n - 1]));
        }
    }
    if k < first.changes.len() {
        let e = lemma_layer_source(
            ignored,
            hosts,
            environment.origins,
            environment.origin_paths,
            entries,
            k,
        );
        assert(entries[e].path == first.changes[k].path);
        lemma_deletions_keep(ignored, hosts, first, deleted.take(n), 0);
    }
}

/// Whether a change is that of a path of the layer.
pub open spec fn comes_from_layer(
    environment: EnvironmentView,
    entries: Seq<LayerEntryView>,
    state: ScanState,
    change: ChangeView,
) -> bool {
    exists|i: int|
        0 <= i < entries.len() && is_looked_at(environment, #[trigger] entries[i])
            && state.origins.dom().contains(parts(entries[i].path)) && describes(
            change,
            entries[i],
            state.origins[parts(entries[i].path)],
        )
}

/// Whether a change is a staged deletion of what the host held at a path that the layer does not
/// hold anything at.
pub open spec fn comes_from_deletion(
    environment: EnvironmentView,
    entries: Seq<LayerEntryView>,
    state: ScanState,
    change: ChangeView,
) -> bool {
    &&& environment.deleted_paths.contains(change.path)
    &&& is_counted(environment, change.path)
    &&& state.origins.dom().contains(parts(change.path))
    &&& state.origins[parts(change.path)].existed
    &&& change.kind == ChangeKind::Deleted
    &&& change.original_digest == state.origins[parts(change.path)].digest
    &&& change.sandbox_digest is None
    &&& !change.binary
    &&& forall|i: int|
        0 <= i < entries.len() && is_looked_at(environment, #[trigger] entries[i]) ==> !same_parts(
            entries[i].path,
            change.path,
        )
}

/// A scan lists nothing but what stands in the layer, and the staged deletions of what the host
/// held.
pub proof fn law_scans_find_nothing_else(
    environment: EnvironmentView,
    entries: Seq<LayerEntryView>,
    hosts: Map<Seq<PathPart>, HostNodeView>,
    j: int,
)
    requires
        0 <= j < sorted_changes(scan(environment, Some(entries), hosts).changes).len(),
        scan(environment, Some(entries), hosts).failure is None,
    ensures
        ({
            let state = scan(environment, Some(entries), hosts);
            let change = sorted_changes(state.changes)[j];
            comes_from_layer(environment, entries, state, change) || comes_from_deletion(
                environment,
                entries,
                state,
                change,
            )
        }),
{
    let ignored = environment.ignored_paths;
    let deleted = environment.deleted_paths;
    let first = scan_layer(ignored, hosts, environment.origins, environment.origin_paths, entries);
    let state = scan(environment, Some(entries), hosts);
    lemma_sorted_members::<Change, ChangeView>(change_ranks(state.changes), state.changes);
    let change = sorted_changes(state.changes)[j];
    assert(state.changes.contains(change));
    let k = choose|k: int| 0 <= k < state.changes.len() && state.changes[k] == change;
    assert(deleted.take(deleted.len() as int) =~= deleted);
    lemma_deletion_or_layer(environment, entries, hosts, deleted.len() as int, k);
    lemma_deletions_keep(ignored, hosts, first, deleted, 0);
    if k < first.changes.len() {
        let i = lemma_layer_source(
            ignored,
            hosts,
            environment.origins,
            environment.origin_paths,
            entries,
            k,
        );
        assert(is_looked_at(environment, entries[i]));
        assert(describes(change, entries[i], state.origins[parts(entries[i].path)]));
    } else {
        let d = choose|d: int|
            0 <= d < deleted.len() && !ignores(ignored, #[trigger] deleted[d])
                && state.origins.dom().contains(parts(deleted[d]))
                && state.origins[parts(deleted[d])].existed && change == deletion(
                state.origins[parts(deleted[d])],
                deleted[d],
            ) && !changes_path(first.changes, deleted[d]);
        assert(deleted.contains(deleted[d]));
        assert forall|i: int|
            0 <= i < entries.len() && is_looked_at(
                environment,
                #[trigger] entries[i],
            ) implies !same_parts(entries[i].path, change.path) by {
            let c = lemma_layer_lists(
                ignored,
                hosts,
                environment.origins,
                environment.origin_paths,
                entries,
                i,
            );
            assert(!ignores(ignored, entries[i].path));
            if same_parts(entries[i].path, change.path) {
                assert(same_parts(first.changes[c].path, deleted[d]));
            }
        }
    }
}

/// A record that a scan makes says what the host held then: nothing where nothing stood, and else
/// what sort of file it was and its digest. A record that was there stays.
pub proof fn law_records_say_what_the_host_held(
    environment: EnvironmentView,
    layer: Option<Seq<LayerEntryView>>,
    hosts: Map<Seq<PathPart>, HostNodeView>,
    path: Seq<char>,
)
    requires
        scan(environment, layer, hosts).origins.dom().contains(parts(path)),
    ensures
        ({
            let record = scan(environment, layer, hosts).origins[parts(path)];
            if environment.origins.dom().contains(parts(path)) {
                record == environment.origins[parts(path)]
            } else if !hosts.dom().contains(parts(path)) {
                !record.existed && record.kind is None && record.digest is None
            } else {
                match hosts[parts(path)] {
                    HostNodeView::Missing => !record.existed && record.kind is None
                        && record.digest is None,
                    HostNodeView::Present(node) => record.existed && record.kind == Some(
                        node.kind.name(),
                    ) && record.digest == Some(node_digest(node)),
                    HostNodeView::Unreadable(_) => !record.existed,
                }
            }
        }),
{
    if let Some(entries) = layer {
        let ignored = environment.ignored_paths;
        let first = scan_layer(
            ignored,
            hosts,
            environment.origins,
            environment.origin_paths,
            entries,
        );
        lemma_layer_records(
            ignored,
            hosts,
            environment.origins,
            environment.origin_paths,
            entries,
            path,
        );
        lemma_deletion_records(
            ignored,
            hosts,
            environment.origins,
            first,
            environment.deleted_paths,
            path,
        );
    }
}

spec fn is_recorded(
    hosts: Map<Seq<PathPart>, HostNodeView>,
    origins: Map<Seq<PathPart>, OriginView>,
    state: ScanState,
    path: Seq<char>,
) -> bool {
    &&& origins.dom().contains(parts(path)) ==> state.origins.dom().contains(parts(path))
        && state.origins[parts(path)] == origins[parts(path)]
    &&& state.origins.dom().contains(parts(path)) && !origins.dom().contains(parts(path))
        ==> state.origins[parts(path)] == match origin_of(host_at(hosts, path)) {
        Ok(origin) => origin,
        Err(_) => Origin::nothing(),
    }
}

proof fn lemma_layer_records(
    ignored: Seq<Seq<char>>,
    hosts: Map<Seq<PathPart>, HostNodeView>,
    origins: Map<Seq<PathPart>, OriginView>,
    paths: Map<Seq<PathPart>, Seq<char>>,
    entries: Seq<LayerEntryView>,
    path: Seq<char>,
)
    ensures
        is_recorded(
            hosts,
            origins,
            scan_layer(ignored, hosts, origins, paths, entries),
            path,
        ),
    decreases entries.len(),
{
    if entries.len() > 0 {
        lemma_layer_records(ignored, hosts, origins, paths, entries.drop_last(), path);
    }
}

proof fn lemma_deletion_records(
    ignored: Seq<Seq<char>>,
    hosts: Map<Seq<PathPart>, HostNodeView>,
    origins: Map<Seq<PathPart>, OriginView>,
    start: ScanState,
    deleted: Seq<Seq<char>>,
    path: Seq<char>,
)
    requires
        is_recorded(hosts, origins, start, path),
    ensures
        is_recorded(hosts, origins, scan_deletions(ignored, hosts, start, deleted), path),
    decreases deleted.len(),
{
    if deleted.len() > 0 {
        lemma_deletion_records(ignored, hosts, origins, start, deleted.drop_last(), path);
    }
}

/// A scan fails only on a path of the layer or a staged deletion that leads out of the base root,
/// or on a staged deletion of what cannot be read. On a path that leads out it always does.
pub proof fn law_scans_fail_on_what_leads_out(
    environment: EnvironmentView,
    entries: Seq<LayerEntryView>,
    hosts: Map<Seq<PathPart>, HostNodeView>,
)
    ensures
        (forall|i: int| 0 <= i < entries.len() ==> is_safe_relative((#[trigger] entries[i]).path))
            && (forall|i: int|
            0 <= i < environment.deleted_paths.len() ==> is_safe_relative(
                #[trigger] environment.deleted_paths[i],
            ) && !(host_at(hosts, environment.deleted_paths[i]) is Unreadable)) ==> scan(
            environment,
            Some(entries),
            hosts,
        ).failure is None,
        scan(environment, Some(entries), hosts).failure is None ==> (forall|i: int|
            0 <= i < entries.len() ==> is_safe_relative((#[trigger] entries[i]).path)) && (forall|
            i: int,
        |
            0 <= i < environment.deleted_paths.len() ==> is_safe_relative(
                #[trigger] environment.deleted_paths[i],
            )),
        scan(environment, None, hosts).failure is None && scan(environment, None, hosts).changes.len()
            == 0,
{
    let ignored = environment.ignored_paths;
    let deleted = environment.deleted_paths;
    let first = scan_layer(ignored, hosts, environment.origins, environment.origin_paths, entries);
    let state = scan(environment, Some(entries), hosts);
    if state.failure is None {
        lemma_deletions_keep(ignored, hosts, first, deleted, 0);
        assert forall|i: int| 0 <= i < entries.len() implies is_safe_relative(
            (#[trigger] entries[i]).path,
        ) by {
            lemma_layer_lists(
                ignored,
                hosts,
                environment.origins,
                environment.origin_paths,
                entries,
                i,
            );
        }
        assert forall|i: int| 0 <= i < deleted.len() implies is_safe_relative(
            #[trigger] deleted[i],
        ) by {
            assert(deleted.take(i + 1).drop_last() =~= deleted.take(i));
            lemma_deletions_keep(ignored, hosts, first, deleted, i + 1);
            lemma_deletions_keep(ignored, hosts, first, deleted, i);
        }
    }
    if (forall|i: int| 0 <= i < entries.len() ==> is_safe_relative((#[trigger] entries[i]).path))
        && (forall|i: int|
        0 <= i < deleted.len() ==> is_safe_relative(#[trigger] deleted[i]) && !(host_at(
            hosts,
            deleted[i],
        ) is Unreadable)) {
        lemma_layer_passes(
            ignored,
            hosts,
            environment.origins,
            environment.origin_paths,
            entries,
        );
        lemma_deletions_pass(ignored, hosts, first, deleted);
    }
}

proof fn lemma_layer_passes(
    ignored: Seq<Seq<char>>,
    hosts: Map<Seq<PathPart>, HostNodeView>,
    origins: Map<Seq<PathPart>, OriginView>,
    paths: Map<Seq<PathPart>, Seq<char>>,
    entries: Seq<LayerEntryView>,
)
    requires
        forall|i: int| 0 <= i < entries.len() ==> is_safe_relative((#[trigger] entries[i]).path),
    ensures
        scan_layer(ignored, hosts, origins, paths, entries).failure is None,
    decreases entries.len(),
{
    if entries.len() > 0 {
        let shorter = entries.drop_last();
        assert forall|i: int| 0 <= i < shorter.len() implies is_safe_relative(
            (#[trigger] shorter[i]).path,
        ) by {
            assert(shorter[i] == entries[i]);
        }
        lemma_layer_passes(ignored, hosts, origins, paths, shorter);
        assert(is_safe_relative(entries[entries.len() - 1].path));
    }
}

proof fn lemma_deletions_pass(
    ignored: Seq<Seq<char>>,
    hosts: Map<Seq<PathPart>, HostNodeView>,
    start: ScanState,
    deleted: Seq<Seq<char>>,
)
    requires
        start.failure is None,
        forall|i: int|
            0 <= i < deleted.len() ==> is_safe_relative(#[trigger] deleted[i]) && !(host_at(
                hosts,
                deleted[i],
            ) is Unreadable),
    ensures
        scan_deletions(ignored, hosts, start, deleted).failure is None,
    decreases deleted.len(),
{
    if deleted.len() > 0 {
        let shorter = deleted.drop_last();
        assert forall|i: int| 0 <= i < shorter.len() implies is_safe_relative(
            #[trigger] shorter[i],
        ) && !(host_at(hosts, shorter[i]) is Unreadable) by {
            assert(shorter[i] == deleted[i]);
        }
        lemma_deletions_pass(ignored, hosts, start, shorter);
        assert(is_safe_relative(deleted[deleted.len() - 1]));
    }
}

/// The conflicts are exactly the paths of the changes at which the host can be read and holds
/// something other than what is on record: something where nothing was, nothing where something
/// was, or another sort of file or another digest.
pub proof fn law_conflicts_are_what_changed_since(
    origins: Map<Seq<PathPart>, OriginView>,
    hosts: Map<Seq<PathPart>, HostNodeView>,
    changes: Seq<ChangeView>,
    path: Seq<char>,
)
    ensures
        conflict_paths(origins, hosts, changes).contains(path) <==> exists|i: int|
            0 <= i < changes.len() && (#[trigger] changes[i]).path == path && differs_since(
                origins,
                hosts,
                path,
            ),
{
    if conflict_paths(origins, hosts, changes).contains(path) {
        let k = choose|k: int|
            0 <= k < conflict_paths(origins, hosts, changes).len() && conflict_paths(
                origins,
                hosts,
                changes,
            )[k] == path;
        let i = lemma_conflict_source(origins, hosts, changes, k);
        assert(changes[i].path == path);
    }
    if exists|i: int|
        0 <= i < changes.len() && (#[trigger] changes[i]).path == path && differs_since(
            origins,
            hosts,
            path,
        ) {
        let i = choose|i: int|
            0 <= i < changes.len() && (#[trigger] changes[i]).path == path && differs_since(
                origins,
                hosts,
                path,
            );
        assert(is_conflict(origins, hosts, path));
        law_host_changes_are_conflicts(origins, hosts, changes, i);
    }
}

/// Whether a path is on record, can be read, and no longer holds what is on record.
pub open spec fn differs_since(
    origins: Map<Seq<PathPart>, OriginView>,
    hosts: Map<Seq<PathPart>, HostNodeView>,
    path: Seq<char>,
) -> bool {
    let key = parts(path);
    &&& origins.dom().contains(key)
    &&& if hosts.dom().contains(key) && hosts[key] is Unreadable {
        false
    } else if hosts.dom().contains(key) && hosts[key] is Present {
        !origins[key].existed || origins[key].kind != Some(hosts[key]->Present_0.kind.name())
            || origins[key].digest != Some(node_digest(hosts[key]->Present_0))
    } else {
        origins[key].existed || origins[key].kind is Some || origins[key].digest is Some
    }
}

proof fn lemma_conflict_source(
    origins: Map<Seq<PathPart>, OriginView>,
    hosts: Map<Seq<PathPart>, HostNodeView>,
    changes: Seq<ChangeView>,
    k: int,
) -> (i: int)
    requires
        0 <= k < conflict_paths(origins, hosts, changes).len(),
    ensures
        0 <= i < changes.len(),
        changes[i].path == conflict_paths(origins, hosts, changes)[k],
        is_conflict(origins, hosts, changes[i].path),
    decreases changes.len(),
{
    let shorter = changes.drop_last();
    if k < conflict_paths(origins, hosts, shorter).len() {
        let i = lemma_conflict_source(origins, hosts, shorter, k);
        assert(shorter[i] == changes[i]);
        i
    } else {
        changes.len() - 1
    }
}

/// Changes are listed by path: what comes first stands no later in the order of paths, and a
/// directory before all that lies in it.
pub proof fn law_changes_are_in_the_order_of_their_paths(
    changes: Seq<ChangeView>,
    i: int,
    j: int,
)
    requires
        0 <= i < j < sorted_changes(changes).len(),
    ensures
        sorted_changes(changes).len() == changes.len(),
        ({
            let a = parts(sorted_changes(changes)[i].path);
            let b = parts(sorted_changes(changes)[j].path);
            !(b.len() < a.len() && b == a.take(b.len() as int))
        }),
{
    let ranks = change_ranks(changes);
    lemma_stable_order_exists::<Change>(ranks);
    let p = sort_positions::<Change>(ranks);
    let a = parts(sorted_changes(changes)[i].path);
    let b = parts(sorted_changes(changes)[j].path);
    assert(crate::order::comes_first::<Change>(ranks, p[i], p[j]));
    if b.len() < a.len() && b == a.take(b.len() as int) {
        lemma_prefix_is_not_after(a, b);
    }
}

proof fn lemma_prefix_is_not_after(a: Seq<PathPart>, b: Seq<PathPart>)
    requires
        b.len() < a.len(),
        b == a.take(b.len() as int),
    ensures
        !Change::rank_before(a, b),
{
    crate::order::lemma_lex_common(crate::path::part_order(), a, b, b.len() as int);
}

/// What is shown of a change depends on no more than has to be: of what is no text, or is gone on
/// both sides, on neither file; of a deletion, not on what the layer holds. A text that did not
/// change is shown by its header alone, and a file that cannot be read is an error.
pub proof fn law_shown_changes_read_what_they_show(
    base_root: Seq<char>,
    upper: Seq<char>,
    change: ChangeView,
    host: FileText,
    other_host: FileText,
    sandbox: FileText,
    other_sandbox: FileText,
)
    ensures
        change.binary ==> change_text(base_root, upper, change, host, sandbox) == change_text(
            base_root,
            upper,
            change,
            other_host,
            other_sandbox,
        ) && change_text(base_root, upper, change, host, sandbox) is Ok,
        change.kind == ChangeKind::Deleted ==> change_text(base_root, upper, change, host, sandbox)
            == change_text(base_root, upper, change, host, other_sandbox),
        !header_only(change) && host is Failed ==> change_text(
            base_root,
            upper,
            change,
            host,
            sandbox,
        ) is Err,
        !header_only(change) && sandbox is Failed && change.kind != ChangeKind::Deleted
            ==> change_text(base_root, upper, change, host, sandbox) is Err,
        host is NotAFile && sandbox is NotAFile ==> change_text(
            base_root,
            upper,
            change,
            host,
            sandbox,
        ) == Ok::<Seq<char>, Seq<char>>(change.kind.name() + " "@ + change.path + "\n"@),
        change.kind != ChangeKind::Deleted && (host matches FileText::Content(a) && sandbox
            matches FileText::Content(b) && a@ == b@ && a@.len() <= 2_097_152
            && vstd::utf8::valid_utf8(a@)) ==> change_text(base_root, upper, change, host, sandbox)
            == Ok::<Seq<char>, Seq<char>>(change.kind.name() + " "@ + change.path + "\n"@),
        !change.binary && change.kind != ChangeKind::Deleted && (host matches FileText::Content(a)
            && sandbox matches FileText::Content(b) && vstd::utf8::decode_utf8(a@)
            != vstd::utf8::decode_utf8(b@) && a@.len() <= 2_097_152 && b@.len() <= 2_097_152
            && vstd::utf8::valid_utf8(a@) && vstd::utf8::valid_utf8(b@)) ==> change_text(
            base_root,
            upper,
            change,
            host,
            sandbox,
        ) == Ok::<Seq<char>, Seq<char>>(
            change.kind.name() + " "@ + change.path + "\n"@ + crate::encoding::unified_text(
                vstd::utf8::decode_utf8(host->Content_0@),
                vstd::utf8::decode_utf8(sandbox->Content_0@),
                "host/"@ + change.path,
                "sandbox/"@ + change.path,
            ),
        ),
{
}

/// What is digested of a path tells apart all that the digest is for: paths with the same sort of
/// file and the same attributes are digested as different bytes wherever they differ in mode,
/// owner, group or, for files and links, in their content.
pub proof fn law_digested_bytes_tell_apart(a: NodeView, b: NodeView)
    requires
        node_encoding(a) == node_encoding(b),
        a.kind == b.kind,
        a.attributes == b.attributes,
    ensures
        a.mode == b.mode,
        a.uid == b.uid,
        a.gid == b.gid,
        a.kind == FileKind::File || a.kind == FileKind::Symlink ==> a.content == b.content,
{
    let tail = attribute_bytes(
        sorted_by::<Attribute, AttributeView>(
            attribute_names(a.attributes),
            a.attributes,
        ),
    );
    let x = node_encoding(a);
    let y = node_encoding(b);
    lemma_word(a.mode, b.mode, x, y, 0);
    lemma_word(a.uid, b.uid, x, y, 4);
    lemma_word(a.gid, b.gid, x, y, 8);
    let p = content_bytes(a);
    let q = content_bytes(b);
    assert(x.len() == 12 + p.len() + tail.len());
    assert(y.len() == 12 + q.len() + tail.len());
    assert(x.subrange(12, (12 + p.len()) as int) =~= p);
    assert(y.subrange(12, (12 + q.len()) as int) =~= q);
    if a.kind == FileKind::File || a.kind == FileKind::Symlink {
        let mark = if a.kind == FileKind::File {
            vstd::utf8::encode_utf8("file\0"@)
        } else {
            vstd::utf8::encode_utf8("symlink\0"@)
        };
        assert(p.skip(mark.len() as int) =~= a.content);
        assert(q.skip(mark.len() as int) =~= b.content);
    }
}

proof fn lemma_word(a: u32, b: u32, x: Seq<u8>, y: Seq<u8>, at: int)
    requires
        x == y,
        0 <= at,
        at + 4 <= x.len(),
        forall|i: int| 0 <= i < 4 ==> x[at + i] == #[trigger] le_bytes(a)[i],
        forall|i: int| 0 <= i < 4 ==> y[at + i] == #[trigger] le_bytes(b)[i],
    ensures
        a == b,
{
    assert(le_bytes(a)[0] == le_bytes(b)[0]);
    assert(le_bytes(a)[1] == le_bytes(b)[1]);
    assert(le_bytes(a)[2] == le_bytes(b)[2]);
    assert(le_bytes(a)[3] == le_bytes(b)[3]);
    assert(a % 256 == b % 256);
    assert(a / 256 % 256 == b / 256 % 256);
    assert(a / 65_536 % 256 == b / 65_536 % 256);
    assert(a / 16_777_216 == b / 16_777_216);
}

/// A plan lists what a scan finds and nothing else, and its conflicts are exactly the paths of its
/// changes at which the host no longer holds what is on record. A scan that fails ends the plan.
pub proof fn law_plans_list_what_scans_find(
    environment: EnvironmentView,
    findings: HostFindings,
    trial: bool,
    now: Timestamp,
    path: Seq<char>,
)
    ensures
        ({
            let state = scan(environment, layer_view(findings.layer), findings.table@);
            let (after, made) = planned(environment, findings, trial, now);
            &&& after.origins == state.origins
            &&& after.origin_paths == state.paths
            &&& state.failure is Some ==> made is Err
            &&& made matches Ok(plan) ==> state.failure is None && plan.changes == sorted_changes(
                state.changes,
            ) && (plan.conflicts.contains(path) <==> exists|i: int|
                0 <= i < plan.changes.len() && (#[trigger] plan.changes[i]).path == path
                    && differs_since(state.origins, findings.table@, path))
        }),
{
    let state = scan(environment, layer_view(findings.layer), findings.table@);
    law_conflicts_are_what_changed_since(
        state.origins,
        findings.table@,
        sorted_changes(state.changes),
        path,
    );
}

/// What an attribute is digested as holding; one that vanished holds nothing.
pub open spec fn held_by(attribute: AttributeView) -> Seq<u8> {
    match attribute.value {
        Some(value) => value,
        None => Seq::empty(),
    }
}

/// Whether attributes have the same names, in order, and values of the same lengths.
pub open spec fn are_alike(a: Seq<AttributeView>, b: Seq<AttributeView>) -> bool {
    &&& a.len() == b.len()
    &&& forall|i: int|
        0 <= i < a.len() ==> (#[trigger] a[i]).name == b[i].name && held_by(a[i]).len() == held_by(
            b[i],
        ).len()
}

/// What is digested of a path tells attributes apart: paths whose attributes have the same names,
/// with values of the same lengths, are digested as different bytes wherever a value differs.
pub proof fn law_digested_bytes_tell_attributes_apart(a: NodeView, b: NodeView, i: int)
    requires
        node_encoding(a) == node_encoding(b),
        a.kind == b.kind,
        a.content.len() == b.content.len(),
        are_alike(a.attributes, b.attributes),
        0 <= i < a.attributes.len(),
    ensures
        held_by(a.attributes[i]) == held_by(b.attributes[i]),
{
    let names = attribute_names(a.attributes);
    assert(names =~= attribute_names(b.attributes));
    lemma_stable_order_exists::<Attribute>(names);
    let p = sort_positions::<Attribute>(names);
    let x = pick(a.attributes, p);
    let y = pick(b.attributes, p);
    assert(x == sorted_by::<Attribute, AttributeView>(names, a.attributes));
    assert(y == sorted_by::<Attribute, AttributeView>(names, b.attributes));
    assert(are_alike(x, y)) by {
        assert forall|k: int| 0 <= k < x.len() implies (#[trigger] x[k]).name == y[k].name
            && held_by(x[k]).len() == held_by(y[k]).len() by {
            assert(0 <= p[k] < names.len());
            assert(a.attributes[p[k]].name == b.attributes[p[k]].name);
        }
    }
    let head = le_bytes(a.mode) + le_bytes(a.uid) + le_bytes(a.gid) + content_bytes(a);
    let other = le_bytes(b.mode) + le_bytes(b.uid) + le_bytes(b.gid) + content_bytes(b);
    assert(head.len() == other.len());
    let n = head.len() as int;
    assert(node_encoding(a).skip(n) =~= attribute_bytes(x));
    assert(node_encoding(b).skip(n) =~= attribute_bytes(y));
    lemma_distinct_positions::<Attribute>(names, p);
    lemma_every_position(p, names.len() as int, i);
    let k = choose|k: int| 0 <= k < p.len() && p[k] == i;
    lemma_attribute_bytes(x, y, k);
    assert(x[k] == a.attributes[i]);
    assert(y[k] == b.attributes[i]);
}

proof fn lemma_attribute_bytes(a: Seq<AttributeView>, b: Seq<AttributeView>, k: int)
    requires
        are_alike(a, b),
        attribute_bytes(a) == attribute_bytes(b),
        0 <= k < a.len(),
    ensures
        held_by(a[k]) == held_by(b[k]),
    decreases a.len(),
{
    let p = attribute_bytes(a.drop_last());
    let q = attribute_bytes(b.drop_last());
    let s = a.last().name.push(0u8);
    let t = b.last().name.push(0u8);
    let u = held_by(a.last()).push(0u8);
    let v = held_by(b.last()).push(0u8);
    let whole = attribute_bytes(a);
    assert(a[a.len() - 1] == a.last() && b[a.len() - 1] == b.last());
    assert(whole == p + s + u);
    assert(whole == q + t + v);
    assert(u.len() == v.len() && s.len() == t.len());
    let n = p.len() as int;
    assert(p.len() == q.len());
    assert(whole.take(n) =~= p);
    assert(whole.take(n) =~= q);
    assert(whole.skip(n + s.len()) =~= u);
    assert(whole.skip(n + s.len()) =~= v);
    if k == a.len() - 1 {
        assert(u.drop_last() =~= held_by(a.last()));
        assert(v.drop_last() =~= held_by(b.last()));
    } else {
        let c = a.drop_last();
        let d = b.drop_last();
        assert(are_alike(c, d)) by {
            assert forall|i: int| 0 <= i < c.len() implies (#[trigger] c[i]).name == d[i].name
                && held_by(c[i]).len() == held_by(d[i]).len() by {
                assert(a[i].name == b[i].name);
            }
        }
        lemma_attribute_bytes(c, d, k);
    }
}

} // verus!
