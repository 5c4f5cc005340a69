//! What the commands of the sandbox do to an environment: entering it, staging and resetting
//! files, checking its circuits, and letting it go.
use vstd::prelude::*;

use crate::clock::Timestamp;
use crate::command::Host;
use crate::connectivity::{all_checked, checked, ProbeReport};
use crate::diff::{unsafe_path_message, validate_relative_path};
use crate::model::{
    duplicate_all, views, Capability, CapabilityView, Environment, EnvironmentStatus,
    EnvironmentView, LinuxImageChange, Origin, OriginView, Transaction, ValidationState,
};
use crate::path::{
    below_root, contains_path, drop_path, is_rooted, is_safe_relative, joined, lemma_spelled,
    lists_path, parts, path_texts, same_parts, without_path, FsPath, PathPart,
};
use crate::platform::docker::{sort_paths, sorted_paths};
use crate::platform::guest::{record_path, recorded_as, with_first_origin};
use crate::platform::{has_isolated_runtime, is_isolated, is_linux_image_runtime, runs_image};
use crate::probe::Span;
use crate::staged_routes::checked_status;
use crate::text::{arguments, decimal, join, join_texts, number_text, opt_text, option_is, texts};

verus! {

/// Why an environment cannot be worked on.
pub open spec fn entry_refusal(environment: EnvironmentView) -> Option<Seq<char>> {
    if environment.status == EnvironmentStatus::Applied || environment.status
        == EnvironmentStatus::Discarded {
        Some(
            "environment '"@ + environment.name + "' is "@ + environment.status.name()
                + " and cannot be entered"@,
        )
    } else {
        None
    }
}

/// Refuses an environment that is applied or discarded.
pub fn ensure_enterable(environment: &Environment) -> (r: Result<(), String>)
    ensures
        match r {
            Ok(()) => entry_refusal(environment@) is None,
            Err(e) => entry_refusal(environment@) == Some(e@),
        },
{
    if environment.status == EnvironmentStatus::Applied || environment.status
        == EnvironmentStatus::Discarded {
        Err(
            "environment '".to_owned().concat(environment.name.as_str()).concat("' is ").concat(
                environment.status.label(),
            ).concat(" and cannot be entered"),
        )
    } else {
        Ok(())
    }
}

/// A path as a user gives it, below the root.
pub open spec fn normalized(path: Seq<char>) -> Seq<char> {
    if is_rooted(path) {
        below_root(path)
    } else {
        path
    }
}

/// Reads a path that a user gives: a leading slash is dropped, and it must not lead out.
pub fn normalize_user_path(path: &FsPath) -> (r: Result<FsPath, String>)
    ensures
        match r {
            Ok(p) => p@ == normalized(path@) && is_safe_relative(p@),
            Err(e) => !is_safe_relative(normalized(path@)) && e@ == unsafe_path_message(
                normalized(path@),
            ),
        },
{
    let p = if path.is_absolute() {
        path.strip_root()
    } else {
        path.copy()
    };
    match validate_relative_path(&p) {
        Ok(()) => Ok(p),
        Err(e) => Err(e),
    }
}

/// Paths as a user gives them, below the root.
pub open spec fn all_normalized(paths: Seq<Seq<char>>) -> Seq<Seq<char>> {
    Seq::new(paths.len(), |i: int| normalized(paths[i]))
}

/// The first of the paths that leads out.
pub open spec fn first_unsafe(paths: Seq<Seq<char>>, i: int) -> bool {
    0 <= i < paths.len() && !is_safe_relative(paths[i]) && forall|k: int|
        0 <= k < i ==> is_safe_relative(#[trigger] paths[k])
}

/// Reads paths that a user gives.
pub fn normalize_user_paths(paths: &Vec<FsPath>) -> (r: Result<Vec<FsPath>, String>)
    ensures
        match r {
            Ok(list) => path_texts(list@) == all_normalized(path_texts(paths@)) && forall|i: int|
                0 <= i < list@.len() ==> is_safe_relative(#[trigger] path_texts(list@)[i]),
            Err(e) => exists|i: int|
                #[trigger] first_unsafe(all_normalized(path_texts(paths@)), i) && e@
                    == unsafe_path_message(all_normalized(path_texts(paths@))[i]),
        },
{
    let ghost want = all_normalized(path_texts(paths@));
    let mut list: Vec<FsPath> = Vec::new();
    let mut i: usize = 0;
    while i < paths.len()
        invariant
            i <= paths.len(),
            want == all_normalized(path_texts(paths@)),
            list@.len() == i,
            forall|k: int|
                0 <= k < i ==> (#[trigger] list@[k])@ == want[k] && is_safe_relative(want[k]),
        decreases paths.len() - i,
    {
        match normalize_user_path(&paths[i]) {
            Ok(p) => list.push(p),
            Err(e) => {
                proof {
                    assert(want[i as int] == normalized(paths@[i as int]@));
                    assert forall|k: int| 0 <= k < i implies is_safe_relative(
                        #[trigger] want[k],
                    ) by {
                        assert(list@[k]@ == want[k]);
                    }
                    assert(first_unsafe(want, i as int));
                }
                return Err(e);
            },
        }
        i += 1;
    }
    assert(path_texts(list@) =~= want);
    Ok(list)
}

/// Records that a command is about to run in an environment.
pub fn begin_run(environment: &mut Environment, at: Timestamp)
    ensures
        final(environment)@ == (EnvironmentView {
            status: EnvironmentStatus::Running,
            updated_at: at,
            ..old(environment)@
        }),
{
    environment.status = EnvironmentStatus::Running;
    environment.updated_at = at;
}

/// Whether a required circuit is lost.
pub open spec fn has_lost(baseline: Seq<CapabilityView>) -> bool {
    exists|i: int|
        0 <= i < baseline.len() && (#[trigger] baseline[i]).required && baseline[i].validation
            == ValidationState::Lost
}

fn lost(baseline: &Vec<Capability>) -> (r: bool)
    ensures
        r == has_lost(views(baseline@)),
{
    let mut i: usize = 0;
    while i < baseline.len()
        invariant
            i <= baseline.len(),
            forall|k: int|
                0 <= k < i ==> !((#[trigger] views(baseline@)[k]).required && views(
                    baseline@,
                )[k].validation == ValidationState::Lost),
        decreases baseline.len() - i,
    {
        if baseline[i].required && baseline[i].validation == ValidationState::Lost {
            assert(views(baseline@)[i as int].required);
            return true;
        }
        i += 1;
    }
    false
}

/// Records that the shell of an environment was left.
pub fn finish_enter(environment: &mut Environment, at: Timestamp)
    ensures
        final(environment)@ == (EnvironmentView {
            status: checked_status(has_lost(old(environment)@.baseline)),
            updated_at: at,
            ..old(environment)@
        }),
{
    environment.status = if lost(&environment.baseline) {
        EnvironmentStatus::ValidationFailed
    } else {
        EnvironmentStatus::Ready
    };
    environment.updated_at = at;
}

/// Records that a command in an environment ended, with its exit code or why there is none.
pub fn finish_exec(environment: &mut Environment, result: &Result<i32, String>, at: Timestamp)
    ensures
        final(environment)@ == (EnvironmentView {
            status: checked_status(!(*result matches Ok(code) && code == 0)),
            updated_at: at,
            ..old(environment)@
        }),
{
    let passed = match result {
        Ok(code) => *code == 0,
        Err(_) => false,
    };
    environment.status = if passed {
        EnvironmentStatus::Ready
    } else {
        EnvironmentStatus::ValidationFailed
    };
    environment.updated_at = at;
}

/// Takes over what a check inside the sandbox found.
pub fn import_probe_result(environment: &mut Environment, probed: &Environment)
    ensures
        final(environment)@ == (EnvironmentView {
            baseline: probed@.baseline,
            status: probed@.status,
            updated_at: probed@.updated_at,
            ..old(environment)@
        }),
{
    environment.baseline = duplicate_all(&probed.baseline);
    environment.status = probed.status;
    environment.updated_at = probed.updated_at;
}

/// Whether a required circuit is lost or cannot be checked.
pub open spec fn has_failed(baseline: Seq<CapabilityView>) -> bool {
    exists|i: int|
        0 <= i < baseline.len() && (#[trigger] baseline[i]).required && (baseline[i].validation
            == ValidationState::Lost || baseline[i].validation == ValidationState::Unverifiable)
}

fn failed(baseline: &Vec<Capability>) -> (r: bool)
    ensures
        r == has_failed(views(baseline@)),
{
    let mut i: usize = 0;
    while i < baseline.len()
        invariant
            i <= baseline.len(),
            forall|k: int|
                0 <= k < i ==> !((#[trigger] views(baseline@)[k]).required && (views(
                    baseline@,
                )[k].validation == ValidationState::Lost || views(baseline@)[k].validation
                    == ValidationState::Unverifiable)),
        decreases baseline.len() - i,
    {
        if baseline[i].required && (baseline[i].validation == ValidationState::Lost
            || baseline[i].validation == ValidationState::Unverifiable) {
            assert(views(baseline@)[i as int].required);
            return true;
        }
        i += 1;
    }
    false
}

/// The exit code of a check.
pub open spec fn check_code(failed: bool) -> i32 {
    if failed {
        2
    } else {
        0
    }
}

/// Records that the circuits of an environment were checked; gives the exit code.
pub fn finish_probe(environment: &mut Environment, at: Timestamp) -> (r: i32)
    ensures
        final(environment)@ == (EnvironmentView {
            status: checked_status(has_failed(old(environment)@.baseline)),
            updated_at: at,
            ..old(environment)@
        }),
        r == check_code(has_failed(old(environment)@.baseline)),
{
    let failing = failed(&environment.baseline);
    environment.status = if failing {
        EnvironmentStatus::ValidationFailed
    } else {
        EnvironmentStatus::Ready
    };
    environment.updated_at = at;
    if failing {
        2
    } else {
        0
    }
}

/// A check of every circuit ends well exactly if each required circuit that is not ignored was
/// found to be preserved.
pub proof fn law_checks_pass_on_preserved_circuits(
    baseline: Seq<CapabilityView>,
    reports: Seq<ProbeReport>,
)
    ensures
        check_code(has_failed(all_checked(baseline, reports))) == 0 || check_code(
            has_failed(all_checked(baseline, reports)),
        ) == 2,
        check_code(has_failed(all_checked(baseline, reports))) == 0 <==> forall|i: int|
            0 <= i < baseline.len() && (#[trigger] baseline[i]).required && baseline[i].validation
                != ValidationState::Ignored ==> all_checked(baseline, reports)[i].validation
                == ValidationState::Preserved,
{
    let after = all_checked(baseline, reports);
    assert forall|i: int| 0 <= i < baseline.len() implies (#[trigger] after[i]) == checked(
        baseline[i],
        reports[i].reply,
        reports[i].at,
    ) by {}
    if !has_failed(after) {
        assert forall|i: int|
            0 <= i < baseline.len() && (#[trigger] baseline[i]).required && baseline[i].validation
                != ValidationState::Ignored implies after[i].validation
            == ValidationState::Preserved by {
            assert(after[i].required);
        }
    } else {
        let i = choose|i: int|
            0 <= i < after.len() && (#[trigger] after[i]).required && (after[i].validation
                == ValidationState::Lost || after[i].validation == ValidationState::Unverifiable);
        assert(baseline[i].required);
    }
}

/// How long a check waits for each circuit, in seconds: at least one.
pub fn check_seconds(timeout: u64) -> (r: u64)
    ensures
        r == if timeout < 1 {
            1
        } else {
            timeout
        },
{
    if timeout < 1 {
        1
    } else {
        timeout
    }
}

/// Whether the circuits of an environment are checked right here and not in its sandbox. `native`
/// says whether a macOS host can isolate commands itself, `active` is the environment whose
/// sandbox this is, and `here` says that this was asked for.
pub open spec fn checks_here(
    host: Host,
    environment: EnvironmentView,
    native: bool,
    name: Seq<char>,
    active: Option<Seq<char>>,
    here: bool,
) -> bool {
    (host == Host::MacOs && !is_isolated(host, environment, native)) || here || active == Some(name)
}

pub fn probes_directly(
    host: Host,
    environment: &Environment,
    native: bool,
    name: &str,
    active: &Option<String>,
    here: bool,
) -> (r: bool)
    ensures
        r == checks_here(host, environment@, native, name@, opt_text(*active), here),
{
    (host == Host::MacOs && !has_isolated_runtime(host, environment, native)) || here || option_is(
        active,
        name,
    )
}

/// The command that checks the circuits of an environment in its sandbox.
pub fn check_command(executable: &str, name: &str, timeout: u64) -> (r: Vec<String>)
    ensures
        texts(r@) == seq![
            executable@,
            "__probe"@,
            name@,
            "--timeout"@,
            decimal(timeout as nat),
        ],
{
    let seconds = number_text(timeout);
    let r = arguments(vec![executable, "__probe", name, "--timeout", seconds.as_str()]);
    assert(texts(r@) =~= seq![
        executable@,
        "__probe"@,
        name@,
        "--timeout"@,
        decimal(timeout as nat),
    ]);
    r
}

/// A watch: checks that are repeated a number of times, or for ever.
pub struct Watch {
    /// How often to check; zero for ever.
    pub count: u32,
    /// How often it was checked.
    pub done: u32,
    pub interval: u64,
}

impl Watch {
    /// Notes one more check; gives the seconds to wait for the next one, or none after the last.
    pub fn next(&mut self) -> (r: Option<u64>)
        requires
            old(self).count != 0 ==> old(self).done < old(self).count,
        ensures
            final(self).count == old(self).count,
            final(self).interval == old(self).interval,
            old(self).count != 0 ==> final(self).done == old(self).done + 1,
            match r {
                None => old(self).count != 0 && old(self).done + 1 == old(self).count,
                Some(seconds) => (old(self).count == 0 || final(self).done < old(self).count)
                    && seconds == if old(self).interval < 1 {
                    1
                } else {
                    old(self).interval
                },
            },
    {
        if self.count != 0 {
            self.done = self.done + 1;
            if self.done >= self.count {
                return None;
            }
        }
        Some(check_seconds(self.interval))
    }
}

/// What is staged at a path.
#[derive(Debug, Clone, Copy, PartialEq, Eq, Structural)]
pub enum StageKind {
    /// That the path is deleted.
    Deletion,
    /// A file; whether its source is a directory.
    File { directory: bool },
}

/// Refuses options of a stage that contradict each other.
pub fn check_stage(delete: bool, from: bool) -> (r: Result<(), String>)
    ensures
        r is Ok <==> !(delete && from),
        r matches Err(e) ==> e@ == "--delete and --from cannot be used together"@,
{
    if delete && from {
        Err("--delete and --from cannot be used together".to_owned())
    } else {
        Ok(())
    }
}

/// The environment with a path staged. `origin` is what the host holds there now.
pub open spec fn staged(
    environment: EnvironmentView,
    relative: Seq<char>,
    origin: OriginView,
    kind: StageKind,
    at: Timestamp,
) -> Result<EnvironmentView, Seq<char>> {
    let deleted = kind == StageKind::Deletion;
    if deleted && !origin.existed {
        Err(
            "cannot stage deletion because "@ + joined(environment.base_root, relative)
                + " does not exist"@,
        )
    } else if kind == (StageKind::File { directory: true }) {
        Err("staging directories is not supported; stage the changed files individually"@)
    } else {
        Ok(
            EnvironmentView {
                updated_at: at,
                ..recorded_as(with_first_origin(environment, relative, origin), relative, deleted)
            },
        )
    }
}

/// Stages a path.
pub fn stage(
    environment: &mut Environment,
    relative: &FsPath,
    origin: Origin,
    kind: StageKind,
    at: Timestamp,
) -> (r: Result<(), String>)
    ensures
        match r {
            Ok(()) => staged(old(environment)@, relative@, origin@, kind, at) == Ok::<
                EnvironmentView,
                Seq<char>,
            >(final(environment)@),
            Err(e) => staged(old(environment)@, relative@, origin@, kind, at) == Err::<
                EnvironmentView,
                Seq<char>,
            >(e@) && final(environment)@ == old(environment)@,
        },
{
    let deleted = match kind {
        StageKind::Deletion => {
            if !origin.existed {
                return Err(
                    "cannot stage deletion because ".to_owned().concat(
                        environment.base_root.join(relative.text.as_str()).text.as_str(),
                    ).concat(" does not exist"),
                );
            }
            true
        },
        StageKind::File { directory } => {
            if directory {
                return Err(
                    "staging directories is not supported; stage the changed files individually".to_owned(),
                );
            }
            false
        },
    };
    proof {
        lemma_spelled(environment.origins.keys());
    }
    if !environment.origins.contains(relative) {
        environment.origins.insert(relative.copy(), origin);
    }
    record_path(environment, relative, deleted);
    environment.updated_at = at;
    Ok(())
}

/// Refuses options of a reset that contradict each other, or one that was not confirmed.
pub fn check_reset(all: bool, paths: usize, yes: bool) -> (r: Result<(), String>)
    ensures
        r is Ok <==> (all <==> paths == 0) && (all ==> yes),
        r matches Err(e) ==> e@ == if all != (paths == 0) {
            "provide paths, or use --all"@
        } else {
            "resetting all changes requires --yes"@
        },
{
    if (all && paths != 0) || (!all && paths == 0) {
        Err("provide paths, or use --all".to_owned())
    } else if all && !yes {
        Err("resetting all changes requires --yes".to_owned())
    } else {
        Ok(())
    }
}

/// The environment without the first `n` of the given paths.
pub open spec fn unstaged(environment: EnvironmentView, paths: Seq<Seq<char>>, n: int) ->
    EnvironmentView
    decreases n,
{
    if n <= 0 {
        environment
    } else {
        let before = unstaged(environment, paths, n - 1);
        EnvironmentView {
            deleted_paths: without_path(before.deleted_paths, paths[n - 1]),
            origins: before.origins.remove(parts(paths[n - 1])),
            origin_paths: before.origin_paths.remove(parts(paths[n - 1])),
            ..before
        }
    }
}

/// Forgets what is staged at the given paths.
pub fn reset(environment: &mut Environment, paths: &Vec<FsPath>, at: Timestamp)
    ensures
        final(environment)@ == (EnvironmentView {
            updated_at: at,
            ..unstaged(old(environment)@, path_texts(paths@), paths@.len() as int)
        }),
{
    let ghost start = environment@;
    let ghost all = path_texts(paths@);
    let mut i: usize = 0;
    while i < paths.len()
        invariant
            i <= paths.len(),
            all == path_texts(paths@),
            environment@ == unstaged(start, all, i as int),
        decreases paths.len() - i,
    {
        assert(all[i as int] == paths@[i as int]@);
        proof {
            lemma_spelled(environment.origins.keys());
        }
        drop_path(&mut environment.deleted_paths, &paths[i]);
        environment.origins.remove(&paths[i]);
        i += 1;
    }
    environment.updated_at = at;
}

proof fn lemma_without_unlisted(list: Seq<Seq<char>>, path: Seq<char>)
    requires
        !lists_path(list, path),
    ensures
        without_path(list, path) == list,
    decreases list.len(),
{
    if list.len() > 0 {
        let shorter = list.drop_last();
        assert(!lists_path(shorter, path)) by {
            if lists_path(shorter, path) {
                let i = choose|i: int|
                    0 <= i < shorter.len() && same_parts(#[trigger] shorter[i], path);
                assert(same_parts(list[i], path));
            }
        }
        lemma_without_unlisted(shorter, path);
        assert(!same_parts(list[list.len() - 1], path));
        assert(without_path(list, path) =~= list);
    } else {
        assert(without_path(list, path) =~= list);
    }
}

/// A reset undoes a stage: once a path that was not staged before is reset, the environment is as
/// it was, but for the time of the last change.
pub proof fn law_reset_undoes_stage(
    environment: EnvironmentView,
    relative: Seq<char>,
    origin: OriginView,
    kind: StageKind,
    at: Timestamp,
)
    requires
        staged(environment, relative, origin, kind, at) is Ok,
        !environment.origins.dom().contains(parts(relative)),
        environment.origin_paths.dom() == environment.origins.dom(),
        !lists_path(environment.deleted_paths, relative),
    ensures
        unstaged(staged(environment, relative, origin, kind, at)->Ok_0, seq![relative], 1)
            == (EnvironmentView { updated_at: at, ..environment }),
{
    let after = staged(environment, relative, origin, kind, at)->Ok_0;
    let paths = seq![relative];
    let empty = unstaged(after, paths, 0);
    assert(empty == after);
    lemma_without_unlisted(environment.deleted_paths, relative);
    if kind == StageKind::Deletion {
        let longer = environment.deleted_paths.push(relative);
        assert(longer.drop_last() =~= environment.deleted_paths);
        assert(without_path(longer, relative) == environment.deleted_paths);
    }
    assert(after.origins.remove(parts(relative)) =~= environment.origins);
    assert(after.origin_paths.remove(parts(relative)) =~= environment.origin_paths);
    assert(paths[0] == relative);
}

/// What an environment records of the host at a path is what was there first: staging the path
/// again keeps it.
pub proof fn law_first_origin_is_kept(
    environment: EnvironmentView,
    relative: Seq<char>,
    origin: OriginView,
    kind: StageKind,
    at: Timestamp,
)
    requires
        staged(environment, relative, origin, kind, at) is Ok,
    ensures
        ({
            let after = staged(environment, relative, origin, kind, at)->Ok_0;
            &&& after.origins.dom().contains(parts(relative))
            &&& forall|path: Seq<PathPart>|
                environment.origins.dom().contains(path) ==> #[trigger] after.origins[path]
                    == environment.origins[path]
            &&& forall|path: Seq<PathPart>|
                environment.origin_paths.dom().contains(path) ==> #[trigger] after.origin_paths[path]
                    == environment.origin_paths[path]
        }),
{
}

/// Records circuits that were captured anew.
pub fn refresh_baseline(environment: &mut Environment, baseline: Vec<Capability>, at: Timestamp)
    ensures
        final(environment)@ == (EnvironmentView {
            baseline: views(baseline@),
            updated_at: at,
            ..old(environment)@
        }),
{
    environment.baseline = baseline;
    environment.updated_at = at;
}

/// What has to be confirmed.
#[derive(Debug, Clone, Copy, PartialEq, Eq, Structural)]
pub enum Consent {
    RefreshBaseline,
    ResetImage,
    CommitImage,
    RemoveImage,
    ResetMachine,
    Apply,
    Discard,
    Remove,
    RollBack,
}

/// What is said when a confirmation is missing.
pub open spec fn consent_message(consent: Consent) -> Seq<char> {
    match consent {
        Consent::RefreshBaseline =>
            "baseline refresh requires --yes because it changes the safety reference"@,
        Consent::ResetImage => "resetting a Linux image environment requires --yes"@,
        Consent::CommitImage => "committing a Linux image requires --yes"@,
        Consent::RemoveImage => "removing a committed Linux image requires --yes"@,
        Consent::ResetMachine => "resetting a macOS VM clone requires --yes"@,
        Consent::Apply => "applying host changes requires --yes"@,
        Consent::Discard => "discarding unapplied changes requires --yes"@,
        Consent::Remove => "removing an environment requires --yes"@,
        Consent::RollBack => "rolling back host changes requires --yes"@,
    }
}

/// Refuses what was not confirmed.
pub fn require_consent(consent: Consent, yes: bool) -> (r: Result<(), String>)
    ensures
        r is Ok <==> yes,
        r matches Err(e) ==> e@ == consent_message(consent),
{
    if yes {
        return Ok(());
    }
    Err(
        (match consent {
            Consent::RefreshBaseline =>
                "baseline refresh requires --yes because it changes the safety reference",
            Consent::ResetImage => "resetting a Linux image environment requires --yes",
            Consent::CommitImage => "committing a Linux image requires --yes",
            Consent::RemoveImage => "removing a committed Linux image requires --yes",
            Consent::ResetMachine => "resetting a macOS VM clone requires --yes",
            Consent::Apply => "applying host changes requires --yes",
            Consent::Discard => "discarding unapplied changes requires --yes",
            Consent::Remove => "removing an environment requires --yes",
            Consent::RollBack => "rolling back host changes requires --yes",
        }).to_owned(),
    )
}

/// Why an environment may not be discarded.
pub open spec fn discard_refusal(environment: EnvironmentView, yes: bool) -> Option<Seq<char>> {
    if environment.status == EnvironmentStatus::Applied {
        Some("an applied environment must be rolled back or removed from history"@)
    } else if !yes {
        Some(consent_message(Consent::Discard))
    } else {
        None
    }
}

/// Refuses to discard an environment that is applied, or without confirmation.
pub fn check_discard(environment: &Environment, yes: bool) -> (r: Result<(), String>)
    ensures
        match r {
            Ok(()) => discard_refusal(environment@, yes) is None,
            Err(e) => discard_refusal(environment@, yes) == Some(e@),
        },
{
    if environment.status == EnvironmentStatus::Applied {
        return Err("an applied environment must be rolled back or removed from history".to_owned());
    }
    require_consent(Consent::Discard, yes)
}

/// Why an environment may not be removed. `changes` is the number of its changes.
pub open spec fn removal_refusal(
    environment: EnvironmentView,
    changes: nat,
    yes: bool,
) -> Option<Seq<char>> {
    if changes > 0 && environment.status != EnvironmentStatus::Applied && environment.status
        != EnvironmentStatus::Discarded {
        Some("environment has unapplied changes; use discard --yes"@)
    } else if !yes {
        Some(consent_message(Consent::Remove))
    } else {
        None
    }
}

/// Refuses to remove an environment with changes that would be lost, or without confirmation.
pub fn check_remove(environment: &Environment, changes: usize, yes: bool) -> (r: Result<
    (),
    String,
>)
    ensures
        match r {
            Ok(()) => removal_refusal(environment@, changes as nat, yes) is None,
            Err(e) => removal_refusal(environment@, changes as nat, yes) == Some(e@),
        },
{
    if changes > 0 && environment.status != EnvironmentStatus::Applied && environment.status
        != EnvironmentStatus::Discarded {
        return Err("environment has unapplied changes; use discard --yes".to_owned());
    }
    require_consent(Consent::Remove, yes)
}

/// No change is lost by a removal: an environment with changes that are neither applied nor
/// discarded is not removed, confirmed or not.
pub proof fn law_removal_loses_nothing(environment: EnvironmentView, changes: nat, yes: bool)
    requires
        removal_refusal(environment, changes, yes) is None,
    ensures
        yes,
        changes == 0 || environment.status == EnvironmentStatus::Applied || environment.status
            == EnvironmentStatus::Discarded,
{
}

/// Refuses to roll the host itself back without privileges.
pub fn check_rollback(transaction: &Transaction, privileged: bool) -> (r: Result<(), String>)
    ensures
        r is Ok <==> !(same_parts(transaction@.base_root, "/"@) && !privileged),
        r matches Err(e) ==> e@ == "rolling back the real host requires root privileges"@,
{
    if transaction.base_root.same(&FsPath::new("/")) && !privileged {
        Err("rolling back the real host requires root privileges".to_owned())
    } else {
        Ok(())
    }
}

/// Records that the changes of an environment were taken back from the host.
pub fn finish_rollback(environment: &mut Environment, at: Timestamp)
    ensures
        final(environment)@ == (EnvironmentView {
            status: EnvironmentStatus::Ready,
            updated_at: at,
            ..old(environment)@
        }),
{
    environment.status = EnvironmentStatus::Ready;
    environment.updated_at = at;
}

/// What a guard of an apply does next.
#[derive(Debug, Clone, Copy, PartialEq, Eq, Structural)]
pub enum GuardStep {
    /// The apply is settled.
    Stop,
    /// Nobody renewed the lease: the changes are taken back.
    RollBack,
    /// Look again in a second.
    Wait,
}

/// How long a lease may go without being renewed: at least five seconds.
pub open spec fn lease_span(timeout: u64) -> Span {
    Span {
        seconds: if timeout < 5 {
            5
        } else {
            timeout
        },
        nanoseconds: 0,
    }
}

/// What a guard does. `age` is the time since the lease was renewed, if that is known; a lease
/// that cannot be read counts as expired.
pub open spec fn guard_decision(
    committed: bool,
    rolled_back: bool,
    age: Option<Span>,
    timeout: u64,
) -> GuardStep {
    if committed || rolled_back {
        GuardStep::Stop
    } else {
        match age {
            None => GuardStep::RollBack,
            Some(span) => if span.below(lease_span(timeout)) {
                GuardStep::Wait
            } else {
                GuardStep::RollBack
            },
        }
    }
}

/// Decides what a guard of an apply does next.
pub fn rollback_guard(
    committed: bool,
    rolled_back: bool,
    age: &Option<Span>,
    timeout: u64,
) -> (r: GuardStep)
    ensures
        r == guard_decision(committed, rolled_back, *age, timeout),
{
    if committed || rolled_back {
        return GuardStep::Stop;
    }
    let limit = Span {
        seconds: if timeout < 5 {
            5
        } else {
            timeout
        },
        nanoseconds: 0,
    };
    match age {
        None => GuardStep::RollBack,
        Some(span) => if span.is_below(&limit) {
            GuardStep::Wait
        } else {
            GuardStep::RollBack
        },
    }
}

/// A guard never touches an apply that was committed, and never lets one go on that was neither
/// committed nor rolled back and whose lease has run out.
pub proof fn law_guards_take_back_abandoned_applies(
    committed: bool,
    rolled_back: bool,
    age: Option<Span>,
    timeout: u64,
)
    ensures
        committed ==> guard_decision(committed, rolled_back, age, timeout) == GuardStep::Stop,
        !committed && !rolled_back && !(age matches Some(span) && span.below(lease_span(timeout)))
            ==> guard_decision(committed, rolled_back, age, timeout) == GuardStep::RollBack,
        guard_decision(committed, rolled_back, age, timeout) == GuardStep::RollBack ==> !committed
            && !rolled_back,
{
}

/// Refuses to give an environment a second guest system.
pub fn check_new_guest(name: &str, has_guest: bool) -> (r: Result<(), String>)
    ensures
        r is Ok <==> !has_guest,
        r matches Err(e) ==> e@ == "environment '"@ + name@ + "' already has a guest runtime"@,
{
    if has_guest {
        Err("environment '".to_owned().concat(name).concat("' already has a guest runtime"))
    } else {
        Ok(())
    }
}

/// Refuses a command for containers on an environment without one.
pub fn require_image(host: Host, environment: &Environment, name: &str) -> (r: Result<(), String>)
    ensures
        r is Ok <==> runs_image(host, environment@),
        r matches Err(e) ==> e@ == "environment '"@ + name@ + "' has no Linux image runtime"@,
{
    if is_linux_image_runtime(host, environment) {
        Ok(())
    } else {
        Err("environment '".to_owned().concat(name).concat("' has no Linux image runtime"))
    }
}

/// Refuses a command for virtual machines on an environment without one.
pub fn require_machine(host: Host, environment: &Environment, name: &str) -> (r: Result<
    (),
    String,
>)
    ensures
        r is Ok <==> crate::platform::runs_machine(host, environment@),
        r matches Err(e) ==> e@ == "environment '"@ + name@ + "' has no isolated macOS VM"@,
{
    if crate::platform::is_macos_vm_runtime(host, environment) {
        Ok(())
    } else {
        Err("environment '".to_owned().concat(name).concat("' has no isolated macOS VM"))
    }
}

/// The environment with a path of its virtual machine exported from now on.
pub open spec fn exported(
    environment: EnvironmentView,
    relative: Seq<char>,
    origin: OriginView,
    at: Timestamp,
) -> EnvironmentView {
    let first = with_first_origin(environment, relative, origin);
    EnvironmentView {
        tracked_paths: if lists_path(first.tracked_paths, relative) {
            first.tracked_paths
        } else {
            sorted_paths(first.tracked_paths.push(relative))
        },
        updated_at: at,
        ..first
    }
}

/// Records a path of the virtual machine that is exported from now on.
pub fn export_path(environment: &mut Environment, relative: &FsPath, origin: Origin, at: Timestamp)
    ensures
        final(environment)@ == exported(old(environment)@, relative@, origin@, at),
{
    proof {
        lemma_spelled(environment.origins.keys());
    }
    if !environment.origins.contains(relative) {
        environment.origins.insert(relative.copy(), origin);
    }
    if !contains_path(&environment.tracked_paths, relative) {
        let mut list: Vec<FsPath> = Vec::new();
        std::mem::swap(&mut list, &mut environment.tracked_paths);
        let ghost before = path_texts(list@);
        list.push(relative.copy());
        assert(path_texts(list@) =~= before.push(relative@));
        environment.tracked_paths = sort_paths(list);
    }
    environment.updated_at = at;
}

/// The environment with the first `n` of the exported paths as they are in a new guest.
pub open spec fn cleared(environment: EnvironmentView, forget: bool, n: int) -> EnvironmentView
    decreases n,
{
    if n <= 0 {
        environment
    } else {
        let before = cleared(environment, forget, n - 1);
        let path = environment.tracked_paths[n - 1];
        EnvironmentView {
            deleted_paths: without_path(before.deleted_paths, path),
            origins: if forget {
                before.origins.remove(parts(path))
            } else {
                before.origins
            },
            origin_paths: if forget {
                before.origin_paths.remove(parts(path))
            } else {
                before.origin_paths
            },
            ..before
        }
    }
}

/// Records that the guest of an environment was made anew. `forget` says whether what the host
/// held at the exported paths is forgotten, too.
pub fn restart_guest(environment: &mut Environment, forget: bool, at: Timestamp)
    ensures
        final(environment)@ == (EnvironmentView {
            status: EnvironmentStatus::Ready,
            updated_at: at,
            ..cleared(
                old(environment)@,
                forget,
                old(environment)@.tracked_paths.len() as int,
            )
        }),
{
    let ghost start = environment@;
    let paths = crate::path::copy_paths(&environment.tracked_paths);
    let mut i: usize = 0;
    while i < paths.len()
        invariant
            i <= paths.len(),
            path_texts(paths@) == start.tracked_paths,
            environment@ == cleared(start, forget, i as int),
        decreases paths.len() - i,
    {
        assert(start.tracked_paths[i as int] == paths@[i as int]@);
        proof {
            lemma_spelled(environment.origins.keys());
        }
        drop_path(&mut environment.deleted_paths, &paths[i]);
        if forget {
            environment.origins.remove(&paths[i]);
        }
        i += 1;
    }
    environment.status = EnvironmentStatus::Ready;
    environment.updated_at = at;
}

/// Why a container is not turned into an image. `blockers` are the circuits that stand against it,
/// and `changes` is the number of changes of the container.
pub open spec fn commit_refusal(
    name: Seq<char>,
    blockers: Seq<Seq<char>>,
    changes: nat,
) -> Option<Seq<char>> {
    if blockers.len() > 0 {
        Some(
            "Linux image commit is blocked by connectivity validation: "@ + join_texts(
                blockers,
                ", "@,
            ) + "; run 'netsandbox check "@ + name + "'"@,
        )
    } else if changes == 0 {
        Some("Linux image has no changes to commit"@)
    } else {
        None
    }
}

/// Refuses to turn a container into an image while circuits stand against it.
pub fn check_circuits_for_commit(environment: &Environment, blockers: &Vec<String>) -> (r: Result<
    (),
    String,
>)
    ensures
        r is Ok <==> blockers@.len() == 0,
        r matches Err(e) ==> commit_refusal(environment@.name, texts(blockers@), 0) == Some(e@),
{
    if blockers.len() == 0 {
        return Ok(());
    }
    Err(
        "Linux image commit is blocked by connectivity validation: ".to_owned().concat(
            join(blockers, ", ").as_str(),
        ).concat("; run 'netsandbox check ").concat(environment.name.as_str()).concat("'"),
    )
}

/// Refuses to turn a container into an image that has not changed.
pub fn check_changes_for_commit(changes: &Vec<LinuxImageChange>) -> (r: Result<(), String>)
    ensures
        r is Ok <==> changes@.len() > 0,
        r matches Err(e) ==> e@ == "Linux image has no changes to commit"@,
{
    if changes.len() == 0 {
        Err("Linux image has no changes to commit".to_owned())
    } else {
        Ok(())
    }
}

/// Records that the container of an environment was turned into an image.
pub fn finish_commit(environment: &mut Environment, at: Timestamp)
    ensures
        final(environment)@ == (EnvironmentView {
            status: EnvironmentStatus::Applied,
            updated_at: at,
            ..old(environment)@
        }),
{
    environment.status = EnvironmentStatus::Applied;
    environment.updated_at = at;
}

/// What is reported when a step failed and what had been made for it was removed again, or was not.
pub open spec fn undone_message(
    action: Seq<char>,
    subject: Seq<char>,
    cleanup: Option<Seq<char>>,
    error: Seq<char>,
) -> Seq<char> {
    action + (match cleanup {
        None => ""@,
        Some(failure) => "; "@ + subject + " cleanup also failed: "@ + failure,
    }) + ": "@ + error
}

/// Tells of a failed step. `subject` had been made for it, and `cleanup` says why that could not be
/// removed again.
pub fn undone(action: &str, subject: &str, cleanup: &Option<String>, error: &str) -> (r: String)
    ensures
        r@ == undone_message(action@, subject@, opt_text(*cleanup), error@),
{
    let ending = match cleanup {
        None => "".to_owned(),
        Some(failure) => "; ".to_owned().concat(subject).concat(" cleanup also failed: ").concat(
            failure.as_str(),
        ),
    };
    action.to_owned().concat(ending.as_str()).concat(": ").concat(error)
}

/// The commands that do not take the lock of the store, and those that do.
#[derive(Debug, Clone, Copy, PartialEq, Eq, Structural)]
pub enum CommandKind {
    RollbackGuard,
    SandboxInit,
    Probe,
    Check,
    Other,
}

/// How a command is run.
#[derive(Debug, Clone, Copy, PartialEq, Eq, Structural)]
pub enum Entry {
    /// Without the lock of the store.
    Unlocked,
    /// In a sandbox, from the files that its supervisor handed over.
    Supervised,
    /// With the lock of the store.
    Locked,
}

/// How a command is run. `name` is the environment that it is for, `active` the one whose sandbox
/// this is, and `control` says whether a supervisor handed files over.
pub open spec fn entry_of(
    kind: CommandKind,
    name: Seq<char>,
    active: Option<Seq<char>>,
    control: bool,
) -> Entry {
    match kind {
        CommandKind::RollbackGuard => Entry::Unlocked,
        CommandKind::SandboxInit => Entry::Unlocked,
        CommandKind::Probe => if control {
            Entry::Supervised
        } else {
            Entry::Locked
        },
        CommandKind::Check => if control && active == Some(name) {
            Entry::Supervised
        } else {
            Entry::Locked
        },
        CommandKind::Other => Entry::Locked,
    }
}

/// Picks how a command is run.
pub fn run(kind: CommandKind, name: &str, active: &Option<String>, control: bool) -> (r: Entry)
    ensures
        r == entry_of(kind, name@, opt_text(*active), control),
{
    match kind {
        CommandKind::RollbackGuard => Entry::Unlocked,
        CommandKind::SandboxInit => Entry::Unlocked,
        CommandKind::Probe => if control {
            Entry::Supervised
        } else {
            Entry::Locked
        },
        CommandKind::Check => if control && option_is(active, name) {
            Entry::Supervised
        } else {
            Entry::Locked
        },
        CommandKind::Other => Entry::Locked,
    }
}

} // verus!
