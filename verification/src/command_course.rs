//! What commands come to as a whole: the course of an apply, of a script and of a copy, the
//! arguments of a check, and what a host can run.
use vstd::prelude::*;

use crate::apply_command::{
    command_ready, command_start, command_step, ApplyCommandView, ApplyRequest, CommandActionView,
    CommandEvent, CommandPhase,
};
use crate::candidate::{all_rewritten, mapped, mappings_of, pairs_map, rewritten, CanonicalForms};
use crate::clock::Timestamp;
use crate::command::{CommandView, Host};
use crate::diff::FileKind;
use crate::files::{copy_steps, CopyStepView, Destination};
use crate::model::{EnvironmentStatus, EnvironmentView, ValidationState};
use crate::path::parts;
use crate::platform::{
    cleanup_of, container_here, host_refusal, image_refusal, is_isolated, machine_here,
    machine_refusal, runs_image, runs_machine, runtime_of, CleanupView, Runtime,
};
use crate::platform::docker::{container_of, in_container, recorded, CONTAINER_KEY, MANAGED_KEY};
use crate::platform::lima::{in_machine, machine_of, VM_INSTANCE_KEY, VM_MANAGED_KEY};
use crate::probe::is_probe_command;
use crate::script::{opening_from, script_after, ScriptShape, ScriptStep, ScriptView};
use crate::staged_routes::lacks_proof;
use crate::text::{opt_text, split_first};

verus! {

/// Whether every required circuit of an environment was found to be preserved.
pub open spec fn is_proven(environment: EnvironmentView) -> bool {
    forall|i: int|
        0 <= i < environment.baseline.len() && (#[trigger] environment.baseline[i]).required
            ==> environment.baseline[i].validation == ValidationState::Preserved
}

/// What has been done, for an event.
pub open spec fn done() -> CommandEvent {
    CommandEvent::Done { result: Ok(()) }
}

/// Whether an apply may go ahead: it is confirmed and no dry run, its environment does not run in a
/// container, and the host itself is only changed on a system where that can be done, by a user
/// who may.
pub open spec fn may_go_ahead(request: ApplyRequest, environment: EnvironmentView) -> bool {
    &&& request.yes
    &&& !request.dry_run
    &&& !(request.host == Host::MacOs && in_container(environment))
    &&& parts(environment.base_root) == parts("/"@) ==> request.host != Host::Other
        && request.privileged
}

/// An apply starts with the files of the guest, wherever there is one on macOS, and then, if it may
/// go ahead, with the check of the circuits; a dry run goes straight to the plan; and all else is
/// refused.
pub proof fn law_applies_start_where_they_may(
    request: ApplyRequest,
    environment: EnvironmentView,
    name: Seq<char>,
)
    ensures
        ({
            let (command, same, action) = command_start(request, environment, name);
            let guest = request.host == Host::MacOs && (in_machine(environment) || in_container(
                environment,
            ) || request.native);
            &&& same == environment
            &&& command.request == request
            &&& if request.host == Host::MacOs && in_container(environment) {
                is_failure(action)
            } else if guest {
                action is Sync && command.phase == CommandPhase::Syncing
            } else {
                (command, same, action) == command_ready(command, environment)
            }
        }),
        forall|command: ApplyCommandView|
            command.request == request ==> ({
                let (after, same, action) = #[trigger] command_ready(command, environment);
                &&& same == environment
                &&& if request.dry_run {
                    action is Plan && after.phase == CommandPhase::Previewing
                } else if request.yes && host_refusal(
                    request.host,
                    environment,
                    request.privileged,
                ) is None {
                    action is Refresh && after.phase == CommandPhase::Refreshing
                } else {
                    is_failure(action)
                }
            }),
{
}

/// Whether an action ends a command with an error.
pub open spec fn is_failure(action: CommandActionView) -> bool {
    action matches CommandActionView::Finish { result, .. } && result is Err
}

/// Whether an action ends a command with an exit code.
pub open spec fn is_exit(action: CommandActionView, code: i32, show_plan: bool) -> bool {
    action == CommandActionView::Finish { result: Ok(code), show_plan }
}

/// An apply that may go ahead runs its course to the end: the circuits are checked, the plan is made
/// and saved, and run if it is allowed; the circuits and the routes are checked again; and if all
/// is well the environment is saved as applied, under the transaction of the apply, before the
/// lease is ended for good and the command exits with success.
pub proof fn law_applies_run_to_the_end(
    request: ApplyRequest,
    environment: EnvironmentView,
    name: Seq<char>,
    id: String,
    none: Vec<String>,
    at: Timestamp,
)
    requires
        may_go_ahead(request, environment),
        is_proven(environment),
        none@.len() == 0,
    ensures
        ({
            let begun = command_start(request, environment, name);
            let ready = if begun.2 is Sync {
                command_step(begun.0, environment, done(), at)
            } else {
                begun
            };
            let checked = command_step(ready.0, environment, done(), at);
            let planned = command_step(
                checked.0,
                environment,
                CommandEvent::Planned { allowed: Ok(true) },
                at,
            );
            let saved = command_step(planned.0, environment, done(), at);
            let applied = command_step(
                saved.0,
                environment,
                CommandEvent::Applied { transaction: Ok(id) },
                at,
            );
            let validated = command_step(applied.0, environment, done(), at);
            let verified = command_step(
                validated.0,
                environment,
                CommandEvent::Verified { failed: Ok(none) },
                at,
            );
            let kept = command_step(verified.0, verified.1, done(), at);
            let committed = command_step(kept.0, kept.1, done(), at);
            &&& ready.2 is Refresh
            &&& checked.2 is Plan
            &&& planned.2 is Save
            &&& saved.2 is Apply
            &&& applied.2 is Validate
            &&& validated.2 is VerifyRoutes
            &&& verified.2 is Save
            &&& verified.1.status == EnvironmentStatus::Applied
            &&& verified.1.applied_transaction == Some(id@)
            &&& verified.1 == (EnvironmentView {
                status: EnvironmentStatus::Applied,
                applied_transaction: Some(id@),
                updated_at: at,
                ..environment
            })
            &&& kept.2 == (CommandActionView::Commit { transaction: id@ })
            &&& kept.1 == verified.1
            &&& is_exit(committed.2, 0, false)
            &&& committed.1 == verified.1
        }),
{
    assert(!lacks_proof(environment.baseline));
    assert(host_refusal(request.host, environment, request.privileged) is None);
}

/// A dry run makes the plan, saves the environment, shows the plan and exits: with success if the
/// plan is allowed, and else with the code of a plan that is not. A real apply of such a plan ends
/// with an error and shows it, before anything was run.
pub proof fn law_blocked_plans_are_shown(
    request: ApplyRequest,
    environment: EnvironmentView,
    command: ApplyCommandView,
    allowed: bool,
    at: Timestamp,
)
    requires
        command.request == request,
    ensures
        request.dry_run ==> ({
            let ready = command_ready(command, environment);
            let planned = command_step(
                ready.0,
                environment,
                CommandEvent::Planned { allowed: Ok(allowed) },
                at,
            );
            let saved = command_step(planned.0, environment, done(), at);
            &&& ready.2 is Plan
            &&& planned.2 is Save
            &&& is_exit(
                saved.2,
                if allowed {
                    0
                } else {
                    2
                },
                true,
            )
        }),
        command.phase == CommandPhase::Planning ==> ({
            let planned = command_step(
                command,
                environment,
                CommandEvent::Planned { allowed: Ok(false) },
                at,
            );
            let saved = command_step(planned.0, environment, done(), at);
            &&& planned.2 is Save
            &&& is_failure(saved.2)
            &&& saved.2->show_plan
        }),
{
}

/// An apply that does not hold is taken back where the policy says so, the lease is ended, and the
/// environment is saved as failed before the command ends with an error; where the policy does not,
/// nothing is taken back, and it ends with an error all the same. What fails on the way ends the
/// command with its error.
pub proof fn law_applies_that_do_not_hold_end_in_error(
    command: ApplyCommandView,
    environment: EnvironmentView,
    failed: Vec<String>,
    at: Timestamp,
    error: String,
)
    requires
        command.phase == CommandPhase::Verifying,
        !is_proven(environment) || failed@.len() > 0,
    ensures
        ({
            let verified = command_step(
                command,
                environment,
                CommandEvent::Verified { failed: Ok(failed) },
                at,
            );
            let unread = command_step(
                command,
                environment,
                CommandEvent::Verified { failed: Err(error) },
                at,
            );
            let next = command_step(verified.0, verified.1, done(), at);
            let saving = command_step(next.0, next.1, done(), at);
            let last = command_step(saving.0, saving.1, done(), at);
            &&& verified.1 == (EnvironmentView {
                status: EnvironmentStatus::ValidationFailed,
                updated_at: at,
                ..environment
            })
            &&& environment.policy.auto_rollback ==> verified.2 is RollBack && next.2 is Release
                && saving.2 is Save && saving.1 == verified.1 && is_failure(last.2)
            &&& !environment.policy.auto_rollback ==> verified.2 is Save && is_failure(next.2)
                && next.1 == verified.1
            &&& environment.policy.auto_rollback ==> unread.2 is RollBack
            &&& !environment.policy.auto_rollback ==> is_failure(unread.2)
        }),
        command_step(command, environment, CommandEvent::Done { result: Err(error) }, at).2
            == (CommandActionView::Finish { result: Err(error@), show_plan: false }),
        command_step(command, environment, CommandEvent::Planned { allowed: Err(error) }, at).2
            == (CommandActionView::Finish { result: Err(error@), show_plan: false }),
        command_step(command, environment, CommandEvent::Applied { transaction: Err(error) }, at).2
            == (CommandActionView::Finish { result: Err(error@), show_plan: false }),
{
    if !is_proven(environment) {
        assert(lacks_proof(environment.baseline));
    }
}

/// What a host runs: Linux in namespaces; macOS in the container of an environment, in its virtual
/// machine, or else in a workspace, which is isolated only by the host's own means; and any other
/// system nothing.
pub proof fn law_hosts_run_what_they_have(
    host: Host,
    environment: EnvironmentView,
    native: bool,
    privileged: bool,
)
    ensures
        host == Host::Linux ==> runtime_of(host, environment) == Some(Runtime::Namespaces)
            && is_isolated(host, environment, native),
        host == Host::Other ==> runtime_of(host, environment) is None && !is_isolated(
            host,
            environment,
            native,
        ),
        host == Host::MacOs ==> (runtime_of(host, environment) == Some(Runtime::Container)
            <==> in_container(environment)),
        host == Host::MacOs ==> (runtime_of(host, environment) == Some(Runtime::Machine)
            <==> in_machine(environment) && !in_container(environment)),
        host == Host::MacOs ==> (runtime_of(host, environment) == Some(Runtime::Workspace)
            <==> !in_machine(environment) && !in_container(environment)),
        host == Host::MacOs ==> (is_isolated(host, environment, native) <==> native || runtime_of(
            host,
            environment,
        ) != Some(Runtime::Workspace)),
        runs_image(host, environment) <==> host == Host::MacOs && in_container(environment),
        runs_machine(host, environment) <==> host == Host::MacOs && in_machine(environment),
        host_refusal(host, environment, privileged) is None <==> parts(environment.base_root)
            != parts("/"@) || (privileged && host != Host::Other),
{
}

/// An environment has one guest system at most: it can be given one only on macOS and only while it
/// has none.
pub proof fn law_guests_exclude_each_other(
    host: Host,
    environment: EnvironmentView,
    name: Seq<char>,
)
    ensures
        machine_refusal(host, environment, name) is None ==> host == Host::MacOs && !in_container(
            environment,
        ) && !in_machine(environment),
        image_refusal(host, environment, name) is None ==> host == Host::MacOs && !in_container(
            environment,
        ) && !in_machine(environment),
        host != Host::MacOs ==> cleanup_of(host, environment) == Ok::<CleanupView, Seq<char>>(
            CleanupView::Nothing,
        ),
        cleanup_of(host, environment) matches Ok(CleanupView::Container { .. }) ==> in_container(
            environment,
        ),
        cleanup_of(host, environment) matches Ok(CleanupView::Machine { .. }) ==> !in_container(
            environment,
        ),
{
}

/// A script after a number of steps that all went well.
pub open spec fn script_at(shape: ScriptShape, n: nat) -> ScriptView
    decreases n,
{
    if n == 0 {
        ScriptView { shape, step: opening_from(shape, 0), failure: None }
    } else {
        script_after(script_at(shape, (n - 1) as nat), None)
    }
}

/// A script in which nothing fails runs each step once, in order: its opening, its body and, if it
/// always tidies up, its ending. Then it ends without a failure.
pub proof fn law_scripts_run_every_step(shape: ScriptShape, n: nat)
    ensures
        ({
            let run = script_at(shape, n);
            let ending = if shape.always_tidy {
                shape.ending as int
            } else {
                0
            };
            &&& run.shape == shape
            &&& run.failure is None
            &&& run.step == if n < shape.opening {
                ScriptStep::Opening { index: n as usize }
            } else if n < shape.opening + shape.body {
                ScriptStep::Body { index: (n - shape.opening) as usize }
            } else if n < shape.opening + shape.body + ending {
                ScriptStep::Ending { index: (n - shape.opening - shape.body) as usize }
            } else {
                ScriptStep::Finished
            }
        }),
    decreases n,
{
    if n > 0 {
        law_scripts_run_every_step(shape, (n - 1) as nat);
    }
}

/// A step of the opening that fails ends a script at once, and a step of the body that fails is
/// followed by the ending alone; either way it is the failure that the script ends with.
pub proof fn law_failed_scripts_stop(run: ScriptView, error: Seq<char>)
    ensures
        run.step is Opening ==> script_after(run, Some(error)).step == ScriptStep::Finished,
        run.step is Body ==> script_after(run, Some(error)).step is Ending || (script_after(
            run,
            Some(error),
        ).step == ScriptStep::Finished && run.shape.ending == 0),
        run.step is Opening || run.step is Body ==> script_after(run, Some(error)).failure == Some(
            error,
        ),
        script_after(run, Some(error)).shape == run.shape,
        run.step is Ending ==> !(script_after(run, Some(error)).step is Body) && !(script_after(
            run,
            Some(error),
        ).step is Opening),
{
}

/// What stands at a destination, links not followed, and whether the temporary file was written and
/// has what belongs to the source.
pub struct CopyState {
    pub at: Option<FileKind>,
    pub written: bool,
    pub carried: bool,
    pub failed: bool,
}

/// What a step of a copy leaves. A file can be renamed onto anything but a directory, a link can
/// only be made where nothing is, and a directory where nothing or a directory is.
pub open spec fn copy_step_leaves(state: CopyState, step: CopyStepView) -> CopyState {
    match step {
        CopyStepView::MakeParent => state,
        CopyStepView::Remove => CopyState { at: None, ..state },
        CopyStepView::CopyContent { .. } => CopyState { written: true, ..state },
        CopyStepView::CarryToTemporary { .. } => CopyState { carried: state.written, ..state },
        CopyStepView::Rename { .. } => if state.written && state.at != Some(FileKind::Directory) {
            CopyState { at: Some(FileKind::File), ..state }
        } else {
            CopyState { failed: true, ..state }
        },
        CopyStepView::Link => if state.at is None {
            CopyState { at: Some(FileKind::Symlink), ..state }
        } else {
            CopyState { failed: true, ..state }
        },
        CopyStepView::MakeDirectory => if state.at is None || state.at == Some(
            FileKind::Directory,
        ) {
            CopyState { at: Some(FileKind::Directory), ..state }
        } else {
            CopyState { failed: true, ..state }
        },
        CopyStepView::CopyChildren => if state.at == Some(FileKind::Directory) {
            state
        } else {
            CopyState { failed: true, ..state }
        },
        CopyStepView::Carry { no_follow } => if state.at == Some(FileKind::Symlink) <==> no_follow {
            CopyState { carried: true, ..state }
        } else {
            CopyState { failed: true, ..state }
        },
        CopyStepView::Refuse { .. } => CopyState { failed: true, ..state },
    }
}

/// What the steps of a copy leave, one after the other.
pub open spec fn copy_leaves(state: CopyState, steps: Seq<CopyStepView>) -> CopyState
    decreases steps.len(),
{
    if steps.len() == 0 {
        state
    } else {
        copy_step_leaves(copy_leaves(state, steps.drop_last()), steps.last())
    }
}

/// A copy of a file, a link or a directory ends with the same sort of thing at the destination, and
/// with what belongs to the source, whatever stood there: nothing that it does stumbles over it.
pub proof fn law_copies_get_past_what_is_there(
    source: Seq<char>,
    kind: FileKind,
    found: Destination,
    temporary: Seq<char>,
)
    requires
        kind == FileKind::File || kind == FileKind::Symlink || kind == FileKind::Directory,
        found.kind is None ==> !found.exists,
        found.kind is Some && found.kind != Some(FileKind::Symlink) ==> found.exists,
    ensures
        ({
            let start = CopyState {
                at: found.kind,
                written: false,
                carried: false,
                failed: false,
            };
            let end = copy_leaves(start, copy_steps(source, kind, found, temporary));
            &&& !end.failed
            &&& end.carried
            &&& end.at == Some(kind)
        }),
{
    reveal_with_fuel(copy_leaves, 7);
    let steps = copy_steps(source, kind, found, temporary);
    let n = steps.len();
    let start = CopyState { at: found.kind, written: false, carried: false, failed: false };
    assert(steps.take(0) =~= Seq::empty());
    assert(steps.take(1).drop_last() =~= steps.take(0));
    assert(steps.take(2).drop_last() =~= steps.take(1));
    assert(steps.take(3).drop_last() =~= steps.take(2));
    if n > 3 {
        assert(steps.take(4).drop_last() =~= steps.take(3));
    }
    if n > 4 {
        assert(steps.take(5).drop_last() =~= steps.take(4));
    }
    assert(steps.take(n as int) =~= steps);
    assert(copy_leaves(start, steps.take(1)) == start);
}

/// A staged path is replaced by its candidate file wherever it stands as an argument or behind the
/// first equals sign of one; what comes before the sign stays. There are as many arguments as
/// before.
pub proof fn law_staged_paths_are_replaced(
    mappings: Map<Seq<char>, Seq<char>>,
    argument: Seq<char>,
    prefix: Seq<char>,
    path: Seq<char>,
    forms: CanonicalForms,
    argv: Seq<Seq<char>>,
    all: Seq<CanonicalForms>,
    i: int,
)
    ensures
        mappings.dom().contains(argument) ==> rewritten(mappings, argument, forms)
            == mappings[argument],
        !mappings.dom().contains(argument) && (forms.whole matches Some(resolved)
            && mappings.dom().contains(resolved@)) ==> rewritten(mappings, argument, forms)
            == mappings[forms.whole->Some_0@],
        argument == prefix + seq!['='] + path && !prefix.contains('=') && mapped(
            mappings,
            argument,
            opt_text(forms.whole),
        ) is None && mappings.dom().contains(path) ==> rewritten(mappings, argument, forms)
            == prefix + seq!['='] + mappings[path],
        all_rewritten(mappings, argv, all).len() == argv.len(),
        0 <= i < argv.len() ==> all_rewritten(mappings, argv, all)[i] == rewritten(
            mappings,
            argv[i],
            all[i],
        ),
{
    reveal_strlit("=");
    assert("="@ =~= seq!['=']);
    if argument == prefix + seq!['='] + path && !prefix.contains('=') {
        lemma_split_at_first(prefix, '=', path);
    }
}

/// A text is split at the first occurrence of a character: what comes before it holds none.
pub proof fn lemma_split_at_first(prefix: Seq<char>, c: char, rest: Seq<char>)
    requires
        !prefix.contains(c),
    ensures
        split_first(prefix + seq![c] + rest, c) == Some((prefix, rest)),
    decreases prefix.len(),
{
    let s = prefix + seq![c] + rest;
    lemma_position(prefix, c, rest);
    assert(s.take(prefix.len() as int) =~= prefix);
    assert(s.skip((prefix.len() + 1) as int) =~= rest);
}

proof fn lemma_position(prefix: Seq<char>, c: char, rest: Seq<char>)
    requires
        !prefix.contains(c),
    ensures
        crate::text::first_position(prefix + seq![c] + rest, c) == prefix.len(),
    decreases prefix.len(),
{
    let s = prefix + seq![c] + rest;
    if prefix.len() > 0 {
        assert(s[0] == prefix[0]);
        assert(prefix.contains(prefix[0]));
        let shorter = prefix.drop_first();
        assert(!shorter.contains(c)) by {
            if shorter.contains(c) {
                let k = choose|k: int| 0 <= k < shorter.len() && shorter[k] == c;
                assert(prefix[k + 1] == c);
            }
        }
        assert(s.drop_first() =~= shorter + seq![c] + rest);
        lemma_position(shorter, c, rest);
    } else {
        assert(s[0] == c);
    }
}

/// The candidate files are those of the last entry for each path; without a readable list there are
/// none.
pub proof fn law_the_last_entry_counts(
    pairs: Seq<(Seq<char>, Seq<char>)>,
    key: Seq<char>,
    value: Seq<char>,
    other: Seq<char>,
)
    ensures
        !pairs_map(Seq::empty()).dom().contains(other),
        pairs_map(pairs.push((key, value))).dom().contains(key),
        pairs_map(pairs.push((key, value)))[key] == value,
        other != key ==> (pairs_map(pairs.push((key, value))).dom().contains(other) <==> pairs_map(
            pairs,
        ).dom().contains(other)) && pairs_map(pairs.push((key, value)))[other] == pairs_map(
            pairs,
        )[other],
        !mappings_of(None).dom().contains(other),
{
    assert(pairs.push((key, value)).drop_last() =~= pairs);
}

/// A check runs the program that its command names first, with all that follows as arguments.
pub proof fn law_checks_run_their_command(argv: Seq<Seq<char>>, command: CommandView, i: int)
    requires
        is_probe_command(argv, command),
    ensures
        command.program == argv[0],
        command.arguments.len() + 1 == argv.len(),
        0 < i < argv.len() ==> command.arguments[i - 1] == argv[i],
{
}

/// A guest system is worked on only on macOS and only where one is on record; a container only
/// under the name that the environment gave it.
pub proof fn law_guests_are_found_on_record(host: Host, environment: EnvironmentView)
    ensures
        machine_here(host, environment) matches Ok(instance) ==> host == Host::MacOs && recorded(
            environment,
            VM_INSTANCE_KEY@,
        ) == Some(instance),
        host == Host::MacOs && recorded(environment, VM_INSTANCE_KEY@) is Some ==> machine_here(
            host,
            environment,
        ) is Ok,
        container_here(host, environment) matches Ok(name) ==> host == Host::MacOs && recorded(
            environment,
            CONTAINER_KEY@,
        ) == Some(name) && name == container_of(environment.id),
        host == Host::MacOs && recorded(environment, CONTAINER_KEY@) == Some(
            container_of(environment.id),
        ) ==> container_here(host, environment) is Ok,
        recorded(environment, CONTAINER_KEY@) is Some <==> in_container(environment),
        recorded(environment, VM_INSTANCE_KEY@) is Some <==> in_machine(environment),
{
}

/// What goes with an environment on macOS: its container if that is its own to remove, and without a
/// container its virtual machine if it owns that under the name that it gave it.
pub proof fn law_guests_go_with_their_owner(environment: EnvironmentView)
    ensures
        in_container(environment) ==> cleanup_of(Host::MacOs, environment) == Ok::<
            CleanupView,
            Seq<char>,
        >(
            if recorded(environment, MANAGED_KEY@) == Some("true"@) {
                CleanupView::Container { name: recorded(environment, CONTAINER_KEY@)->Some_0 }
            } else {
                CleanupView::Nothing
            },
        ),
        !in_container(environment) && recorded(environment, VM_MANAGED_KEY@) != Some("true"@)
            ==> cleanup_of(Host::MacOs, environment) == Ok::<CleanupView, Seq<char>>(
            CleanupView::Nothing,
        ),
        !in_container(environment) && recorded(environment, VM_MANAGED_KEY@) == Some("true"@)
            && recorded(environment, VM_INSTANCE_KEY@) == Some(machine_of(environment.id))
            ==> cleanup_of(Host::MacOs, environment) == Ok::<CleanupView, Seq<char>>(
            CleanupView::Machine { instance: machine_of(environment.id) },
        ),
        !in_container(environment) && recorded(environment, VM_MANAGED_KEY@) == Some("true"@)
            && recorded(environment, VM_INSTANCE_KEY@) != Some(machine_of(environment.id))
            ==> cleanup_of(Host::MacOs, environment) is Err,
{
}

} // verus!
