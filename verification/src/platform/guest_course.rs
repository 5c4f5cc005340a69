//! What holds of guest systems and workspaces as a whole: which files are taken over from them, what
//! becomes of a container that is turned into an image, and what their tools are called with.
use vstd::prelude::*;

use crate::candidate::{rewritten, CanonicalForms};
use crate::command::CommandOutput;
use crate::connectivity::ends_with;
use crate::lifecycle::{keeps_other_path, law_lists_hold_what_was_put_in, same_but_files};
use crate::model::{
    views, EnvironmentView, LinuxImageChange, LinuxImageChangeView, Origin, OriginView,
};
use crate::order::lemma_sorted_members;
use crate::path::{is_safe_relative, is_under, joined, lists_path, parts, same_parts, FsPath};
use crate::platform::{engine_check, native_check};
use crate::platform::calls::{docker_arguments_of, vm_call_arguments_of, DockerCallView, VmCallView};
use crate::platform::commit::{
    build_outcome, build_value, commit_record, commit_started, commit_step, last_image_id,
    unaccounted, uncommit_record, uncommit_started, uncommit_step, CommitActionView, CommitEvent,
    CommitPhase,
};
use crate::platform::docker::{
    answer, captured, container_of, creation, engine_detail, guest_program_found, helper_steps,
    image_change, image_changes, image_ranks, image_relative, is_image_reference, listed_changes,
    recorded, reported_mode, run_arguments_of, GuestProgramView, HelperStepView, COMMITTED_ID_KEY,
    COMMITTED_IMAGE_KEY, COMMITTED_PARENT_ID_KEY, CONTAINER_KEY, SOURCE_CMD_KEY,
    SOURCE_ENTRYPOINT_KEY,
};
use crate::platform::guest::{
    guest_command, guest_directory_of, guest_program, is_interactive, preparation, sync_step,
    test_switch, FileCheck, GuestFile, GuestKind, GuestStepView, SyncActionView, SyncEvent,
    SyncPhase, SyncView,
};
use crate::platform::lima::{
    clone_script, deleted_before, deletes_before, guest_refusal, is_machine_name, mac_report,
    machine_of, machine_reset, owns_machine, reset_script, vm_arguments_of, vm_run_arguments_of,
    MacFindings, VmStepView, VM_BASE_KEY, VM_INSTANCE_KEY, VM_MANAGED_KEY,
};
use crate::platform::linux::{
    first_missing, forwards, namespace_call, network_body, network_failure, network_opening,
    required_tools, sandbox_body, sandbox_ending, sandbox_opening, sandbox_paths_of, start_refusal,
    LayoutView, NetworkSetupView, NetworkStepView, SandboxPathsView, SandboxStepView,
};
use crate::platform::native::{
    argument_rewritten, candidates_upto, first_unexpected, run_refusal, take_over_steps, taken_over,
    ArgumentView, CandidateStepView, TakeOverStepView,
};
use crate::platform::programs::{first_file, places_of, Place};
use crate::script::ScriptStep;
use crate::session::normalized;
use crate::store::{environment_path, upper_path};
use crate::text::{decimal, has_prefix, is_space, lines, split_first, trimmed, unsigned};

verus! {

/// What a guest holds at a path.
pub enum Held {
    Missing,
    File,
    /// A link, and whether it leads to something.
    Link { leads: bool },
    Directory,
    Other,
}

/// Whether a guest says yes to a question about a path.
pub open spec fn says_yes(held: Held, check: FileCheck) -> bool {
    match check {
        FileCheck::Exists => match held {
            Held::Missing => false,
            Held::Link { leads } => leads,
            _ => true,
        },
        FileCheck::Dangling => held is Link,
        FileCheck::Link => held is Link,
        FileCheck::Directory => held is Directory,
        FileCheck::Regular => held is File,
    }
}

/// Where a run comes to while its questions about a path are answered, after a number of answers.
pub open spec fn answered(
    run: SyncView,
    environment: EnvironmentView,
    action: SyncActionView,
    held: Held,
    n: nat,
) -> (SyncView, EnvironmentView, SyncActionView)
    decreases n,
{
    if n == 0 {
        (run, environment, action)
    } else {
        match action {
            SyncActionView::Test { check, .. } => {
                let (next, after, asked) = sync_step(
                    run,
                    environment,
                    SyncEvent::Answer { held: Ok(says_yes(held, check)) },
                );
                answered(next, after, asked, held, (n - 1) as nat)
            },
            _ => (run, environment, action),
        }
    }
}

/// Whatever a guest holds at an exported path, a few questions settle what becomes of it: a file is
/// copied to the candidate of the path; where there is nothing, the candidate is removed, and the
/// path counts as deleted; and a link, a directory or anything else ends the run with an error.
pub proof fn law_exported_files_are_taken_over(
    run: SyncView,
    environment: EnvironmentView,
    held: Held,
)
    requires
        run.index < environment.tracked_paths.len(),
        run.phase == SyncPhase::Presence,
    ensures
        ({
            let path = environment.tracked_paths[run.index as int];
            let first = SyncActionView::Test { check: FileCheck::Exists, guest: joined("/"@, path) };
            let (next, after, action) = answered(run, environment, first, held, 6);
            &&& after == environment
            &&& next.index == run.index
            &&& next.upper == run.upper
            &&& match held {
                Held::File => next.phase == SyncPhase::Copied && action == (SyncActionView::Copy {
                    guest: joined("/"@, path),
                    candidate: joined(run.upper, path),
                }),
                Held::Missing => next.phase == (SyncPhase::Removed { deleted: true }) && action
                    == (SyncActionView::Remove { candidate: joined(run.upper, path) }),
                _ => action matches SyncActionView::Finish { result } && result is Err,
            }
        }),
{
    reveal_with_fuel(answered, 7);
}

/// A path whose file was copied is not deleted any more, and one whose candidate was removed
/// because the guest has nothing there is; no other path is touched. Then the next path has its
/// turn, and behind the last one the run ends with the number of paths.
pub proof fn law_taken_files_are_recorded(
    run: SyncView,
    environment: EnvironmentView,
    other: Seq<char>,
)
    requires
        run.index < environment.tracked_paths.len(),
        run.phase == SyncPhase::Copied || run.phase == (SyncPhase::Removed { deleted: true }),
    ensures
        ({
            let path = environment.tracked_paths[run.index as int];
            let (next, after, action) = sync_step(
                run,
                environment,
                SyncEvent::Done { result: Ok(()) },
            );
            &&& same_but_files(environment, after)
            &&& after.tracked_paths == environment.tracked_paths
            &&& lists_path(after.deleted_paths, path) <==> !(run.phase is Copied)
            &&& !same_parts(other, path) ==> keeps_other_path(environment, after, other)
            &&& next.index == run.index + 1
            &&& run.index + 1 == environment.tracked_paths.len() ==> action
                == (SyncActionView::Finish { result: Ok(environment.tracked_paths.len()) })
            &&& run.index + 1 < environment.tracked_paths.len() && is_safe_relative(
                environment.tracked_paths[run.index as int + 1],
            ) ==> {
                let following = environment.tracked_paths[run.index as int + 1];
                match run.kind {
                    GuestKind::Machine => action == (SyncActionView::Inspect {
                        path: joined(environment.base_root, following),
                    }) && next.phase == SyncPhase::Origin,
                    GuestKind::Image => action == (SyncActionView::Test {
                        check: FileCheck::Exists,
                        guest: joined("/"@, following),
                    }) && next.phase == SyncPhase::Presence,
                }
            }
        }),
{
    let path = environment.tracked_paths[run.index as int];
    law_lists_hold_what_was_put_in(environment.deleted_paths, path, other);
}

/// What the host holds at an exported path of a virtual machine is put on record before the guest
/// is asked for it, unless something is on record.
pub proof fn law_origins_come_first(
    run: SyncView,
    environment: EnvironmentView,
    origin: Origin,
)
    requires
        run.index < environment.tracked_paths.len(),
        run.phase == SyncPhase::Origin,
    ensures
        ({
            let path = environment.tracked_paths[run.index as int];
            let (next, after, action) = sync_step(
                run,
                environment,
                SyncEvent::Origin { origin: Ok(origin) },
            );
            &&& next.phase == SyncPhase::Presence
            &&& action == (SyncActionView::Test {
                check: FileCheck::Exists,
                guest: joined("/"@, path),
            })
            &&& after.origins.dom().contains(parts(path))
            &&& after.origins[parts(path)] == if environment.origins.dom().contains(parts(path)) {
                environment.origins[parts(path)]
            } else {
                origin@
            }
        }),
{
}

/// The questions about a file are put to the test program by its own switches.
pub proof fn law_questions_have_their_switches()
    ensures
        test_switch(FileCheck::Exists) == seq!['-', 'e'],
        test_switch(FileCheck::Dangling) == seq!['-', 'L'],
        test_switch(FileCheck::Link) == seq!['-', 'L'],
        test_switch(FileCheck::Directory) == seq!['-', 'd'],
        test_switch(FileCheck::Regular) == seq!['-', 'f'],
{
    reveal_strlit("-e");
    reveal_strlit("-L");
    reveal_strlit("-d");
    reveal_strlit("-f");
}

/// A command runs in a guest as it would on the host, but that the program of the host is the one
/// that was brought in: it is put in the directory of the sandbox and made executable, after that
/// was made and before anything runs, and with it the circuits to check, if there are any.
pub proof fn law_guests_run_the_program_they_are_given(
    command: Seq<Seq<char>>,
    executable: Seq<char>,
    directory: Seq<char>,
    has_input: bool,
)
    ensures
        guest_command(command, executable, directory).len() == command.len(),
        forall|i: int|
            0 < i < command.len() ==> #[trigger] guest_command(command, executable, directory)[i]
                == command[i],
        command.len() > 0 ==> guest_command(command, executable, directory)[0] == if same_parts(
            command[0],
            executable,
        ) {
            guest_program(directory)
        } else {
            command[0]
        },
        ({
            let steps = preparation(directory, has_input);
            &&& steps[0] == (GuestStepView::Run { argv: seq!["/bin/mkdir"@, "-p"@, directory] })
            &&& steps[2] == (GuestStepView::CopyIn {
                file: GuestFile::Program,
                destination: guest_program(directory),
            })
            &&& steps[3] == (GuestStepView::Run {
                argv: seq!["/bin/chmod"@, "755"@, guest_program(directory)],
            })
            &&& has_input <==> exists|i: int|
                0 <= i < steps.len() && (#[trigger] steps[i] matches GuestStepView::CopyIn {
                    file,
                    ..
                } && file == GuestFile::ProbeInput)
            &&& steps.len() == if has_input {
                5nat
            } else {
                4nat
            }
        }),
        is_interactive(command) <==> exists|i: int|
            0 <= i < command.len() && (#[trigger] command[i] == "-i"@ || command[i]
                == "--interactive"@),
{
    let steps = preparation(directory, has_input);
    if has_input {
        assert(steps[4] is CopyIn);
    }
}

/// Whether a change of an image is the one that a line of the engine's list tells of: a letter, a
/// blank and a path. It is accounted for if the path is an exported one or holds one.
pub open spec fn tells_of(
    environment: EnvironmentView,
    line: Seq<char>,
    change: LinuxImageChangeView,
) -> bool {
    &&& split_first(line, ' ') == Some((change.kind, change.path))
    &&& !is_under(change.path, guest_directory_of(environment.id))
    &&& change.is_tracked <==> exists|i: int|
        0 <= i < environment.tracked_paths.len() && is_under(
            #[trigger] environment.tracked_paths[i],
            image_relative(change.path),
        )
}

/// The changes of a container are exactly what the engine's list tells of, but for the directory of
/// the sandbox in it.
pub proof fn law_container_changes_are_what_is_listed(
    environment: EnvironmentView,
    text: Seq<char>,
    change: LinuxImageChangeView,
)
    ensures
        listed_changes(environment, text).contains(change) <==> exists|i: int|
            0 <= i < lines(text).len() && tells_of(environment, #[trigger] lines(text)[i], change),
{
    let all = lines(text);
    let found = image_changes(environment, all);
    let sorted = listed_changes(environment, text);
    lemma_sorted_members::<LinuxImageChange, LinuxImageChangeView>(image_ranks(found), found);
    lemma_image_changes(environment, all, change);
    if sorted.contains(change) {
        let k = choose|k: int| 0 <= k < sorted.len() && sorted[k] == change;
        assert(found.contains(sorted[k]));
    }
    if found.contains(change) {
        let k = choose|k: int| 0 <= k < found.len() && found[k] == change;
        assert(sorted.contains(found[k]));
    }
}

proof fn lemma_image_changes(
    environment: EnvironmentView,
    all: Seq<Seq<char>>,
    change: LinuxImageChangeView,
)
    ensures
        image_changes(environment, all).contains(change) <==> exists|i: int|
            0 <= i < all.len() && tells_of(environment, #[trigger] all[i], change),
    decreases all.len(),
{
    let list = image_changes(environment, all);
    if all.len() > 0 {
        let shorter = all.drop_last();
        let before = image_changes(environment, shorter);
        lemma_image_changes(environment, shorter, change);
        assert(image_change(environment, all.last()) == Some(change) <==> tells_of(
            environment,
            all.last(),
            change,
        ));
        if list.contains(change) {
            let k = choose|k: int| 0 <= k < list.len() && list[k] == change;
            if k < before.len() {
                assert(before[k] == change);
                let i = choose|i: int|
                    0 <= i < shorter.len() && tells_of(environment, #[trigger] shorter[i], change);
                assert(tells_of(environment, all[i], change));
            } else {
                assert(tells_of(environment, all[all.len() - 1], change));
            }
        }
        if exists|i: int|
            0 <= i < all.len() && tells_of(environment, #[trigger] all[i], change) {
            let i = choose|i: int|
                0 <= i < all.len() && tells_of(environment, #[trigger] all[i], change);
            if i < shorter.len() {
                assert(tells_of(environment, shorter[i], change));
                let k = choose|k: int| 0 <= k < before.len() && before[k] == change;
                assert(list[k] == change);
            } else {
                assert(list[list.len() - 1] == change);
            }
        }
    }
}

/// No change is unaccounted for exactly if each is marked as accounted for.
pub proof fn law_unaccounted_changes_are_counted(changes: Seq<LinuxImageChangeView>)
    ensures
        unaccounted(changes) == 0 <==> forall|i: int|
            0 <= i < changes.len() ==> (#[trigger] changes[i]).is_tracked,
        unaccounted(changes) <= changes.len(),
    decreases changes.len(),
{
    if changes.len() > 0 {
        let shorter = changes.drop_last();
        law_unaccounted_changes_are_counted(shorter);
        assert(changes[changes.len() - 1] == changes.last());
        if unaccounted(changes) == 0 {
            assert forall|i: int| 0 <= i < changes.len() implies (
            #[trigger] changes[i]).is_tracked by {
                if i < shorter.len() {
                    assert(shorter[i].is_tracked);
                }
            }
        }
        if forall|i: int| 0 <= i < changes.len() ==> (#[trigger] changes[i]).is_tracked {
            assert forall|i: int| 0 <= i < shorter.len() implies (
            #[trigger] shorter[i]).is_tracked by {
                assert(changes[i].is_tracked);
            }
        }
    }
}

/// The image that a commit made is named by the last line of the engine's answer that holds a
/// digest.
pub proof fn law_the_last_digest_counts(all: Seq<Seq<char>>, i: int)
    requires
        0 <= i < all.len(),
    ensures
        has_prefix(trimmed(all[i]), "sha256:"@) && (forall|k: int|
            i < k < all.len() ==> !has_prefix(trimmed(#[trigger] all[k]), "sha256:"@))
            ==> last_image_id(all) == Some(trimmed(all[i])),
        (forall|k: int|
            0 <= k < all.len() ==> !has_prefix(trimmed(#[trigger] all[k]), "sha256:"@))
            ==> last_image_id(all) is None,
    decreases all.len(),
{
    let shorter = all.drop_last();
    assert(all[all.len() - 1] == all.last());
    if i < shorter.len() {
        law_the_last_digest_counts(shorter, i);
        assert forall|k: int| 0 <= k < shorter.len() implies shorter[k] == #[trigger] all[k] by {}
    } else if shorter.len() > 0 {
        law_the_last_digest_counts(shorter, 0);
        assert forall|k: int| 0 <= k < shorter.len() implies shorter[k] == #[trigger] all[k] by {}
    }
}

/// A commit runs its course to the end where nothing stands in its way: the container is checked to
/// be the environment's own; neither image is there yet; each change is accounted for; the container
/// is committed to the internal image; the image that was asked for is built from it with the
/// process of the source image; the internal image is removed; and the image, its digest and its
/// parent are recorded.
pub proof fn law_commits_run_to_the_end(
    environment: EnvironmentView,
    output: Seq<char>,
    process: nat,
    changes: Vec<LinuxImageChange>,
    made: CommandOutput,
    identity: CommandOutput,
)
    requires
        is_image_reference(output),
        recorded(environment, CONTAINER_KEY@) == Some(container_of(environment.id)),
        recorded(environment, SOURCE_ENTRYPOINT_KEY@) is Some,
        recorded(environment, SOURCE_CMD_KEY@) is Some,
        forall|i: int| 0 <= i < changes@.len() ==> (#[trigger] views(changes@)[i]).is_tracked,
        made.succeeded(),
        last_image_id(lines(made.output_text())) is Some,
        identity.succeeded(),
    ensures
        commit_started(environment, output, process) is Ok,
        ({
            let container = container_of(environment.id);
            let missing = CommitEvent::Exists { exists: Ok(false) };
            let run = commit_started(environment, output, process)->Ok_0;
            let owned = commit_step(run, environment, CommitEvent::Owner { owned: Ok(()) });
            let free = commit_step(owned.0, environment, missing);
            let listed = commit_step(
                free.0,
                environment,
                CommitEvent::Changes { changes: Ok(changes) },
            );
            let clear = commit_step(listed.0, environment, missing);
            let kept = commit_step(clear.0, environment, CommitEvent::Output { output: Ok(made) });
            let built = commit_step(kept.0, environment, CommitEvent::Done { result: Ok(()) });
            let removed = commit_step(built.0, environment, CommitEvent::Done { result: Ok(()) });
            let named = commit_step(
                removed.0,
                environment,
                CommitEvent::Output { output: Ok(identity) },
            );
            let after = commit_record(named.0, environment, named.1);
            &&& run.phase == CommitPhase::Owner
            &&& run.container == container
            &&& owned.1 == (CommitActionView::LookUp { image: output })
            &&& free.1 == (CommitActionView::ListChanges { container })
            &&& listed.1 == (CommitActionView::LookUp { image: run.internal })
            &&& clear.1 == (CommitActionView::Commit { container, image: run.internal })
            &&& kept.1 matches CommitActionView::Build { image, build_file } && image == output
                && build_file == "FROM "@ + run.internal + "\nENTRYPOINT "@ + build_value(
                environment.metadata[SOURCE_ENTRYPOINT_KEY@],
            ) + "\nCMD "@ + build_value(environment.metadata[SOURCE_CMD_KEY@]) + "\n"@
            &&& built.1 == (CommitActionView::Remove { image: run.internal })
            &&& removed.1 == (CommitActionView::Identify { image: output })
            &&& named.1 == (CommitActionView::Finish {
                result: Ok(trimmed(identity.output_text())),
            })
            &&& recorded(after, COMMITTED_IMAGE_KEY@) == Some(output)
            &&& recorded(after, COMMITTED_ID_KEY@) == Some(trimmed(identity.output_text()))
            &&& recorded(after, COMMITTED_PARENT_ID_KEY@) == last_image_id(
                lines(made.output_text()),
            )
            &&& after == (EnvironmentView { metadata: after.metadata, ..environment })
        }),
{
    reveal_strlit("docker_linux_committed_image");
    reveal_strlit("docker_linux_committed_id");
    reveal_strlit("docker_linux_committed_parent_id");
    assert(COMMITTED_IMAGE_KEY@.len() == 28);
    assert(COMMITTED_ID_KEY@.len() == 25);
    assert(COMMITTED_PARENT_ID_KEY@.len() == 32);
    law_unaccounted_changes_are_counted(views(changes@));
}

/// A commit is taken back where the image is still the recorded one: it is removed, and the image
/// that it was built from with it, whatever comes of that; then nothing of it is on record.
pub proof fn law_commits_are_taken_back(
    environment: EnvironmentView,
    identity: CommandOutput,
    removal: CommandOutput,
    last: Result<CommandOutput, String>,
)
    requires
        recorded(environment, COMMITTED_IMAGE_KEY@) is Some,
        recorded(environment, COMMITTED_ID_KEY@) is Some,
        identity.succeeded(),
        removal.succeeded(),
        Some(trimmed(identity.output_text())) == recorded(environment, COMMITTED_ID_KEY@),
    ensures
        uncommit_started(environment) is Ok,
        ({
            let run = uncommit_started(environment)->Ok_0;
            let image = recorded(environment, COMMITTED_IMAGE_KEY@)->Some_0;
            let known = uncommit_step(run, environment, Ok(identity));
            let gone = uncommit_step(known.0, environment, Ok(removal));
            let end = match recorded(environment, COMMITTED_PARENT_ID_KEY@) {
                Some(_) => uncommit_step(gone.0, environment, last),
                None => gone,
            };
            let after = uncommit_record(environment, end.1);
            &&& known.1 == (CommitActionView::Remove { image })
            &&& recorded(environment, COMMITTED_PARENT_ID_KEY@) matches Some(parent) ==> gone.1
                == (CommitActionView::Remove { image: parent })
            &&& end.1 == (CommitActionView::Finish { result: Ok(image) })
            &&& recorded(after, COMMITTED_IMAGE_KEY@) is None
            &&& recorded(after, COMMITTED_ID_KEY@) is None
            &&& recorded(after, COMMITTED_PARENT_ID_KEY@) is None
            &&& after == (EnvironmentView { metadata: after.metadata, ..environment })
        }),
{
}

/// A capture puts what the pristine image holds at a path on record and exports the path from now
/// on; the path is not deleted, and no other path is touched.
pub proof fn law_captures_record_the_image(
    environment: EnvironmentView,
    relative: Seq<char>,
    origin: OriginView,
    other: Seq<char>,
)
    ensures
        ({
            let after = captured(environment, relative, origin);
            &&& same_but_files(environment, after)
            &&& after.status == environment.status
            &&& after.origins.dom().contains(parts(relative))
            &&& after.origins[parts(relative)] == origin
            &&& !lists_path(after.deleted_paths, relative)
            &&& !same_parts(other, relative) ==> keeps_other_path(environment, after, other)
        }),
{
    law_lists_hold_what_was_put_in(environment.deleted_paths, relative, other);
}

/// A lookup that answers with its exit code says yes with zero, no with one, and else nothing.
pub proof fn law_exit_codes_answer(code: Option<i32>)
    ensures
        answer(code) == Some(true) <==> code == Some(0i32),
        answer(code) == Some(false) <==> code == Some(1i32),
{
}

/// Whether each deletion and each clone of a script is of one virtual machine, and never of its
/// base.
pub open spec fn works_on(steps: Seq<VmStepView>, base: Seq<char>, instance: Seq<char>) -> bool {
    forall|i: int|
        0 <= i < steps.len() ==> match #[trigger] steps[i] {
            VmStepView::Delete { instance: deleted } => deleted == instance,
            VmStepView::Clone { base: from, instance: to } => from == base && to == instance,
            VmStepView::CheckGuest { instance: asked } => asked == base || asked == instance,
            VmStepView::CheckVersion => true,
        }
}

/// Cloning and starting over make one clone of the base, after the base was found to run macOS, and
/// delete nothing but the clone: an old one before, and the new one if it does not run macOS.
pub proof fn law_bases_are_never_deleted(base: Seq<char>, instance: Seq<char>)
    ensures
        works_on(clone_script(base, instance).opening, base, instance),
        works_on(clone_script(base, instance).body, base, instance),
        works_on(clone_script(base, instance).ending, base, instance),
        works_on(reset_script(base, instance).opening, base, instance),
        works_on(reset_script(base, instance).body, base, instance),
        works_on(reset_script(base, instance).ending, base, instance),
        ({
            let fresh = clone_script(base, instance);
            let again = reset_script(base, instance);
            &&& fresh.opening.contains(VmStepView::CheckGuest { instance: base })
            &&& again.opening.contains(VmStepView::CheckGuest { instance: base })
            &&& fresh.opening.last() == (VmStepView::Clone { base, instance })
            &&& again.opening.last() == (VmStepView::Clone { base, instance })
            &&& again.opening[again.opening.len() - 2] == (VmStepView::Delete { instance })
            &&& forall|i: int|
                0 <= i < fresh.opening.len() ==> !((#[trigger] fresh.opening[i]) is Delete)
            &&& fresh.body == seq![VmStepView::CheckGuest { instance }]
            &&& again.body == seq![VmStepView::CheckGuest { instance }]
            &&& fresh.ending == seq![VmStepView::Delete { instance }]
            &&& again.ending == seq![VmStepView::Delete { instance }]
        }),
{
    let fresh = clone_script(base, instance).opening;
    let again = reset_script(base, instance).opening;
    assert(fresh[1] == (VmStepView::CheckGuest { instance: base }));
    assert(again[1] == (VmStepView::CheckGuest { instance: base }));
}

/// Only a virtual machine that an environment owns is started over, under the name that the
/// environment gave it and from the base that is on record.
pub proof fn law_only_own_machines_start_over(environment: EnvironmentView)
    ensures
        machine_reset(environment) matches Ok(script) ==> owns_machine(environment) && recorded(
            environment,
            VM_INSTANCE_KEY@,
        ) == Some(machine_of(environment.id)) && (recorded(environment, VM_BASE_KEY@)
            matches Some(base) && works_on(
            script.opening,
            base,
            machine_of(environment.id),
        )),
{
    if let Ok(script) = machine_reset(environment) {
        let base = recorded(environment, VM_BASE_KEY@)->Some_0;
        law_bases_are_never_deleted(base, machine_of(environment.id));
    }
}

/// What a step of a virtual machine calls its tool with: the operation first, and every machine
/// that it names.
pub proof fn law_machine_steps_name_their_machines(step: VmStepView)
    ensures
        match step {
            VmStepView::CheckVersion => vm_arguments_of(step) == seq!["--version"@],
            VmStepView::CheckGuest { instance } => vm_arguments_of(step)[0] == "shell"@
                && vm_arguments_of(step)[3] == instance && vm_arguments_of(step)[2] == "--start"@,
            VmStepView::Delete { instance } => vm_arguments_of(step)[0] == "delete"@
                && vm_arguments_of(step).last() == instance && vm_arguments_of(step).contains(
                "--force"@,
            ),
            VmStepView::Clone { base, instance } => vm_arguments_of(step)[0] == "clone"@
                && vm_arguments_of(step)[1] == base && vm_arguments_of(step)[2] == instance
                && vm_arguments_of(step).contains("--mount-none"@),
        },
{
    if step is Delete {
        assert(vm_arguments_of(step)[1] == "--force"@);
    }
    if step is Clone {
        assert(vm_arguments_of(step)[3] == "--mount-none"@);
    }
}

/// What the container engine is called with: the operation first, and what it is about in its
/// place. Commands in a container run as its root user.
pub proof fn law_engine_calls_name_what_they_are_about(call: DockerCallView)
    ensures
        ({
            let a = docker_arguments_of(call);
            match call {
                DockerCallView::Version => a[0] == "version"@,
                DockerCallView::Owner { container } => a.len() == 4 && a[0] == "inspect"@
                    && a.last() == container,
                DockerCallView::Inspect { container } => a == seq!["inspect"@, container],
                DockerCallView::State { container } => a.len() == 4 && a[0] == "inspect"@
                    && a.last() == container,
                DockerCallView::Start { container } => a == seq!["start"@, container],
                DockerCallView::Remove { container } => a == seq!["rm"@, "--force"@, container],
                DockerCallView::Changes { container } => a == seq!["diff"@, container],
                DockerCallView::System { container } => runs_in(a, container, 2),
                DockerCallView::Test { container, check, path } => runs_in(a, container, 3)
                    && a[4] == "/bin/test"@ && a[5] == test_switch(check) && a[6] == path,
                DockerCallView::Mode { container, path } => runs_in(a, container, 4) && a[4]
                    == "/bin/stat"@ && a[7] == path,
                DockerCallView::CopyIn { container, source, path } => a == seq![
                    "cp"@,
                    source,
                    container + ":"@ + path,
                ],
                DockerCallView::CopyOut { container, path, target } => a == seq![
                    "cp"@,
                    container + ":"@ + path,
                    target,
                ],
                DockerCallView::LookUpImage { image } => a == seq!["image"@, "inspect"@, image],
                DockerCallView::ImageProcess { image } => a.len() == 5 && a[0] == "image"@ && a[1]
                    == "inspect"@ && a.last() == image,
                DockerCallView::ImageId { image } => a.len() == 5 && a[0] == "image"@ && a[1]
                    == "inspect"@ && a[3] == "{{.Id}}"@ && a.last() == image,
                DockerCallView::RemoveImage { image } => a == seq!["image"@, "rm"@, image],
                DockerCallView::Commit { container, image } => a == seq![
                    "commit"@,
                    container,
                    image,
                ],
                DockerCallView::Build { image, directory } => a[0] == "build"@ && a[1] == "--tag"@
                    && a[2] == image && a[3] == "--file"@ && a[4] == "-"@ && a.last() == directory,
                DockerCallView::Run { container, argv } => runs_in(a, container, argv.len())
                    && a.skip(4) == argv,
            }
        }),
{
    if let DockerCallView::Run { container, argv } = call {
        assert(docker_arguments_of(call).skip(4) =~= argv);
    }
}

/// Whether arguments run a command of so many words in a container, as its root user.
pub open spec fn runs_in(a: Seq<Seq<char>>, container: Seq<char>, words: nat) -> bool {
    &&& a.len() == 4 + words
    &&& a[0] == "exec"@
    &&& a[1] == "--user"@
    &&& a[2] == "0"@
    &&& a[3] == container
}

/// What the tool of the virtual machines is called with: the operation first, and what it is about
/// in its place.
pub proof fn law_machine_calls_name_what_they_are_about(call: VmCallView)
    ensures
        ({
            let a = vm_call_arguments_of(call);
            match call {
                VmCallView::Status { instance } => a[0] == "list"@ && a[1] == instance,
                VmCallView::Test { instance, check, path } => runs_on(a, instance, 3) && a[4]
                    == "/usr/bin/test"@ && a[5] == test_switch(check) && a[6] == path,
                VmCallView::Mode { instance, path } => runs_on(a, instance, 4) && a[4]
                    == "/usr/bin/stat"@ && a[7] == path,
                VmCallView::CopyIn { instance, source, path } => a[0] == "copy"@ && a[2] == source
                    && a[3] == instance + ":"@ + path && a.len() == 4,
                VmCallView::CopyOut { instance, path, target } => a[0] == "copy"@ && a[2]
                    == instance + ":"@ + path && a[3] == target && a.len() == 4,
                VmCallView::Run { instance, argv } => runs_on(a, instance, argv.len()) && a.skip(4)
                    == argv,
            }
        }),
{
    if let VmCallView::Run { instance, argv } = call {
        assert(vm_call_arguments_of(call).skip(4) =~= argv);
    }
}

/// Whether arguments run a command of so many words in a virtual machine, without a terminal.
pub open spec fn runs_on(a: Seq<Seq<char>>, instance: Seq<char>, words: nat) -> bool {
    &&& a.len() == 4 + words
    &&& a[0] == "shell"@
    &&& a[1] == "--tty=false"@
    &&& a[2] == "--start"@
    &&& a[3] == instance
}

/// A command that is run in the sandbox of an environment comes last and whole, behind the
/// container or the virtual machine, with the name of the environment among its variables; it gets
/// a terminal only if it asks for one and there is one.
pub proof fn law_commands_run_whole(
    name: Seq<char>,
    directory: Seq<char>,
    place: Seq<char>,
    interactive: bool,
    terminal: bool,
    command: Seq<Seq<char>>,
)
    ensures
        ({
            let a = run_arguments_of(name, directory, place, interactive, terminal, command);
            let n = a.len() - command.len();
            &&& a[0] == "exec"@
            &&& n > 1
            &&& a.skip(n) == command
            &&& a[n - 1] == place
            &&& a.take(n).contains("NETSANDBOX_ACTIVE="@ + name)
            &&& a.take(n).contains("NETSANDBOX_CONTROL="@ + directory)
            &&& interactive ==> a[1] == "-i"@
            &&& interactive && terminal ==> a[2] == "-t"@
            &&& !interactive ==> a[1] == "--user"@
            &&& interactive && !terminal ==> a[2] == "--user"@
        }),
        ({
            let a = vm_run_arguments_of(name, directory, place, interactive, command);
            let n = a.len() - command.len();
            &&& a[0] == "shell"@
            &&& n > 1
            &&& a.skip(n) == command
            &&& a.take(n).contains(place)
            &&& a.take(n).contains("NETSANDBOX_ACTIVE="@ + name)
            &&& a.take(n).contains("NETSANDBOX_CONTROL="@ + directory)
            &&& interactive ==> a[1] == "--start"@
            &&& !interactive ==> a[1] == "--tty=false"@
        }),
{
    let a = run_arguments_of(name, directory, place, interactive, terminal, command);
    let n = a.len() - command.len();
    assert(a.skip(n) =~= command);
    assert(a.take(n)[n - 10] == "NETSANDBOX_ACTIVE="@ + name);
    assert(a.take(n)[n - 6] == "NETSANDBOX_CONTROL="@ + directory);
    let b = vm_run_arguments_of(name, directory, place, interactive, command);
    let m = b.len() - command.len();
    assert(b.skip(m) =~= command);
    assert(b.take(m)[m - 7] == place);
    assert(b.take(m)[m - 5] == "NETSANDBOX_ACTIVE="@ + name);
    assert(b.take(m)[m - 3] == "NETSANDBOX_CONTROL="@ + directory);
}

/// The guest program that was configured is the only one that counts; without one it is the first
/// that is found beside the program of the host, and only without any the embedded one.
pub proof fn law_guest_programs_are_found_in_order(
    configured: Option<Place>,
    executable: Seq<char>,
    places: Seq<Place>,
    embedded: Option<Seq<char>>,
    i: int,
)
    requires
        0 <= i < places.len(),
    ensures
        configured matches Some(place) ==> (guest_program_found(
            configured,
            executable,
            places,
            embedded,
        ) is Ok <==> place.is_file),
        configured matches Some(place) ==> place.is_file ==> guest_program_found(
            configured,
            executable,
            places,
            embedded,
        ) == Ok::<GuestProgramView, Seq<char>>(GuestProgramView::Found { path: place.path@ }),
        configured is None && places[i].is_file && (forall|k: int|
            0 <= k < i ==> !(#[trigger] places[k]).is_file) ==> guest_program_found(
            configured,
            executable,
            places,
            embedded,
        ) == Ok::<GuestProgramView, Seq<char>>(GuestProgramView::Found { path: places[i].path@ }),
        configured is None && (forall|k: int|
            0 <= k < places.len() ==> !(#[trigger] places[k]).is_file) ==> guest_program_found(
            configured,
            executable,
            places,
            embedded,
        ) == match embedded {
            Some(path) => Ok::<GuestProgramView, Seq<char>>(GuestProgramView::Embedded { path }),
            None => Err::<GuestProgramView, Seq<char>>(
                guest_program_found(configured, executable, places, embedded)->Err_0,
            ),
        },
{
    lemma_first_file(places, i);
}

proof fn lemma_first_file(places: Seq<Place>, i: int)
    requires
        0 <= i < places.len(),
    ensures
        places[i].is_file && (forall|k: int| 0 <= k < i ==> !(#[trigger] places[k]).is_file)
            ==> first_file(places) == Some(places[i].path@),
        (forall|k: int| 0 <= k < places.len() ==> !(#[trigger] places[k]).is_file)
            ==> first_file(places) is None,
    decreases places.len(),
{
    let shorter = places.drop_last();
    assert forall|k: int| 0 <= k < shorter.len() implies shorter[k] == #[trigger] places[k] by {}
    if i < shorter.len() {
        lemma_first_file(shorter, i);
    } else if shorter.len() > 0 {
        lemma_first_file(shorter, 0);
    }
    assert(places[places.len() - 1] == places.last());
}

/// A program is looked for where it was configured to be, and only then in the directories of the
/// search path, in order, and at last where it usually is.
pub proof fn law_programs_are_looked_for_in_order(
    configured: Option<Seq<char>>,
    directories: Seq<Seq<char>>,
    name: Seq<char>,
    usual: Seq<Seq<char>>,
    i: int,
)
    ensures
        ({
            let all = places_of(configured, directories, name, usual);
            let c = if configured is Some {
                1int
            } else {
                0int
            };
            &&& all.len() == c + directories.len() + usual.len()
            &&& configured matches Some(path) ==> all[0] == path
            &&& 0 <= i < directories.len() ==> all[c + i] == joined(directories[i], name)
            &&& 0 <= i < usual.len() ==> all[c + directories.len() + i] == usual[i]
        }),
{
}

/// A command runs in a workspace exactly if there is one, the host can constrain it, and it does
/// not run as root; and in a sandbox of a Linux host exactly if it does, and every tool is there.
pub proof fn law_commands_run_where_they_can(
    words: nat,
    is_available: bool,
    is_root: bool,
    has_command: bool,
    tools: Seq<bool>,
)
    requires
        tools.len() == 7,
    ensures
        run_refusal(words, is_available, is_root) is None <==> words > 0 && is_available
            && !is_root,
        start_refusal(is_root, has_command, tools) is None <==> is_root && has_command && forall|
            i: int,
        |
            0 <= i < 7 ==> #[trigger] tools[i],
{
    lemma_first_missing(required_tools(), tools, 0);
}

proof fn lemma_first_missing(tools: Seq<Seq<char>>, available: Seq<bool>, from: int)
    requires
        0 <= from <= tools.len(),
        available.len() == tools.len(),
    ensures
        first_missing(tools, available, from) is None <==> forall|i: int|
            from <= i < tools.len() ==> #[trigger] available[i],
    decreases tools.len() - from,
{
    if from < tools.len() {
        lemma_first_missing(tools, available, from + 1);
    }
}

/// A workspace gets a copy of each staged file and room for each staged deletion, in order, and
/// arguments that name a staged path lead to its candidate. It cannot be made if a path leads out
/// or the staged file of one that is not deleted is missing.
pub proof fn law_workspaces_hold_what_is_staged(
    environment: EnvironmentView,
    staged: Seq<Seq<char>>,
    present: Seq<bool>,
    upper: Seq<char>,
    candidate_root: Seq<char>,
    n: int,
    i: int,
)
    requires
        0 <= n <= staged.len(),
        present.len() == staged.len(),
        0 <= i < n,
    ensures
        candidates_upto(environment, staged, present, upper, candidate_root, n) is Ok <==> forall|
            k: int,
        |
            0 <= k < n ==> is_safe_relative(#[trigger] staged[k]) && (lists_path(
                environment.deleted_paths,
                staged[k],
            ) || present[k]),
        candidates_upto(environment, staged, present, upper, candidate_root, n) matches Ok(plan)
            ==> {
            &&& plan.steps.len() == n
            &&& plan.steps[i] == if lists_path(environment.deleted_paths, staged[i]) {
                CandidateStepView::MakeParent { candidate: joined(candidate_root, staged[i]) }
            } else {
                CandidateStepView::Copy {
                    source: joined(upper, staged[i]),
                    candidate: joined(candidate_root, staged[i]),
                }
            }
            &&& plan.mappings.dom().contains(joined(environment.base_root, staged[i]))
            &&& exists|k: int|
                i <= k < n && plan.mappings[joined(environment.base_root, staged[i])] == joined(
                    candidate_root,
                    #[trigger] staged[k],
                )
        },
    decreases n,
{
    lemma_candidates_pass(environment, staged, present, upper, candidate_root, n);
    lemma_candidates_hold(environment, staged, present, upper, candidate_root, n, i);
}

proof fn lemma_candidates_pass(
    environment: EnvironmentView,
    staged: Seq<Seq<char>>,
    present: Seq<bool>,
    upper: Seq<char>,
    candidate_root: Seq<char>,
    n: int,
)
    requires
        0 <= n <= staged.len(),
    ensures
        candidates_upto(environment, staged, present, upper, candidate_root, n) is Ok <==> forall|
            k: int,
        |
            0 <= k < n ==> is_safe_relative(#[trigger] staged[k]) && (lists_path(
                environment.deleted_paths,
                staged[k],
            ) || present[k]),
    decreases n,
{
    if n > 0 {
        lemma_candidates_pass(environment, staged, present, upper, candidate_root, n - 1);
        assert(staged[n - 1] == staged[n - 1]);
    }
}

proof fn lemma_candidates_hold(
    environment: EnvironmentView,
    staged: Seq<Seq<char>>,
    present: Seq<bool>,
    upper: Seq<char>,
    candidate_root: Seq<char>,
    n: int,
    i: int,
)
    requires
        0 <= n <= staged.len(),
        0 <= i < n,
    ensures
        candidates_upto(environment, staged, present, upper, candidate_root, n) matches Ok(plan)
            ==> {
            &&& plan.steps.len() == n
            &&& plan.steps[i] == if lists_path(environment.deleted_paths, staged[i]) {
                CandidateStepView::MakeParent { candidate: joined(candidate_root, staged[i]) }
            } else {
                CandidateStepView::Copy {
                    source: joined(upper, staged[i]),
                    candidate: joined(candidate_root, staged[i]),
                }
            }
            &&& plan.mappings.dom().contains(joined(environment.base_root, staged[i]))
            &&& exists|k: int|
                i <= k < n && plan.mappings[joined(environment.base_root, staged[i])] == joined(
                    candidate_root,
                    #[trigger] staged[k],
                )
        },
    decreases n,
{
    if let Ok(plan) = candidates_upto(environment, staged, present, upper, candidate_root, n) {
        let before = candidates_upto(environment, staged, present, upper, candidate_root, n - 1);
        let key = joined(environment.base_root, staged[i]);
        let last = joined(candidate_root, staged[n - 1]);
        if n > 1 {
            lemma_candidates_hold(
                environment,
                staged,
                present,
                upper,
                candidate_root,
                n - 1,
                if i < n - 1 {
                    i
                } else {
                    0
                },
            );
        }
        if plan.mappings[key] == last {
            assert(plan.mappings[key] == joined(candidate_root, staged[n - 1]));
        } else {
            assert(i < n - 1);
            let k = choose|k: int|
                i <= k < n - 1 && before->Ok_0.mappings[key] == joined(
                    candidate_root,
                    #[trigger] staged[k],
                );
            assert(plan.mappings[key] == joined(candidate_root, staged[k]));
        }
    }
}

/// What a command left in a workspace is taken over path by path: a candidate that is there replaces
/// the staged file, and one that is gone removes it. Of the paths, those whose candidate is gone
/// count as deleted afterwards and the others do not; no other path is touched.
pub proof fn law_candidates_are_taken_over(
    environment: EnvironmentView,
    expected: Seq<Seq<char>>,
    present: Seq<bool>,
    candidate_root: Seq<char>,
    upper: Seq<char>,
    n: int,
    i: int,
    other: Seq<char>,
)
    requires
        0 <= n <= expected.len(),
        present.len() == expected.len(),
        forall|a: int, b: int|
            0 <= a < b < expected.len() ==> !same_parts(
                #[trigger] expected[a],
                #[trigger] expected[b],
            ),
    ensures
        take_over_steps(expected, present, candidate_root, upper).len() == expected.len(),
        0 <= i < expected.len() ==> take_over_steps(expected, present, candidate_root, upper)[i]
            == if present[i] {
            TakeOverStepView::Replace {
                source: joined(candidate_root, expected[i]),
                destination: joined(upper, expected[i]),
            }
        } else {
            TakeOverStepView::Remove { destination: joined(upper, expected[i]) }
        },
        ({
            let after = taken_over(environment, expected, present, n);
            &&& same_but_files(environment, after)
            &&& after.origins == environment.origins
            &&& after.origin_paths == environment.origin_paths
            &&& after.tracked_paths == environment.tracked_paths
            &&& 0 <= i < n ==> (lists_path(after.deleted_paths, expected[i]) <==> !present[i])
            &&& (forall|k: int| 0 <= k < n ==> !same_parts(#[trigger] expected[k], other))
                ==> keeps_other_path(environment, after, other)
        }),
    decreases n,
{
    if n > 0 {
        law_candidates_are_taken_over(
            environment,
            expected,
            present,
            candidate_root,
            upper,
            n - 1,
            i,
            other,
        );
        let before = taken_over(environment, expected, present, n - 1);
        law_lists_hold_what_was_put_in(before.deleted_paths, expected[n - 1], other);
        if 0 <= i < n - 1 {
            assert(!same_parts(expected[i], expected[n - 1]));
            law_lists_hold_what_was_put_in(before.deleted_paths, expected[n - 1], expected[i]);
        }
        assert(expected[n - 1] == expected[n - 1]);
    }
}

/// What a command left in a workspace is taken over only if there is nothing but what was expected
/// there.
pub proof fn law_nothing_unexpected_is_taken_over(
    entries: Seq<Seq<char>>,
    expected: Seq<Seq<char>>,
)
    ensures
        first_unexpected(entries, expected) is None <==> forall|i: int|
            0 <= i < entries.len() ==> lists_path(expected, #[trigger] entries[i]),
        first_unexpected(entries, expected) matches Some(path) ==> entries.contains(path)
            && !lists_path(expected, path),
    decreases entries.len(),
{
    if entries.len() > 0 {
        let shorter = entries.drop_last();
        law_nothing_unexpected_is_taken_over(shorter, expected);
        assert forall|k: int| 0 <= k < shorter.len() implies shorter[k] == #[trigger] entries[k] by {}
        assert(entries[entries.len() - 1] == entries.last());
        if let Some(path) = first_unexpected(shorter, expected) {
            let k = choose|k: int| 0 <= k < shorter.len() && shorter[k] == path;
            assert(entries[k] == path);
            assert(!lists_path(expected, entries[k]));
        }
    }
}

/// Whether a step mounts something at a place.
pub open spec fn mounts_at(step: SandboxStepView, place: Seq<char>) -> bool {
    step matches SandboxStepView::Run { command } && command.program == "mount"@
        && command.arguments.last() == place
}

/// Whether a step unmounts what is at a place, whatever comes of it.
pub open spec fn unmounts(step: SandboxStepView, place: Seq<char>) -> bool {
    step matches SandboxStepView::Attempt { command } && command.program == "umount"@
        && command.arguments.last() == place
}

/// A sandbox of a Linux host works on a copy: what the environment holds is copied to a layer of its
/// own before that is mounted over the base; the command runs in what is mounted; everything that
/// was mounted there is unmounted again, the last first; and only then what the layer holds becomes
/// what the environment holds. The layer itself lies in memory and goes in the end.
pub proof fn law_sandboxes_work_on_a_copy(base: Seq<char>, paths: SandboxPathsView)
    ensures
        ({
            let body = sandbox_body(base, paths);
            &&& body[3] == (SandboxStepView::CopyContents {
                source: paths.persistent_upper,
                destination: paths.stage_upper,
            })
            &&& mounts_at(body[5], paths.merged)
            &&& body[5]->Run_command.arguments[4] == "lowerdir="@ + base + ",upperdir="@
                + paths.stage_upper + ",workdir="@ + paths.stage_work
            &&& mounts_at(body[10], joined(paths.merged, "dev"@))
            &&& mounts_at(body[11], joined(paths.merged, "proc"@))
            &&& mounts_at(body[12], joined(paths.merged, "sys"@))
            &&& mounts_at(body[13], joined(paths.merged, "run"@))
            &&& mounts_at(body[16], joined(paths.merged, "run/netsandbox-control"@))
            &&& body[18] == (SandboxStepView::Enter { root: paths.merged })
            &&& unmounts(body[19], joined(paths.merged, "run/netsandbox-control"@))
            &&& unmounts(body[20], joined(paths.merged, "run"@))
            &&& unmounts(body[21], joined(paths.merged, "sys"@))
            &&& unmounts(body[22], joined(paths.merged, "proc"@))
            &&& unmounts(body[23], joined(paths.merged, "dev"@))
            &&& unmounts(body[24], paths.merged)
            &&& body.len() == 26
            &&& body.last() == (SandboxStepView::ReplaceContents {
                source: paths.stage_upper,
                destination: paths.persistent_upper,
            })
            &&& forall|i: int|
                0 <= i < 25 ==> !((#[trigger] body[i]) is ReplaceContents) && (body[i] is Enter ==> i
                    == 18)
        }),
        ({
            let opening = sandbox_opening(paths);
            let ending = sandbox_ending(paths);
            &&& mounts_at(opening.last(), paths.runtime)
            &&& unmounts(ending[0], paths.runtime)
            &&& ending.last() == (SandboxStepView::RemoveTree { path: paths.runtime })
        }),
{
}

/// Whether a step runs a program whose arguments are the given ones.
pub open spec fn calls(
    step: NetworkStepView,
    program: Seq<char>,
    arguments: Seq<Seq<char>>,
) -> bool {
    step matches NetworkStepView::Run { command } && command.program == program
        && command.arguments == arguments
}

/// The network of a sandbox joins its namespace to the host: the two ends of one pair get the two
/// addresses of one small network, the end of the guest goes to the namespace, all packets of which
/// go through the host, and leave it under the host's own address.
pub proof fn law_networks_join_the_namespace_to_the_host(layout: LayoutView)
    ensures
        ({
            let body = network_body(layout);
            let ns = layout.namespace;
            let host = layout.host_interface;
            let guest = layout.guest_interface;
            &&& network_opening(layout).len() == 1
            &&& calls(network_opening(layout)[0], "ip"@, seq!["netns"@, "add"@, ns])
            &&& body.len() == 16
            &&& calls(
                body[0],
                "ip"@,
                seq!["link"@, "add"@, host, "type"@, "veth"@, "peer"@, "name"@, guest],
            )
            &&& calls(body[1], "ip"@, seq!["link"@, "set"@, guest, "netns"@, ns])
            &&& calls(
                body[2],
                "ip"@,
                seq!["addr"@, "add"@, layout.host_address + "/30"@, "dev"@, host],
            )
            &&& calls(body[3], "ip"@, seq!["link"@, "set"@, host, "up"@])
            &&& calls(
                body[4],
                "ip"@,
                seq!["-n"@, ns, "addr"@, "add"@, layout.guest_address + "/30"@, "dev"@, guest],
            )
            &&& calls(body[6], "ip"@, seq!["-n"@, ns, "link"@, "set"@, guest, "up"@])
            &&& calls(
                body[7],
                "ip"@,
                seq!["-n"@, ns, "route"@, "add"@, "default"@, "via"@, layout.host_address],
            )
            &&& body[8] is ReadForwarding
            &&& body[9] is TurnOnForwarding
            &&& body[12] matches NetworkStepView::Run { command } && command.program == "nft"@
                && command.arguments.last() == "masquerade"@
                && command.arguments[command.arguments.len() - 2] == layout.guest_address + "/32"@
                && command.arguments[3] == layout.nft_table
        }),
{
}

/// A virtual machine is accepted as a guest exactly if it said that it runs macOS.
pub proof fn law_guests_say_what_they_run(instance: Seq<char>, output: CommandOutput)
    ensures
        guest_refusal(instance, output) is None <==> output.succeeded() && trimmed(
            output.output_text(),
        ) == "Darwin"@,
{
}

/// The engine can be used exactly if it was found, answers, and runs Linux.
pub proof fn law_engines_run_linux(found: Result<(FsPath, CommandOutput), String>)
    ensures
        engine_detail(found) is Ok <==> (found matches Ok((path, output)) && output.succeeded()
            && has_prefix(trimmed(output.output_text()), "linux/"@)),
{
}

/// Starting over had deleted the old clone exactly once it got past that step.
pub proof fn law_resets_know_what_is_gone(base: Seq<char>, instance: Seq<char>, index: usize)
    ensures
        deleted_before(reset_script(base, instance), ScriptStep::Opening { index }) <==> index > 2,
        deleted_before(reset_script(base, instance), ScriptStep::Body { index }),
        !deleted_before(clone_script(base, instance), ScriptStep::Opening { index }),
{
    let again = reset_script(base, instance);
    assert(again.opening[2] is Delete);
    if index > 2 {
        assert(deletes_before(again.opening, index as int));
    }
    assert(deletes_before(again.opening, again.opening.len() as int));
}

/// A container is made under its name, with its label, from the image, with the privileges that its
/// network needs and with a shell in place of the image's own process.
pub proof fn law_containers_are_made_from_the_image(
    container: Seq<char>,
    label: Seq<char>,
    image: Seq<char>,
)
    ensures
        ({
            let a = creation(container, label, image);
            &&& a[0] == "create"@
            &&& a[1] == "--name"@ && a[2] == container
            &&& a[3] == "--label"@ && a[4] == label
            &&& a[7] == "--cap-add"@ && a[8] == "NET_ADMIN"@
            &&& a[9] == "--cap-add"@ && a[10] == "NET_RAW"@
            &&& a[11] == "--entrypoint"@ && a[12] == "/bin/sh"@
            &&& a[13] == image
            &&& a.len() == 16
        }),
{
}

/// The embedded helper is left alone exactly if it is there already. Otherwise it is written beside
/// its place, made its owner's alone, and only then moved there.
pub proof fn law_helpers_are_never_seen_half_written(
    directory: Seq<char>,
    process: nat,
    existing: Option<Seq<u8>>,
    helper: Seq<u8>,
)
    ensures
        ({
            let steps = helper_steps(directory, process, existing, helper);
            let place = joined(directory, "netsandbox-linux-guest"@);
            &&& steps.len() == 0 <==> existing == Some(helper)
            &&& steps.len() > 0 ==> (steps.last() matches HelperStepView::Rename { from, to } && to
                == place && steps[steps.len() - 2] == (HelperStepView::SetMode {
                path: from,
                mode: 0o700u32,
            }) && steps[steps.len() - 3] == (HelperStepView::Write { path: from }))
            &&& steps.len() > 0 ==> steps[0] == (HelperStepView::MakeDirectory { path: directory })
        }),
{
}

/// A build failed if it or the removal of its directory did, and is reported with its own failure
/// where it has one.
pub proof fn law_builds_report_their_failure(
    failure: Option<Seq<char>>,
    cleanup: Option<Seq<char>>,
)
    ensures
        build_outcome(failure, cleanup) is None <==> failure is None && cleanup is None,
        failure matches Some(error) ==> ends_with(
            build_outcome(failure, cleanup)->Some_0,
            error,
        ),
        failure is None ==> build_outcome(failure, cleanup) == cleanup,
{
    if let Some(error) = failure {
        let text = build_outcome(failure, cleanup)->Some_0;
        assert(text.skip(text.len() - error.len()) =~= error);
    }
}

/// A sandbox is started in its own namespace, with mounts, processes, names and channels of its own,
/// for its environment; its directories lie in those of the environment, and those of one process
/// apart from those of another.
pub proof fn law_sandboxes_start_in_their_namespace(
    namespace: Seq<char>,
    executable: Seq<char>,
    root: Seq<char>,
    name: Seq<char>,
    pid: nat,
)
    ensures
        ({
            let a = namespace_call(namespace, executable, root, name);
            &&& a[0] == "netns"@ && a[1] == "exec"@ && a[2] == namespace
            &&& a[3] == "unshare"@
            &&& a[4] == "--mount"@ && a[5] == "--pid"@ && a[6] == "--fork"@ && a[7] == "--uts"@
                && a[8] == "--ipc"@
            &&& a[9] == executable
            &&& a[10] == "--state-dir"@ && a[11] == root
            &&& a[12] == "__sandbox-init"@ && a[13] == name
            &&& a.last() == "--"@
        }),
        ({
            let paths = sandbox_paths_of(root, name, pid);
            &&& paths.persistent_upper == upper_path(root, name)
            &&& paths.control == joined(environment_path(root, name), "control"@)
            &&& paths.runtime == joined(
                environment_path(root, name),
                "runtime-"@ + decimal(pid),
            )
            &&& paths.stage_upper == joined(paths.runtime, "upper"@)
            &&& paths.stage_work == joined(paths.runtime, "work"@)
            &&& paths.merged == joined(paths.runtime, "merged"@)
        }),
{
}

/// An argument of a native command that is text is rewritten like any other, and one that is not
/// stays as it is.
pub proof fn law_raw_arguments_stay(
    mappings: Map<Seq<char>, Seq<char>>,
    argument: ArgumentView,
    forms: CanonicalForms,
)
    ensures
        argument is Raw ==> argument_rewritten(mappings, argument, forms) == argument,
        argument matches ArgumentView::Text { text } ==> argument_rewritten(
            mappings,
            argument,
            forms,
        ) == (ArgumentView::Text { text: rewritten(mappings, text, forms) }),
{
}

/// The permissions of a file of a guest are read in octal, and only from a report that came.
pub proof fn law_modes_are_read_in_octal(
    output: CommandOutput,
    action: Seq<char>,
    failure: Seq<char>,
    mode: nat,
)
    ensures
        reported_mode(output, action, failure) == Ok::<nat, Seq<char>>(mode) <==> output.succeeded()
            && unsigned(trimmed(output.output_text()), 8, 4_294_967_295) == Some(mode),
        !output.succeeded() ==> reported_mode(output, action, failure) == Err::<nat, Seq<char>>(
            failure,
        ),
{
}

/// A virtual machine can be started over wherever its environment owns it under the name that it
/// gave it, and the base on record can name one.
pub proof fn law_own_machines_can_start_over(environment: EnvironmentView)
    ensures
        machine_reset(environment) is Ok <==> recorded(environment, VM_MANAGED_KEY@) == Some("true"@)
            && recorded(environment, VM_INSTANCE_KEY@) == Some(machine_of(environment.id)) && (
        recorded(environment, VM_BASE_KEY@) matches Some(base) && is_machine_name(base)),
{
}

/// An image is named by a text that is not empty, does not look like an option, and holds no white
/// space.
pub proof fn law_image_references_are_single_words(image: Seq<char>)
    ensures
        is_image_reference(image) <==> image.len() > 0 && image[0] != '-' && forall|i: int|
            0 <= i < image.len() ==> !is_space(#[trigger] image[i]),
{
}

/// A network is set up exactly if nothing failed, and what failed is what its setup ends with.
/// Packets are forwarded where the kernel says so by the digit one alone.
pub proof fn law_networks_say_what_failed(setup: NetworkSetupView, contents: Seq<char>)
    ensures
        network_failure(setup) is None <==> setup.run.failure is None,
        setup.run.failure matches Some(e) ==> ends_with(network_failure(setup)->Some_0, e),
        setup.run.failure is Some && !setup.opened ==> network_failure(setup) == setup.run.failure,
        forwards(contents) <==> trimmed(contents) == seq!['1'],
{
    reveal_strlit("1");
    assert("1"@ =~= seq!['1']);
    if let Some(e) = setup.run.failure {
        let text = network_failure(setup)->Some_0;
        assert(text.skip(text.len() - e.len()) =~= e);
    }
}

/// Only staged paths lead to a candidate: a path of a command is replaced only if it is a staged one
/// below the base root, or one from the root where that is the base.
pub proof fn law_only_staged_paths_are_mapped(
    environment: EnvironmentView,
    staged: Seq<Seq<char>>,
    present: Seq<bool>,
    upper: Seq<char>,
    candidate_root: Seq<char>,
    n: int,
    key: Seq<char>,
)
    requires
        0 <= n <= staged.len(),
    ensures
        candidates_upto(environment, staged, present, upper, candidate_root, n) matches Ok(plan)
            ==> plan.mappings.dom().contains(key) ==> exists|k: int|
            0 <= k < n && plan.mappings[key] == joined(candidate_root, #[trigger] staged[k]) && (key
                == joined(environment.base_root, staged[k]) || (parts(environment.base_root)
                == parts("/"@) && key == "/"@ + staged[k])),
    decreases n,
{
    if n > 0 {
        law_only_staged_paths_are_mapped(
            environment,
            staged,
            present,
            upper,
            candidate_root,
            n - 1,
            key,
        );
        if let Ok(plan) = candidates_upto(environment, staged, present, upper, candidate_root, n) {
            let before = candidates_upto(environment, staged, present, upper, candidate_root, n - 1);
            let root = parts(environment.base_root) == parts("/"@);
            let last = staged[n - 1];
            if plan.mappings.dom().contains(key) {
                if key == joined(environment.base_root, last) || (root && key == "/"@ + last) {
                    assert(plan.mappings[key] == joined(candidate_root, staged[n - 1]));
                } else {
                    assert(before->Ok_0.mappings.dom().contains(key));
                    let k = choose|k: int|
                        0 <= k < n - 1 && before->Ok_0.mappings[key] == joined(
                            candidate_root,
                            #[trigger] staged[k],
                        ) && (key == joined(environment.base_root, staged[k]) || (root && key
                            == "/"@ + staged[k]));
                    assert(plan.mappings[key] == joined(candidate_root, staged[k]));
                }
            }
        }
    }
}

/// A path of an image is taken below its root like one that a user gives.
pub proof fn law_image_paths_are_taken_below_the_root(path: Seq<char>)
    ensures
        image_relative(path) == normalized(path),
{
}

/// The report on a macOS host says of each of its means whether it is there.
pub proof fn law_reports_say_what_is_there(
    findings: MacFindings,
    native: bool,
    engine: Result<(FsPath, CommandOutput), String>,
)
    ensures
        mac_report(findings).len() == 5,
        mac_report(findings)[0].ok <==> findings.machine_runtime is Ok,
        mac_report(findings)[2].ok <==> findings.route_tool,
        mac_report(findings)[3].ok <==> findings.loopback,
        !mac_report(findings)[0].required,
        mac_report(findings)[2].required,
        native_check(native).ok <==> native,
        native_check(native).required,
        engine_check(engine).ok <==> engine_detail(engine) is Ok,
        !engine_check(engine).required,
{
}

} // verus!
