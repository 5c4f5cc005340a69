//! Turning the container of an environment into an image, and taking that back.
use vstd::prelude::*;

use crate::command::{ensure_success_or_status, failure_or_status, CommandOutput};
use crate::identity::{hex_text, random_id, short_id, short_text, simple_text, EnvironmentId};
use crate::model::{
    views, Environment, EnvironmentView, LinuxImageChange, LinuxImageChangeView,
};
use crate::path::{joined, FsPath};
use crate::platform::docker::{
    checked_container, forget, is_image_reference, metadata, named_container, record, recorded,
    validate_image_reference, COMMITTED_ID_KEY, COMMITTED_IMAGE_KEY, COMMITTED_PARENT_ID_KEY,
    SOURCE_CMD_KEY, SOURCE_ENTRYPOINT_KEY,
};
use crate::platform::route::unit_failure;
use crate::text::{
    decimal, has_prefix, lines, number_text, opt_text, same_text, split_lines, starts_with, texts,
    trim, trimmed,
};

verus! {

/// The changes that the environment does not account for.
pub open spec fn unaccounted(changes: Seq<LinuxImageChangeView>) -> nat
    decreases changes.len(),
{
    if changes.len() == 0 {
        0
    } else {
        unaccounted(changes.drop_last()) + if changes.last().is_tracked {
            0nat
        } else {
            1nat
        }
    }
}

fn count_unaccounted(changes: &Vec<LinuxImageChange>) -> (n: usize)
    ensures
        n == unaccounted(views(changes@)),
        n <= changes.len(),
{
    let ghost all = views(changes@);
    let mut n: usize = 0;
    let mut i: usize = 0;
    while i < changes.len()
        invariant
            i <= changes.len(),
            n <= i,
            all == views(changes@),
            n == unaccounted(all.take(i as int)),
        decreases changes.len() - i,
    {
        proof {
            assert(all.take(i + 1).drop_last() =~= all.take(i as int));
            assert(all.take(i + 1).last() == changes@[i as int]@);
        }
        if !changes[i].is_tracked {
            n += 1;
        }
        i += 1;
    }
    assert(all.take(changes.len() as int) =~= all);
    n
}

/// The process of a source image as a build file writes it: what is not set is empty.
pub open spec fn build_value(recorded: Seq<char>) -> Seq<char> {
    if recorded == "null"@ {
        "[]"@
    } else {
        recorded
    }
}

fn build_text(recorded: &str) -> (r: String)
    ensures
        r@ == build_value(recorded@),
{
    if same_text(recorded, "null") {
        "[]".to_owned()
    } else {
        recorded.to_owned()
    }
}

/// The image that a commit goes through.
pub open spec fn internal_image(id: Seq<u8>, process: nat) -> Seq<char> {
    "netsandbox-internal:"@ + short_id(id, 12) + "-"@ + decimal(process)
}

/// The build file that gives an image the process of the source image.
pub open spec fn build_file(
    internal: Seq<char>,
    entrypoint: Seq<char>,
    command: Seq<char>,
) -> Seq<char> {
    "FROM "@ + internal + "\nENTRYPOINT "@ + build_value(entrypoint) + "\nCMD "@ + build_value(
        command,
    ) + "\n"@
}

/// The empty directory that an image is built in.
pub open spec fn build_directory_of(temporary: Seq<char>, unique: Seq<u8>) -> Seq<char> {
    joined(temporary, "netsandbox-image-build-"@ + hex_text(unique))
}

/// An empty directory with a random name, for an image to be built in.
pub fn build_directory(temporary: &FsPath) -> (r: FsPath)
    ensures
        exists|unique: Seq<u8>|
            unique.len() == 16 && r@ == #[trigger] build_directory_of(temporary@, unique),
{
    let unique = random_id();
    build_directory_as(temporary, &unique)
}

/// The empty directory that an image is built in. `unique` tells the builds apart.
pub fn build_directory_as(temporary: &FsPath, unique: &EnvironmentId) -> (r: FsPath)
    ensures
        r@ == build_directory_of(temporary@, unique@),
{
    temporary.join(
        "netsandbox-image-build-".to_owned().concat(simple_text(unique).as_str()).as_str(),
    )
}

/// What comes of a build whose directory is removed afterwards: the first of the two failures, and
/// both where both failed.
pub open spec fn build_outcome(failure: Option<Seq<char>>, cleanup: Option<Seq<char>>) -> Option<
    Seq<char>,
> {
    match (failure, cleanup) {
        (Some(error), Some(left)) => Some(
            "empty Docker build context cleanup also failed: "@ + left + ": "@ + error,
        ),
        (Some(error), None) => Some(error),
        (None, left) => left,
    }
}

/// What comes of a build whose directory is removed afterwards.
pub fn build_metadata_image(result: Result<(), String>, cleanup: Result<(), String>) -> (r: Result<
    (),
    String,
>)
    ensures
        unit_failure(r) == build_outcome(unit_failure(result), unit_failure(cleanup)),
{
    match result {
        Ok(()) => cleanup,
        Err(error) => match cleanup {
            Ok(()) => Err(error),
            Err(left) => Err(
                "empty Docker build context cleanup also failed: ".to_owned().concat(
                    left.as_str(),
                ).concat(": ").concat(error.as_str()),
            ),
        },
    }
}

/// The last line that names an image by its digest.
pub open spec fn last_image_id(all: Seq<Seq<char>>) -> Option<Seq<char>>
    decreases all.len(),
{
    if all.len() == 0 {
        None
    } else if has_prefix(trimmed(all.last()), "sha256:"@) {
        Some(trimmed(all.last()))
    } else {
        last_image_id(all.drop_last())
    }
}

fn find_image_id(text: &str) -> (r: Option<String>)
    ensures
        opt_text(r) == last_image_id(lines(text@)),
{
    let all = split_lines(text);
    let ghost every = texts(all@);
    let mut i: usize = all.len();
    assert(every.take(all.len() as int) =~= every);
    while i > 0
        invariant
            i <= all.len(),
            every == texts(all@),
            every == lines(text@),
            last_image_id(every.take(i as int)) == last_image_id(every),
        decreases i,
    {
        let line = trim(all[i - 1].as_str());
        proof {
            assert(every.take(i as int).drop_last() =~= every.take(i - 1));
            assert(every.take(i as int).last() == all@[i - 1]@);
        }
        if starts_with(line.as_str(), "sha256:") {
            return Some(line);
        }
        i -= 1;
    }
    None
}

/// Where a commit stands: what it waits for.
#[derive(Debug, Clone, Copy, PartialEq, Eq, Structural)]
pub enum CommitPhase {
    /// Whether the container is the environment's own.
    Owner,
    /// Whether the image that is to be made exists.
    Output,
    /// The changes of the container.
    Changes,
    /// Whether the image that the commit goes through exists.
    Internal,
    /// The commit of the container.
    Commit,
    /// The build of the image.
    Build,
    /// The removal of the image that the commit went through.
    Removal,
    /// The name of the new image by its digest.
    Identity,
    Finished,
}

/// What comes back of what is asked for.
pub enum CommitEvent {
    Owner { owned: Result<(), String> },
    Exists { exists: Result<bool, String> },
    Changes { changes: Result<Vec<LinuxImageChange>, String> },
    Output { output: Result<CommandOutput, String> },
    Done { result: Result<(), String> },
}

/// What has to be done next.
pub enum CommitAction {
    CheckOwner { container: String },
    LookUp { image: String },
    ListChanges { container: String },
    Commit { container: String, image: String },
    Build { image: String, build_file: String },
    Remove { image: String },
    Identify { image: String },
    /// Stop; the image's digest, or why there is none.
    Finish { result: Result<String, String> },
}

#[verifier::ext_equal]
pub enum CommitActionView {
    CheckOwner { container: Seq<char> },
    LookUp { image: Seq<char> },
    ListChanges { container: Seq<char> },
    Commit { container: Seq<char>, image: Seq<char> },
    Build { image: Seq<char>, build_file: Seq<char> },
    Remove { image: Seq<char> },
    Identify { image: Seq<char> },
    Finish { result: Result<Seq<char>, Seq<char>> },
}

impl View for CommitAction {
    type V = CommitActionView;

    open spec fn view(&self) -> CommitActionView {
        match self {
            CommitAction::CheckOwner { container } => CommitActionView::CheckOwner {
                container: container@,
            },
            CommitAction::LookUp { image } => CommitActionView::LookUp { image: image@ },
            CommitAction::ListChanges { container } => CommitActionView::ListChanges {
                container: container@,
            },
            CommitAction::Commit { container, image } => CommitActionView::Commit {
                container: container@,
                image: image@,
            },
            CommitAction::Build { image, build_file } => CommitActionView::Build {
                image: image@,
                build_file: build_file@,
            },
            CommitAction::Remove { image } => CommitActionView::Remove { image: image@ },
            CommitAction::Identify { image } => CommitActionView::Identify { image: image@ },
            CommitAction::Finish { result } => CommitActionView::Finish {
                result: match result {
                    Ok(id) => Ok(id@),
                    Err(e) => Err(e@),
                },
            },
        }
    }
}

/// A commit that is under way.
pub struct CommitRun {
    pub phase: CommitPhase,
    pub container: String,
    /// The image that is made.
    pub output: String,
    /// The image that the commit goes through.
    pub internal: String,
    /// The digest of the image that the commit went through.
    pub parent: String,
    /// Why the build failed.
    pub failure: Option<String>,
}

#[verifier::ext_equal]
pub struct CommitView {
    pub phase: CommitPhase,
    pub container: Seq<char>,
    pub output: Seq<char>,
    pub internal: Seq<char>,
    pub parent: Seq<char>,
    pub failure: Option<Seq<char>>,
}

impl View for CommitRun {
    type V = CommitView;

    open spec fn view(&self) -> CommitView {
        CommitView {
            phase: self.phase,
            container: self.container@,
            output: self.output@,
            internal: self.internal@,
            parent: self.parent@,
            failure: opt_text(self.failure),
        }
    }
}

/// A commit at its start.
pub open spec fn commit_started(
    environment: EnvironmentView,
    output: Seq<char>,
    process: nat,
) -> Result<CommitView, Seq<char>> {
    if !is_image_reference(output) {
        Err("invalid Docker image reference"@)
    } else {
        match named_container(environment) {
            Err(e) => Err(e),
            Ok(container) => Ok(
                CommitView {
                    phase: CommitPhase::Owner,
                    container,
                    output,
                    internal: internal_image(environment.id, process),
                    parent: Seq::empty(),
                    failure: None,
                },
            ),
        }
    }
}

pub open spec fn commit_failed(run: CommitView, e: Seq<char>) -> (CommitView, CommitActionView) {
    (
        CommitView { phase: CommitPhase::Finished, ..run },
        CommitActionView::Finish { result: Err(e) },
    )
}

/// Whether an event is the one that is waited for.
pub open spec fn commit_awaits(phase: CommitPhase, event: CommitEvent) -> bool {
    match phase {
        CommitPhase::Owner => event is Owner,
        CommitPhase::Output => event is Exists,
        CommitPhase::Changes => event is Changes,
        CommitPhase::Internal => event is Exists,
        CommitPhase::Commit => event is Output,
        CommitPhase::Build => event is Done,
        CommitPhase::Removal => event is Done,
        CommitPhase::Identity => event is Output,
        CommitPhase::Finished => false,
    }
}

/// What the untracked changes of a container are refused with.
pub open spec fn unaccounted_message(name: Seq<char>, count: nat) -> Seq<char> {
    "Linux image commit is blocked by "@ + decimal(count)
        + " untracked change(s); run 'netsandbox mac linux-diff "@ + name + "'"@
}

/// What follows from the changes of the container: none may be unaccounted for.
pub open spec fn commit_changes(
    run: CommitView,
    environment: EnvironmentView,
    changes: Seq<LinuxImageChangeView>,
) -> (CommitView, CommitActionView) {
    if unaccounted(changes) > 0 {
        commit_failed(run, unaccounted_message(environment.name, unaccounted(changes)))
    } else if recorded(environment, SOURCE_ENTRYPOINT_KEY@) is None {
        commit_failed(run, "Linux image environment has no source entrypoint metadata"@)
    } else if recorded(environment, SOURCE_CMD_KEY@) is None {
        commit_failed(run, "Linux image environment has no source command metadata"@)
    } else {
        (
            CommitView { phase: CommitPhase::Internal, ..run },
            CommitActionView::LookUp { image: run.internal },
        )
    }
}

/// What follows from the commit of the container.
pub open spec fn commit_done(
    run: CommitView,
    environment: EnvironmentView,
    output: CommandOutput,
) -> (CommitView, CommitActionView) {
    if !output.succeeded() {
        commit_failed(run, failure_or_status("commit validated Linux image"@, output))
    } else {
        match last_image_id(lines(output.output_text())) {
            None => commit_failed(run, "Docker commit did not return an image ID"@),
            Some(parent) => (
                CommitView { phase: CommitPhase::Build, parent, ..run },
                CommitActionView::Build {
                    image: run.output,
                    build_file: build_file(
                        run.internal,
                        environment.metadata[SOURCE_ENTRYPOINT_KEY@],
                        environment.metadata[SOURCE_CMD_KEY@],
                    ),
                },
            ),
        }
    }
}

/// The environment with an image recorded that it was turned into.
pub open spec fn committed(
    environment: EnvironmentView,
    image: Seq<char>,
    id: Seq<char>,
    parent: Seq<char>,
) -> EnvironmentView {
    EnvironmentView {
        metadata: environment.metadata.insert(COMMITTED_IMAGE_KEY@, image).insert(
            COMMITTED_ID_KEY@,
            id,
        ).insert(COMMITTED_PARENT_ID_KEY@, parent),
        ..environment
    }
}

/// What follows from an event, but for what the environment records.
pub open spec fn commit_step(
    run: CommitView,
    environment: EnvironmentView,
    event: CommitEvent,
) -> (CommitView, CommitActionView) {
    match event {
        CommitEvent::Owner { owned } => match owned {
            Err(e) => commit_failed(run, e@),
            Ok(_) => (
                CommitView { phase: CommitPhase::Output, ..run },
                CommitActionView::LookUp { image: run.output },
            ),
        },
        CommitEvent::Exists { exists } => match exists {
            Err(e) => commit_failed(run, e@),
            Ok(found) => if run.phase == CommitPhase::Output {
                if found {
                    commit_failed(
                        run,
                        "Docker image '"@ + run.output
                            + "' already exists; refusing to overwrite it"@,
                    )
                } else {
                    (
                        CommitView { phase: CommitPhase::Changes, ..run },
                        CommitActionView::ListChanges { container: run.container },
                    )
                }
            } else {
                if found {
                    commit_failed(
                        run,
                        "temporary Docker image '"@ + run.internal + "' already exists"@,
                    )
                } else {
                    (
                        CommitView { phase: CommitPhase::Commit, ..run },
                        CommitActionView::Commit {
                            container: run.container,
                            image: run.internal,
                        },
                    )
                }
            },
        },
        CommitEvent::Changes { changes } => match changes {
            Err(e) => commit_failed(run, e@),
            Ok(list) => commit_changes(run, environment, views(list@)),
        },
        CommitEvent::Output { output } => match output {
            Err(e) => commit_failed(run, e@),
            Ok(out) => if run.phase == CommitPhase::Commit {
                commit_done(run, environment, out)
            } else if !out.succeeded() {
                commit_failed(run, failure_or_status("inspect committed Linux image"@, out))
            } else {
                (
                    CommitView { phase: CommitPhase::Finished, ..run },
                    CommitActionView::Finish { result: Ok(trimmed(out.output_text())) },
                )
            },
        },
        CommitEvent::Done { result } => if run.phase == CommitPhase::Build {
            (
                CommitView {
                    phase: CommitPhase::Removal,
                    failure: match result {
                        Ok(_) => None,
                        Err(e) => Some(e@),
                    },
                    ..run
                },
                CommitActionView::Remove { image: run.internal },
            )
        } else {
            match run.failure {
                Some(e) => commit_failed(run, e),
                None => (
                    CommitView { phase: CommitPhase::Identity, ..run },
                    CommitActionView::Identify { image: run.output },
                ),
            }
        },
    }
}

/// The environment after a step: a commit is recorded when it ends well, and at no other time.
pub open spec fn commit_record(
    run: CommitView,
    environment: EnvironmentView,
    action: CommitActionView,
) -> EnvironmentView {
    match action {
        CommitActionView::Finish { result: Ok(id) } => committed(
            environment,
            run.output,
            id,
            run.parent,
        ),
        _ => environment,
    }
}

/// Whether the process of the source image is known by the time that it is needed.
pub open spec fn commit_fits(run: CommitView, environment: EnvironmentView) -> bool {
    match run.phase {
        CommitPhase::Internal => recorded(environment, SOURCE_ENTRYPOINT_KEY@) is Some && recorded(
            environment,
            SOURCE_CMD_KEY@,
        ) is Some,
        CommitPhase::Commit => recorded(environment, SOURCE_ENTRYPOINT_KEY@) is Some && recorded(
            environment,
            SOURCE_CMD_KEY@,
        ) is Some,
        _ => true,
    }
}

/// Starts to turn the container of an environment into an image. `process` is the number of the
/// process that does it.
pub fn commit(environment: &Environment, output_image: &str, process: u32) -> (r: Result<
    (CommitRun, CommitAction),
    String,
>)
    ensures
        match r {
            Ok((run, action)) => commit_started(environment@, output_image@, process as nat) == Ok::<
                CommitView,
                Seq<char>,
            >(run@) && action@ == (CommitActionView::CheckOwner { container: run@.container })
                && commit_fits(run@, environment@),
            Err(e) => commit_started(environment@, output_image@, process as nat) == Err::<
                CommitView,
                Seq<char>,
            >(e@),
        },
{
    match validate_image_reference(output_image) {
        Err(e) => return Err(e),
        Ok(()) => {},
    }
    let container = match checked_container(environment) {
        Err(e) => return Err(e),
        Ok(container) => container,
    };
    let internal = "netsandbox-internal:".to_owned().concat(
        short_text(&environment.id, 12).as_str(),
    ).concat("-").concat(number_text(process as u64).as_str());
    let action = CommitAction::CheckOwner { container: container.clone() };
    let run = CommitRun {
        phase: CommitPhase::Owner,
        container,
        output: output_image.to_owned(),
        internal,
        parent: String::new(),
        failure: None,
    };
    assert(run.parent@ =~= Seq::empty());
    Ok((run, action))
}

impl CommitRun {
    fn fail(&mut self, message: String) -> (r: CommitAction)
        ensures
            (final(self)@, r@) == commit_failed(old(self)@, message@),
    {
        self.phase = CommitPhase::Finished;
        CommitAction::Finish { result: Err(message) }
    }

    fn take_changes(&mut self, environment: &Environment, list: &Vec<LinuxImageChange>) -> (r:
        CommitAction)
        ensures
            (final(self)@, r@) == commit_changes(old(self)@, environment@, views(list@)),
            commit_fits(final(self)@, environment@),
    {
        let count = count_unaccounted(list);
        if count > 0 {
            let message = "Linux image commit is blocked by ".to_owned().concat(
                number_text(count as u64).as_str(),
            ).concat(" untracked change(s); run 'netsandbox mac linux-diff ").concat(
                environment.name.as_str(),
            ).concat("'");
            return self.fail(message);
        }
        if metadata(environment, SOURCE_ENTRYPOINT_KEY).is_none() {
            return self.fail(
                "Linux image environment has no source entrypoint metadata".to_owned(),
            );
        }
        if metadata(environment, SOURCE_CMD_KEY).is_none() {
            return self.fail("Linux image environment has no source command metadata".to_owned());
        }
        self.phase = CommitPhase::Internal;
        CommitAction::LookUp { image: self.internal.clone() }
    }

    fn take_commit(&mut self, environment: &Environment, output: &CommandOutput) -> (r:
        CommitAction)
        requires
            recorded(environment@, SOURCE_ENTRYPOINT_KEY@) is Some,
            recorded(environment@, SOURCE_CMD_KEY@) is Some,
        ensures
            (final(self)@, r@) == commit_done(old(self)@, environment@, *output),
            commit_fits(final(self)@, environment@),
    {
        match ensure_success_or_status(output, "commit validated Linux image") {
            Err(e) => return self.fail(e),
            Ok(()) => {},
        }
        let parent = match find_image_id(output.stdout_text().as_str()) {
            None => return self.fail("Docker commit did not return an image ID".to_owned()),
            Some(parent) => parent,
        };
        let entrypoint = match metadata(environment, SOURCE_ENTRYPOINT_KEY) {
            Some(value) => value,
            None => String::new(),
        };
        let command = match metadata(environment, SOURCE_CMD_KEY) {
            Some(value) => value,
            None => String::new(),
        };
        let build_file = "FROM ".to_owned().concat(self.internal.as_str()).concat(
            "\nENTRYPOINT ",
        ).concat(build_text(entrypoint.as_str()).as_str()).concat("\nCMD ").concat(
            build_text(command.as_str()).as_str(),
        ).concat("\n");
        self.parent = parent;
        self.phase = CommitPhase::Build;
        CommitAction::Build { image: self.output.clone(), build_file }
    }

    /// Takes the commit one step further.
    pub fn next(&mut self, environment: &mut Environment, event: CommitEvent) -> (r: CommitAction)
        requires
            commit_awaits(old(self)@.phase, event),
            commit_fits(old(self)@, old(environment)@),
        ensures
            (final(self)@, r@) == commit_step(old(self)@, old(environment)@, event),
            final(environment)@ == commit_record(old(self)@, old(environment)@, r@),
            commit_fits(final(self)@, final(environment)@),
    {
        match event {
            CommitEvent::Owner { owned } => match owned {
                Err(e) => self.fail(e),
                Ok(_) => {
                    self.phase = CommitPhase::Output;
                    CommitAction::LookUp { image: self.output.clone() }
                },
            },
            CommitEvent::Exists { exists } => match exists {
                Err(e) => self.fail(e),
                Ok(found) => if self.phase == CommitPhase::Output {
                    if found {
                        let message = "Docker image '".to_owned().concat(
                            self.output.as_str(),
                        ).concat("' already exists; refusing to overwrite it");
                        self.fail(message)
                    } else {
                        self.phase = CommitPhase::Changes;
                        CommitAction::ListChanges { container: self.container.clone() }
                    }
                } else {
                    if found {
                        let message = "temporary Docker image '".to_owned().concat(
                            self.internal.as_str(),
                        ).concat("' already exists");
                        self.fail(message)
                    } else {
                        self.phase = CommitPhase::Commit;
                        CommitAction::Commit {
                            container: self.container.clone(),
                            image: self.internal.clone(),
                        }
                    }
                },
            },
            CommitEvent::Changes { changes } => match changes {
                Err(e) => self.fail(e),
                Ok(list) => self.take_changes(environment, &list),
            },
            CommitEvent::Output { output } => match output {
                Err(e) => self.fail(e),
                Ok(out) => if self.phase == CommitPhase::Commit {
                    self.take_commit(environment, &out)
                } else {
                    match ensure_success_or_status(&out, "inspect committed Linux image") {
                        Err(e) => self.fail(e),
                        Ok(()) => {
                            let id = out.trimmed_stdout();
                            record(environment, COMMITTED_IMAGE_KEY, self.output.as_str());
                            record(environment, COMMITTED_ID_KEY, id.as_str());
                            record(environment, COMMITTED_PARENT_ID_KEY, self.parent.as_str());
                            self.phase = CommitPhase::Finished;
                            CommitAction::Finish { result: Ok(id) }
                        },
                    }
                },
            },
            CommitEvent::Done { result } => if self.phase == CommitPhase::Build {
                self.failure = match result {
                    Ok(_) => None,
                    Err(e) => Some(e),
                };
                self.phase = CommitPhase::Removal;
                CommitAction::Remove { image: self.internal.clone() }
            } else {
                let mut failure: Option<String> = None;
                match &self.failure {
                    Some(e) => {
                        failure = Some(e.clone());
                    },
                    None => {},
                }
                match failure {
                    Some(e) => self.fail(e),
                    None => {
                        self.phase = CommitPhase::Identity;
                        CommitAction::Identify { image: self.output.clone() }
                    },
                }
            },
        }
    }
}

/// No container is committed with changes that the environment does not account for.
pub proof fn law_unaccounted_changes_block_a_commit(
    run: CommitView,
    environment: EnvironmentView,
    changes: Vec<LinuxImageChange>,
)
    requires
        unaccounted(views(changes@)) > 0,
    ensures
        commit_step(
            run,
            environment,
            CommitEvent::Changes { changes: Ok(changes) },
        ).1 is Finish,
        commit_record(
            run,
            environment,
            commit_step(run, environment, CommitEvent::Changes { changes: Ok(changes) }).1,
        ) == environment,
{
}

/// No image is overwritten: one that exists ends the commit, and nothing is recorded.
pub proof fn law_existing_images_are_kept(run: CommitView, environment: EnvironmentView)
    ensures
        ({
            let event = CommitEvent::Exists { exists: Ok(true) };
            let action = commit_step(run, environment, event).1;
            action is Finish && commit_record(run, environment, action) == environment
        }),
{
}

/// The image that a commit goes through is removed whatever comes of the build.
pub proof fn law_the_internal_image_is_removed(
    run: CommitView,
    environment: EnvironmentView,
    event: CommitEvent,
)
    requires
        run.phase == CommitPhase::Build,
        commit_awaits(run.phase, event),
    ensures
        commit_step(run, environment, event).1 == (CommitActionView::Remove {
            image: run.internal,
        }),
{
}

/// Where taking a commit back stands: what it waits for.
#[derive(Debug, Clone, Copy, PartialEq, Eq, Structural)]
pub enum UncommitPhase {
    /// The image's digest.
    Identity,
    /// The removal of the image.
    Removal,
    /// The removal of the image that the commit went through.
    Parent,
    Finished,
}

/// A commit that is being taken back.
pub struct UncommitRun {
    pub phase: UncommitPhase,
    pub image: String,
    pub id: String,
}

#[verifier::ext_equal]
pub struct UncommitView {
    pub phase: UncommitPhase,
    pub image: Seq<char>,
    pub id: Seq<char>,
}

impl View for UncommitRun {
    type V = UncommitView;

    open spec fn view(&self) -> UncommitView {
        UncommitView { phase: self.phase, image: self.image@, id: self.id@ }
    }
}

/// The environment without the image that it was turned into.
pub open spec fn uncommitted(environment: EnvironmentView) -> EnvironmentView {
    EnvironmentView {
        metadata: environment.metadata.remove(COMMITTED_IMAGE_KEY@).remove(
            COMMITTED_ID_KEY@,
        ).remove(COMMITTED_PARENT_ID_KEY@),
        ..environment
    }
}

/// Taking a commit back, at its start.
pub open spec fn uncommit_started(environment: EnvironmentView) -> Result<UncommitView, Seq<char>> {
    match recorded(environment, COMMITTED_IMAGE_KEY@) {
        None => Err("environment has no committed Linux image"@),
        Some(image) => match recorded(environment, COMMITTED_ID_KEY@) {
            None => Err("environment has no committed Linux image ID"@),
            Some(id) => Ok(UncommitView { phase: UncommitPhase::Identity, image, id }),
        },
    }
}

pub open spec fn uncommit_failed(run: UncommitView, e: Seq<char>) -> (
    UncommitView,
    CommitActionView,
) {
    (
        UncommitView { phase: UncommitPhase::Finished, ..run },
        CommitActionView::Finish { result: Err(e) },
    )
}

pub open spec fn uncommit_finished(run: UncommitView) -> (UncommitView, CommitActionView) {
    (
        UncommitView { phase: UncommitPhase::Finished, ..run },
        CommitActionView::Finish { result: Ok(run.image) },
    )
}

/// What follows from what an outside command left behind.
pub open spec fn uncommit_step(
    run: UncommitView,
    environment: EnvironmentView,
    output: Result<CommandOutput, String>,
) -> (UncommitView, CommitActionView) {
    match run.phase {
        UncommitPhase::Identity => match output {
            Err(e) => uncommit_failed(run, e@),
            Ok(out) => if !out.succeeded() {
                uncommit_failed(run, failure_or_status("inspect committed Linux image"@, out))
            } else if trimmed(out.output_text()) != run.id {
                uncommit_failed(
                    run,
                    "refusing to remove Docker image '"@ + run.image
                        + "' because its ID no longer matches the recorded commit"@,
                )
            } else {
                (
                    UncommitView { phase: UncommitPhase::Removal, ..run },
                    CommitActionView::Remove { image: run.image },
                )
            },
        },
        UncommitPhase::Removal => match output {
            Err(e) => uncommit_failed(run, e@),
            Ok(out) => if !out.succeeded() {
                uncommit_failed(run, failure_or_status("remove committed Linux image"@, out))
            } else {
                match recorded(environment, COMMITTED_PARENT_ID_KEY@) {
                    Some(parent) => (
                        UncommitView { phase: UncommitPhase::Parent, ..run },
                        CommitActionView::Remove { image: parent },
                    ),
                    None => uncommit_finished(run),
                }
            },
        },
        _ => uncommit_finished(run),
    }
}

/// The environment after a step: a commit is forgotten when it has been taken back.
pub open spec fn uncommit_record(
    environment: EnvironmentView,
    action: CommitActionView,
) -> EnvironmentView {
    match action {
        CommitActionView::Finish { result: Ok(_) } => uncommitted(environment),
        _ => environment,
    }
}

/// Starts to take a commit back.
pub fn rollback_commit(environment: &Environment) -> (r: Result<
    (UncommitRun, CommitAction),
    String,
>)
    ensures
        match r {
            Ok((run, action)) => uncommit_started(environment@) == Ok::<UncommitView, Seq<char>>(
                run@,
            ) && action@ == (CommitActionView::Identify { image: run@.image }),
            Err(e) => uncommit_started(environment@) == Err::<UncommitView, Seq<char>>(e@),
        },
{
    let image = match metadata(environment, COMMITTED_IMAGE_KEY) {
        None => return Err("environment has no committed Linux image".to_owned()),
        Some(image) => image,
    };
    let id = match metadata(environment, COMMITTED_ID_KEY) {
        None => return Err("environment has no committed Linux image ID".to_owned()),
        Some(id) => id,
    };
    let action = CommitAction::Identify { image: image.clone() };
    Ok((UncommitRun { phase: UncommitPhase::Identity, image, id }, action))
}

impl UncommitRun {
    fn fail(&mut self, message: String) -> (r: CommitAction)
        ensures
            (final(self)@, r@) == uncommit_failed(old(self)@, message@),
    {
        self.phase = UncommitPhase::Finished;
        CommitAction::Finish { result: Err(message) }
    }

    fn finish(&mut self, environment: &mut Environment) -> (r: CommitAction)
        ensures
            (final(self)@, r@) == uncommit_finished(old(self)@),
            final(environment)@ == uncommitted(old(environment)@),
    {
        forget(environment, COMMITTED_IMAGE_KEY);
        forget(environment, COMMITTED_ID_KEY);
        forget(environment, COMMITTED_PARENT_ID_KEY);
        self.phase = UncommitPhase::Finished;
        CommitAction::Finish { result: Ok(self.image.clone()) }
    }

    /// Takes the run one step further.
    pub fn next(
        &mut self,
        environment: &mut Environment,
        output: Result<CommandOutput, String>,
    ) -> (r: CommitAction)
        requires
            old(self)@.phase != UncommitPhase::Finished,
        ensures
            (final(self)@, r@) == uncommit_step(old(self)@, old(environment)@, output),
            final(environment)@ == uncommit_record(old(environment)@, r@),
    {
        match self.phase {
            UncommitPhase::Identity => match output {
                Err(e) => self.fail(e),
                Ok(out) => match ensure_success_or_status(&out, "inspect committed Linux image") {
                    Err(e) => self.fail(e),
                    Ok(()) => if same_text(out.trimmed_stdout().as_str(), self.id.as_str()) {
                        self.phase = UncommitPhase::Removal;
                        CommitAction::Remove { image: self.image.clone() }
                    } else {
                        let message = "refusing to remove Docker image '".to_owned().concat(
                            self.image.as_str(),
                        ).concat("' because its ID no longer matches the recorded commit");
                        self.fail(message)
                    },
                },
            },
            UncommitPhase::Removal => match output {
                Err(e) => self.fail(e),
                Ok(out) => match ensure_success_or_status(&out, "remove committed Linux image") {
                    Err(e) => self.fail(e),
                    Ok(()) => match metadata(environment, COMMITTED_PARENT_ID_KEY) {
                        Some(parent) => {
                            self.phase = UncommitPhase::Parent;
                            CommitAction::Remove { image: parent }
                        },
                        None => self.finish(environment),
                    },
                },
            },
            _ => self.finish(environment),
        }
    }
}

/// An image is only removed while it is the one that was recorded.
pub proof fn law_only_the_recorded_image_is_removed(
    run: UncommitView,
    environment: EnvironmentView,
    output: Result<CommandOutput, String>,
)
    requires
        run.phase == UncommitPhase::Identity,
        uncommit_step(run, environment, output).1 is Remove,
    ensures
        output matches Ok(out) && out.succeeded() && trimmed(out.output_text()) == run.id,
        uncommit_step(run, environment, output).1 == (CommitActionView::Remove {
            image: run.image,
        }),
{
}

/// What a commit recorded is gone once it has been taken back: but for older records of a commit,
/// the environment is as it was.
pub proof fn law_taking_back_undoes_the_record(
    environment: EnvironmentView,
    image: Seq<char>,
    id: Seq<char>,
    parent: Seq<char>,
)
    requires
        recorded(environment, COMMITTED_IMAGE_KEY@) is None,
        recorded(environment, COMMITTED_ID_KEY@) is None,
        recorded(environment, COMMITTED_PARENT_ID_KEY@) is None,
    ensures
        uncommitted(committed(environment, image, id, parent)) == environment,
        uncommit_started(committed(environment, image, id, parent)) == Ok::<
            UncommitView,
            Seq<char>,
        >(UncommitView { phase: UncommitPhase::Identity, image, id }),
{
    reveal_strlit("docker_linux_committed_image");
    reveal_strlit("docker_linux_committed_id");
    reveal_strlit("docker_linux_committed_parent_id");
    assert(COMMITTED_IMAGE_KEY@.len() == 28);
    assert(COMMITTED_ID_KEY@.len() == 25);
    assert(COMMITTED_PARENT_ID_KEY@.len() == 32);
    assert(uncommitted(committed(environment, image, id, parent)).metadata
        =~= environment.metadata);
}

} // verus!
