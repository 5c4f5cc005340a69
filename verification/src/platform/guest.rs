//! What sandboxes in a guest system have in common: the files that are taken out of the guest, and
//! the commands that are run in it.
use vstd::prelude::*;

use crate::diff::{unsafe_path_message, validate_relative_path};
use crate::identity::{short_id, short_text};
use crate::model::{views, Environment, EnvironmentView, Origin, OriginView};
use crate::path::{
    add_path, drop_path, is_safe_relative, joined, lemma_spelled, parts, same_parts, with_path,
    with_spelling, without_path, FsPath, PathPart,
};
use crate::text::{arguments, copy_texts, strs, texts};

verus! {

/// The systems that a sandbox can be a guest of.
#[derive(Debug, Clone, Copy, PartialEq, Eq, Structural)]
pub enum GuestKind {
    /// A container from a Linux image.
    Image,
    /// A virtual machine.
    Machine,
}

/// The directory of the sandbox in its guest.
pub open spec fn guest_directory_of(id: Seq<u8>) -> Seq<char> {
    "/tmp/netsandbox-"@ + short_id(id, 12)
}

pub fn guest_directory(environment: &Environment) -> (r: FsPath)
    ensures
        r@ == guest_directory_of(environment@.id),
{
    FsPath {
        text: "/tmp/netsandbox-".to_owned().concat(short_text(&environment.id, 12).as_str()),
    }
}

/// The question that is asked of a file of the guest next, or after which it is settled.
#[derive(Debug, Clone, Copy, PartialEq, Eq, Structural)]
pub enum FileCheck {
    Exists,
    /// Whether a file that does not exist is a link to nothing.
    Dangling,
    Link,
    Directory,
    Regular,
}

/// What becomes of a file of the guest.
pub enum FileVerdict {
    Ask { check: FileCheck },
    Absent,
    Export,
    Refuse { message: String },
}

pub enum FileVerdictView {
    Ask { check: FileCheck },
    Absent,
    Export,
    Refuse { message: Seq<char> },
}

impl View for FileVerdict {
    type V = FileVerdictView;

    open spec fn view(&self) -> FileVerdictView {
        match self {
            FileVerdict::Ask { check } => FileVerdictView::Ask { check: *check },
            FileVerdict::Absent => FileVerdictView::Absent,
            FileVerdict::Export => FileVerdictView::Export,
            FileVerdict::Refuse { message } => FileVerdictView::Refuse { message: message@ },
        }
    }
}

/// What a directory in place of a file is refused with.
pub open spec fn directory_hint(kind: GuestKind) -> Seq<char> {
    match kind {
        GuestKind::Image => " is a directory; track changed files individually"@,
        GuestKind::Machine => " is a directory; track its changed files individually"@,
    }
}

/// What follows from the answer to a question about a file: only a regular file is exported, and
/// nothing but a file that is not there counts as absent.
pub open spec fn file_verdict(
    kind: GuestKind,
    description: Seq<char>,
    guest: Seq<char>,
    check: FileCheck,
    held: bool,
) -> FileVerdictView {
    match check {
        FileCheck::Exists => FileVerdictView::Ask {
            check: if held {
                FileCheck::Link
            } else {
                FileCheck::Dangling
            },
        },
        FileCheck::Dangling => if held {
            FileVerdictView::Ask { check: FileCheck::Link }
        } else {
            FileVerdictView::Absent
        },
        FileCheck::Link => if held {
            FileVerdictView::Refuse {
                message: description + " path "@ + guest
                    + " is a symbolic link; symlink export is not yet supported"@,
            }
        } else {
            FileVerdictView::Ask { check: FileCheck::Directory }
        },
        FileCheck::Directory => if held {
            FileVerdictView::Refuse {
                message: description + " path "@ + guest + directory_hint(kind),
            }
        } else {
            FileVerdictView::Ask { check: FileCheck::Regular }
        },
        FileCheck::Regular => if held {
            FileVerdictView::Export
        } else {
            FileVerdictView::Refuse {
                message: description + " path "@ + guest + " is not a regular file"@,
            }
        },
    }
}

/// What follows from the answer to a question about a file.
pub fn judge_file(
    kind: GuestKind,
    description: &str,
    guest: &FsPath,
    check: FileCheck,
    held: bool,
) -> (r: FileVerdict)
    ensures
        r@ == file_verdict(kind, description@, guest@, check, held),
{
    match check {
        FileCheck::Exists => if held {
            FileVerdict::Ask { check: FileCheck::Link }
        } else {
            FileVerdict::Ask { check: FileCheck::Dangling }
        },
        FileCheck::Dangling => if held {
            FileVerdict::Ask { check: FileCheck::Link }
        } else {
            FileVerdict::Absent
        },
        FileCheck::Link => if held {
            FileVerdict::Refuse {
                message: description.to_owned().concat(" path ").concat(
                    guest.text.as_str(),
                ).concat(" is a symbolic link; symlink export is not yet supported"),
            }
        } else {
            FileVerdict::Ask { check: FileCheck::Directory }
        },
        FileCheck::Directory => if held {
            let hint = match kind {
                GuestKind::Image => " is a directory; track changed files individually",
                GuestKind::Machine => " is a directory; track its changed files individually",
            };
            FileVerdict::Refuse {
                message: description.to_owned().concat(" path ").concat(
                    guest.text.as_str(),
                ).concat(hint),
            }
        } else {
            FileVerdict::Ask { check: FileCheck::Regular }
        },
        FileCheck::Regular => if held {
            FileVerdict::Export
        } else {
            FileVerdict::Refuse {
                message: description.to_owned().concat(" path ").concat(
                    guest.text.as_str(),
                ).concat(" is not a regular file"),
            }
        },
    }
}

/// The switch of the test program that answers a question about a file.
pub open spec fn test_switch(check: FileCheck) -> Seq<char> {
    match check {
        FileCheck::Exists => "-e"@,
        FileCheck::Dangling => "-L"@,
        FileCheck::Link => "-L"@,
        FileCheck::Directory => "-d"@,
        FileCheck::Regular => "-f"@,
    }
}

pub fn switch(check: FileCheck) -> (r: &'static str)
    ensures
        r@ == test_switch(check),
{
    match check {
        FileCheck::Exists => "-e",
        FileCheck::Dangling => "-L",
        FileCheck::Link => "-L",
        FileCheck::Directory => "-d",
        FileCheck::Regular => "-f",
    }
}

/// Where taking the exported files over stands.
#[derive(Debug, Clone, Copy, PartialEq, Eq, Structural)]
pub enum SyncPhase {
    /// Waiting for what the host holds at the path.
    Origin,
    /// Waiting for whether the guest holds the path.
    Presence,
    /// Waiting for whether the guest holds a link at the path.
    Linked { exists: bool },
    /// Waiting for the answer to a question about the file.
    File { check: FileCheck },
    /// Waiting for the file to be copied out.
    Copied,
    /// Waiting for the candidate file to be removed; then the path is recorded as deleted or not.
    Removed { deleted: bool },
    Finished,
}

/// What comes back of what is asked for.
pub enum SyncEvent {
    Origin { origin: Result<Origin, String> },
    Answer { held: Result<bool, String> },
    Done { result: Result<(), String> },
}

/// What has to be done next.
pub enum SyncAction {
    /// Look at what the host holds.
    Inspect { path: FsPath },
    /// Ask a question about a file of the guest.
    Test { check: FileCheck, guest: FsPath },
    /// Copy a file of the guest to its candidate.
    Copy { guest: FsPath, candidate: FsPath },
    /// Remove a candidate.
    Remove { candidate: FsPath },
    /// Stop; the number of paths that were taken over, or why not.
    Finish { result: Result<usize, String> },
}

#[verifier::ext_equal]
pub enum SyncActionView {
    Inspect { path: Seq<char> },
    Test { check: FileCheck, guest: Seq<char> },
    Copy { guest: Seq<char>, candidate: Seq<char> },
    Remove { candidate: Seq<char> },
    Finish { result: Result<nat, Seq<char>> },
}

impl View for SyncAction {
    type V = SyncActionView;

    open spec fn view(&self) -> SyncActionView {
        match self {
            SyncAction::Inspect { path } => SyncActionView::Inspect { path: path@ },
            SyncAction::Test { check, guest } => SyncActionView::Test {
                check: *check,
                guest: guest@,
            },
            SyncAction::Copy { guest, candidate } => SyncActionView::Copy {
                guest: guest@,
                candidate: candidate@,
            },
            SyncAction::Remove { candidate } => SyncActionView::Remove { candidate: candidate@ },
            SyncAction::Finish { result } => SyncActionView::Finish {
                result: match result {
                    Ok(n) => Ok(*n as nat),
                    Err(e) => Err(e@),
                },
            },
        }
    }
}

/// Taking the exported files of a guest over into the writable layer of an environment.
pub struct SyncRun {
    pub kind: GuestKind,
    /// The writable layer.
    pub upper: FsPath,
    pub index: usize,
    pub phase: SyncPhase,
}

pub struct SyncView {
    pub kind: GuestKind,
    pub upper: Seq<char>,
    pub index: nat,
    pub phase: SyncPhase,
}

impl View for SyncRun {
    type V = SyncView;

    open spec fn view(&self) -> SyncView {
        SyncView {
            kind: self.kind,
            upper: self.upper@,
            index: self.index as nat,
            phase: self.phase,
        }
    }
}

/// What a path of a guest is called in a refusal.
pub open spec fn sync_description(kind: GuestKind) -> Seq<char> {
    match kind {
        GuestKind::Image => "Linux image candidate"@,
        GuestKind::Machine => "tracked macOS VM"@,
    }
}

fn describe_sync(kind: GuestKind) -> (r: &'static str)
    ensures
        r@ == sync_description(kind),
{
    match kind {
        GuestKind::Image => "Linux image candidate",
        GuestKind::Machine => "tracked macOS VM",
    }
}

/// The state, the environment and the action after a step.
pub open spec fn sync_at(
    run: SyncView,
    environment: EnvironmentView,
    phase: SyncPhase,
    action: SyncActionView,
) -> (SyncView, EnvironmentView, SyncActionView) {
    (SyncView { phase, ..run }, environment, action)
}

pub open spec fn sync_failed(
    run: SyncView,
    environment: EnvironmentView,
    message: Seq<char>,
) -> (SyncView, EnvironmentView, SyncActionView) {
    sync_at(
        run,
        environment,
        SyncPhase::Finished,
        SyncActionView::Finish { result: Err(message) },
    )
}

/// The path that is taken over.
pub open spec fn sync_path(run: SyncView, environment: EnvironmentView) -> Seq<char> {
    environment.tracked_paths[run.index as int]
}

/// The same path in the guest.
pub open spec fn sync_guest(run: SyncView, environment: EnvironmentView) -> Seq<char> {
    joined("/"@, sync_path(run, environment))
}

/// The candidate of the path.
pub open spec fn sync_candidate(run: SyncView, environment: EnvironmentView) -> Seq<char> {
    joined(run.upper, sync_path(run, environment))
}

/// What is done first for the path at the index, or at the end when there is none.
pub open spec fn sync_begin(run: SyncView, environment: EnvironmentView) -> (
    SyncView,
    EnvironmentView,
    SyncActionView,
) {
    if run.index >= environment.tracked_paths.len() {
        sync_at(
            run,
            environment,
            SyncPhase::Finished,
            SyncActionView::Finish { result: Ok(environment.tracked_paths.len()) },
        )
    } else {
        let relative = sync_path(run, environment);
        if !is_safe_relative(relative) {
            sync_failed(run, environment, unsafe_path_message(relative))
        } else {
            match run.kind {
                GuestKind::Machine => sync_at(
                    run,
                    environment,
                    SyncPhase::Origin,
                    SyncActionView::Inspect { path: joined(environment.base_root, relative) },
                ),
                GuestKind::Image => sync_at(
                    run,
                    environment,
                    SyncPhase::Presence,
                    SyncActionView::Test {
                        check: FileCheck::Exists,
                        guest: sync_guest(run, environment),
                    },
                ),
            }
        }
    }
}

/// The environment with a path recorded as deleted or as there.
pub open spec fn recorded_as(
    environment: EnvironmentView,
    relative: Seq<char>,
    deleted: bool,
) -> EnvironmentView {
    EnvironmentView {
        deleted_paths: if deleted {
            with_path(environment.deleted_paths, relative)
        } else {
            without_path(environment.deleted_paths, relative)
        },
        ..environment
    }
}

/// The environment with the origin of a path, unless it has one already.
pub open spec fn with_first_origin(
    environment: EnvironmentView,
    relative: Seq<char>,
    origin: OriginView,
) -> EnvironmentView {
    if environment.origins.dom().contains(parts(relative)) {
        environment
    } else {
        EnvironmentView {
            origins: environment.origins.insert(parts(relative), origin),
            origin_paths: with_spelling(environment.origin_paths, relative),
            ..environment
        }
    }
}

/// The question that is asked next about the file.
pub open spec fn sync_ask(run: SyncView, environment: EnvironmentView, check: FileCheck) -> (
    SyncView,
    EnvironmentView,
    SyncActionView,
) {
    sync_at(
        run,
        environment,
        SyncPhase::File { check },
        SyncActionView::Test { check, guest: sync_guest(run, environment) },
    )
}

pub open spec fn sync_remove(run: SyncView, environment: EnvironmentView, deleted: bool) -> (
    SyncView,
    EnvironmentView,
    SyncActionView,
) {
    sync_at(
        run,
        environment,
        SyncPhase::Removed { deleted },
        SyncActionView::Remove { candidate: sync_candidate(run, environment) },
    )
}

/// What follows from a verdict on the file.
pub open spec fn sync_judged(
    run: SyncView,
    environment: EnvironmentView,
    verdict: FileVerdictView,
) -> (SyncView, EnvironmentView, SyncActionView) {
    match verdict {
        FileVerdictView::Ask { check } => sync_ask(run, environment, check),
        FileVerdictView::Absent => sync_remove(run, environment, false),
        FileVerdictView::Export => sync_at(
            run,
            environment,
            SyncPhase::Copied,
            SyncActionView::Copy {
                guest: sync_guest(run, environment),
                candidate: sync_candidate(run, environment),
            },
        ),
        FileVerdictView::Refuse { message } => sync_failed(run, environment, message),
    }
}

/// The next path, with this one recorded.
pub open spec fn sync_next_path(run: SyncView, environment: EnvironmentView, deleted: bool) -> (
    SyncView,
    EnvironmentView,
    SyncActionView,
) {
    sync_begin(
        SyncView { index: run.index + 1, ..run },
        recorded_as(environment, sync_path(run, environment), deleted),
    )
}

/// Whether an event is the one that is waited for.
pub open spec fn sync_awaits(phase: SyncPhase, event: SyncEvent) -> bool {
    match phase {
        SyncPhase::Origin => event is Origin,
        SyncPhase::Presence => event is Answer,
        SyncPhase::Linked { .. } => event is Answer,
        SyncPhase::File { .. } => event is Answer,
        SyncPhase::Copied => event is Done,
        SyncPhase::Removed { .. } => event is Done,
        SyncPhase::Finished => false,
    }
}

/// What follows from an event.
pub open spec fn sync_step(run: SyncView, environment: EnvironmentView, event: SyncEvent) -> (
    SyncView,
    EnvironmentView,
    SyncActionView,
) {
    match event {
        SyncEvent::Origin { origin } => match origin {
            Err(e) => sync_failed(run, environment, e@),
            Ok(origin) => sync_at(
                run,
                with_first_origin(environment, sync_path(run, environment), origin@),
                SyncPhase::Presence,
                SyncActionView::Test {
                    check: FileCheck::Exists,
                    guest: sync_guest(run, environment),
                },
            ),
        },
        SyncEvent::Answer { held } => match held {
            Err(e) => sync_failed(run, environment, e@),
            Ok(held) => match run.phase {
                SyncPhase::Presence => if held && run.kind == GuestKind::Image {
                    sync_ask(run, environment, FileCheck::Exists)
                } else {
                    sync_at(
                        run,
                        environment,
                        SyncPhase::Linked { exists: held },
                        SyncActionView::Test {
                            check: FileCheck::Dangling,
                            guest: sync_guest(run, environment),
                        },
                    )
                },
                SyncPhase::Linked { exists } => match run.kind {
                    GuestKind::Image => if held {
                        sync_ask(run, environment, FileCheck::Exists)
                    } else {
                        sync_remove(run, environment, true)
                    },
                    GuestKind::Machine => if !exists && !held {
                        sync_remove(run, environment, true)
                    } else {
                        sync_judged(
                            run,
                            environment,
                            file_verdict(
                                run.kind,
                                sync_description(run.kind),
                                sync_guest(run, environment),
                                FileCheck::Link,
                                held,
                            ),
                        )
                    },
                },
                SyncPhase::File { check } => sync_judged(
                    run,
                    environment,
                    file_verdict(
                        run.kind,
                        sync_description(run.kind),
                        sync_guest(run, environment),
                        check,
                        held,
                    ),
                ),
                _ => sync_at(run, environment, run.phase, arbitrary()),
            },
        },
        SyncEvent::Done { result } => match result {
            Err(e) => sync_failed(run, environment, e@),
            Ok(_) => sync_next_path(
                run,
                environment,
                match run.phase {
                    SyncPhase::Removed { deleted } => deleted,
                    _ => false,
                },
            ),
        },
    }
}

/// Whether a run stands at one of the paths of an environment.
pub open spec fn sync_fits(run: SyncView, environment: EnvironmentView) -> bool {
    run.phase != SyncPhase::Finished ==> run.index < environment.tracked_paths.len()
        && is_safe_relative(sync_path(run, environment))
}

/// Starts to take the exported files of an environment over.
pub fn sync_tracked_paths(kind: GuestKind, upper: &FsPath, environment: &Environment) -> (r: (
    SyncRun,
    SyncAction,
))
    ensures
        (r.0@, environment@, r.1@) == sync_begin(
            (SyncView { kind, upper: upper@, index: 0, phase: SyncPhase::Finished }),
            environment@,
        ),
        sync_fits(r.0@, environment@),
{
    let mut run = SyncRun { kind, upper: upper.copy(), index: 0, phase: SyncPhase::Finished };
    let action = run.begin(environment);
    (run, action)
}

impl SyncRun {
    fn to(&mut self, phase: SyncPhase, action: SyncAction) -> (r: SyncAction)
        ensures
            final(self)@ == (SyncView { phase, ..old(self)@ }),
            r@ == action@,
    {
        self.phase = phase;
        action
    }

    fn fail(&mut self, message: String) -> (r: SyncAction)
        ensures
            final(self)@ == (SyncView { phase: SyncPhase::Finished, ..old(self)@ }),
            r@ == (SyncActionView::Finish { result: Err::<nat, Seq<char>>(message@) }),
    {
        self.phase = SyncPhase::Finished;
        SyncAction::Finish { result: Err(message) }
    }

    fn guest(&self, environment: &Environment) -> (r: FsPath)
        requires
            self.index < environment@.tracked_paths.len(),
        ensures
            r@ == sync_guest(self@, environment@),
    {
        FsPath::new("/").join(environment.tracked_paths[self.index].text.as_str())
    }

    fn candidate(&self, environment: &Environment) -> (r: FsPath)
        requires
            self.index < environment@.tracked_paths.len(),
        ensures
            r@ == sync_candidate(self@, environment@),
    {
        self.upper.join(environment.tracked_paths[self.index].text.as_str())
    }

    fn begin(&mut self, environment: &Environment) -> (r: SyncAction)
        ensures
            (final(self)@, environment@, r@) == sync_begin(old(self)@, environment@),
            sync_fits(final(self)@, environment@),
    {
        if self.index >= environment.tracked_paths.len() {
            let count = environment.tracked_paths.len();
            return self.to(SyncPhase::Finished, SyncAction::Finish { result: Ok(count) });
        }
        let relative = &environment.tracked_paths[self.index];
        match validate_relative_path(relative) {
            Err(e) => self.fail(e),
            Ok(()) => match self.kind {
                GuestKind::Machine => {
                    let path = environment.base_root.join(relative.text.as_str());
                    self.to(SyncPhase::Origin, SyncAction::Inspect { path })
                },
                GuestKind::Image => {
                    let guest = self.guest(environment);
                    self.to(
                        SyncPhase::Presence,
                        SyncAction::Test { check: FileCheck::Exists, guest },
                    )
                },
            },
        }
    }

    fn ask(&mut self, environment: &Environment, check: FileCheck) -> (r: SyncAction)
        requires
            sync_fits(old(self)@, environment@),
            old(self)@.phase != SyncPhase::Finished,
        ensures
            (final(self)@, environment@, r@) == sync_ask(old(self)@, environment@, check),
            sync_fits(final(self)@, environment@),
    {
        let guest = self.guest(environment);
        self.to(SyncPhase::File { check }, SyncAction::Test { check, guest })
    }

    fn remove(&mut self, environment: &Environment, deleted: bool) -> (r: SyncAction)
        requires
            sync_fits(old(self)@, environment@),
            old(self)@.phase != SyncPhase::Finished,
        ensures
            (final(self)@, environment@, r@) == sync_remove(old(self)@, environment@, deleted),
            sync_fits(final(self)@, environment@),
    {
        let candidate = self.candidate(environment);
        self.to(SyncPhase::Removed { deleted }, SyncAction::Remove { candidate })
    }

    fn judge(&mut self, environment: &Environment, check: FileCheck, held: bool) -> (r: SyncAction)
        requires
            sync_fits(old(self)@, environment@),
            old(self)@.phase != SyncPhase::Finished,
        ensures
            (final(self)@, environment@, r@) == sync_judged(
                old(self)@,
                environment@,
                file_verdict(
                    old(self)@.kind,
                    sync_description(old(self)@.kind),
                    sync_guest(old(self)@, environment@),
                    check,
                    held,
                ),
            ),
            sync_fits(final(self)@, environment@),
    {
        let guest = self.guest(environment);
        match judge_file(self.kind, describe_sync(self.kind), &guest, check, held) {
            FileVerdict::Ask { check } => self.ask(environment, check),
            FileVerdict::Absent => self.remove(environment, false),
            FileVerdict::Export => {
                let candidate = self.candidate(environment);
                self.to(SyncPhase::Copied, SyncAction::Copy { guest, candidate })
            },
            FileVerdict::Refuse { message } => self.fail(message),
        }
    }

    /// Takes the run one step further. The environment records what was found.
    pub fn next(&mut self, environment: &mut Environment, event: SyncEvent) -> (r: SyncAction)
        requires
            sync_fits(old(self)@, old(environment)@),
            sync_awaits(old(self)@.phase, event),
        ensures
            (final(self)@, final(environment)@, r@) == sync_step(
                old(self)@,
                old(environment)@,
                event,
            ),
            sync_fits(final(self)@, final(environment)@),
    {
        match event {
            SyncEvent::Origin { origin } => match origin {
                Err(e) => self.fail(e),
                Ok(origin) => {
                    let guest = self.guest(environment);
                    let relative = environment.tracked_paths[self.index].copy();
                    proof {
                        lemma_spelled(environment.origins.keys());
                    }
                    if !environment.origins.contains(&relative) {
                        environment.origins.insert(relative, origin);
                    }
                    self.to(
                        SyncPhase::Presence,
                        SyncAction::Test { check: FileCheck::Exists, guest },
                    )
                },
            },
            SyncEvent::Answer { held } => {
                let held = match held {
                    Err(e) => return self.fail(e),
                    Ok(held) => held,
                };
                match self.phase {
                    SyncPhase::Presence => if held && self.kind == GuestKind::Image {
                        self.ask(environment, FileCheck::Exists)
                    } else {
                        let guest = self.guest(environment);
                        self.to(
                            SyncPhase::Linked { exists: held },
                            SyncAction::Test { check: FileCheck::Dangling, guest },
                        )
                    },
                    SyncPhase::Linked { exists } => match self.kind {
                        GuestKind::Image => if held {
                            self.ask(environment, FileCheck::Exists)
                        } else {
                            self.remove(environment, true)
                        },
                        GuestKind::Machine => if !exists && !held {
                            self.remove(environment, true)
                        } else {
                            self.judge(environment, FileCheck::Link, held)
                        },
                    },
                    SyncPhase::File { check } => self.judge(environment, check, held),
                    _ => SyncAction::Finish { result: Ok(0) },
                }
            },
            SyncEvent::Done { result } => {
                match result {
                    Err(e) => return self.fail(e),
                    Ok(_) => {},
                }
                let deleted = match self.phase {
                    SyncPhase::Removed { deleted } => deleted,
                    _ => false,
                };
                let count = environment.tracked_paths.len();
                let relative = environment.tracked_paths[self.index].copy();
                assert(self.index < count);
                record_path(environment, &relative, deleted);
                self.index = self.index + 1;
                self.begin(environment)
            },
        }
    }
}

/// Records whether a path is deleted.
pub fn record_path(environment: &mut Environment, relative: &FsPath, deleted: bool)
    ensures
        final(environment)@ == recorded_as(old(environment)@, relative@, deleted),
{
    if deleted {
        add_path(&mut environment.deleted_paths, relative);
    } else {
        drop_path(&mut environment.deleted_paths, relative);
    }
}

/// Taking files over changes nothing of an environment but the paths that it records as deleted
/// and the origins that it did not have.
pub proof fn law_sync_keeps_the_rest(run: SyncView, environment: EnvironmentView, event: SyncEvent)
    requires
        sync_fits(run, environment),
        sync_awaits(run.phase, event),
    ensures
        ({
            let after = sync_step(run, environment, event).1;
            &&& after == (EnvironmentView {
                origins: after.origins,
                origin_paths: after.origin_paths,
                deleted_paths: after.deleted_paths,
                ..environment
            })
            &&& forall|path: Seq<PathPart>|
                environment.origins.dom().contains(path) ==> after.origins.dom().contains(path)
                    && #[trigger] after.origins[path] == environment.origins[path]
            &&& forall|path: Seq<PathPart>|
                environment.origin_paths.dom().contains(path) ==> #[trigger] after.origin_paths[path]
                    == environment.origin_paths[path]
        }),
{
}

/// A file is only copied out of a guest after it was found to be a regular file.
pub proof fn law_only_regular_files_are_copied(
    run: SyncView,
    environment: EnvironmentView,
    event: SyncEvent,
)
    requires
        sync_fits(run, environment),
        sync_awaits(run.phase, event),
        sync_step(run, environment, event).2 is Copy,
    ensures
        run.phase == (SyncPhase::File { check: FileCheck::Regular }),
        event matches SyncEvent::Answer { held } && held == Ok::<bool, String>(true),
{
}

/// A file that is brought into a guest.
#[derive(Debug, Clone, Copy, PartialEq, Eq, Structural)]
pub enum GuestFile {
    /// The program of the sandbox.
    Program,
    /// The circuits to check.
    ProbeInput,
}

/// What is done in a guest before a command is run there.
pub enum GuestStep {
    Run { argv: Vec<String> },
    CopyIn { file: GuestFile, destination: FsPath },
}

#[verifier::ext_equal]
pub enum GuestStepView {
    Run { argv: Seq<Seq<char>> },
    CopyIn { file: GuestFile, destination: Seq<char> },
}

impl View for GuestStep {
    type V = GuestStepView;

    open spec fn view(&self) -> GuestStepView {
        match self {
            GuestStep::Run { argv } => GuestStepView::Run { argv: texts(argv@) },
            GuestStep::CopyIn { file, destination } => GuestStepView::CopyIn {
                file: *file,
                destination: destination@,
            },
        }
    }
}

/// The program of the sandbox in the guest.
pub open spec fn guest_program(directory: Seq<char>) -> Seq<char> {
    joined(directory, "netsandbox"@)
}

/// What is done in the guest before a command is run: the directory of the sandbox is made, an
/// earlier result is removed, and the program and the circuits to check are brought in.
pub open spec fn preparation(directory: Seq<char>, has_input: bool) -> Seq<GuestStepView> {
    let always = seq![
        GuestStepView::Run { argv: seq!["/bin/mkdir"@, "-p"@, directory] },
        GuestStepView::Run {
            argv: seq!["/bin/rm"@, "-f"@, joined(directory, "probe-result.json"@)],
        },
        GuestStepView::CopyIn { file: GuestFile::Program, destination: guest_program(directory) },
        GuestStepView::Run { argv: seq!["/bin/chmod"@, "755"@, guest_program(directory)] },
    ];
    if has_input {
        always.push(
            GuestStepView::CopyIn {
                file: GuestFile::ProbeInput,
                destination: joined(directory, "probe-input.json"@),
            },
        )
    } else {
        always
    }
}

fn run_step(argv: Vec<&str>) -> (r: GuestStep)
    ensures
        r@ == (GuestStepView::Run { argv: strs(argv@) }),
{
    GuestStep::Run { argv: arguments(argv) }
}

/// What is done in the guest before a command is run.
pub fn prepare_guest_command(directory: &FsPath, has_input: bool) -> (r: Vec<GuestStep>)
    ensures
        views(r@) == preparation(directory@, has_input),
{
    let result = directory.join("probe-result.json");
    let program = directory.join("netsandbox");
    let input = directory.join("probe-input.json");
    let ghost want = preparation(directory@, has_input);
    let mkdir = run_step(vec!["/bin/mkdir", "-p", directory.text.as_str()]);
    let clear = run_step(vec!["/bin/rm", "-f", result.text.as_str()]);
    let chmod = run_step(vec!["/bin/chmod", "755", program.text.as_str()]);
    assert(mkdir@ == want[0]);
    assert(clear@ == want[1]);
    assert(chmod@ == want[3]);
    let mut r = vec![
        mkdir,
        clear,
        GuestStep::CopyIn { file: GuestFile::Program, destination: program },
        chmod,
    ];
    if has_input {
        r.push(GuestStep::CopyIn { file: GuestFile::ProbeInput, destination: input });
    }
    assert(views(r@) =~= want);
    r
}

/// A command as it is run in the guest: the program of the host is the program in the guest.
pub open spec fn guest_command(
    command: Seq<Seq<char>>,
    executable: Seq<char>,
    directory: Seq<char>,
) -> Seq<Seq<char>> {
    if command.len() > 0 && same_parts(command[0], executable) {
        command.update(0, guest_program(directory))
    } else {
        command
    }
}

/// The command as it is run in the guest.
pub fn map_guest_command(
    command: &Vec<String>,
    executable: &FsPath,
    directory: &FsPath,
) -> (r: Vec<String>)
    ensures
        texts(r@) == guest_command(texts(command@), executable@, directory@),
{
    let mut mapped = copy_texts(command);
    if mapped.len() > 0 && FsPath::new(mapped[0].as_str()).same(executable) {
        let program = directory.join("netsandbox");
        mapped.set(0, program.text);
        assert(texts(mapped@) =~= texts(command@).update(0, guest_program(directory@)));
    }
    mapped
}

/// Whether a command asks to be run interactively.
pub open spec fn is_interactive(command: Seq<Seq<char>>) -> bool {
    command.contains("-i"@) || command.contains("--interactive"@)
}

pub fn interactive(command: &Vec<String>) -> (r: bool)
    ensures
        r == is_interactive(texts(command@)),
{
    crate::text::contains_text(command, "-i") || crate::text::contains_text(
        command,
        "--interactive",
    )
}

} // verus!
