//! The command that applies an environment to the host: what it asks for, in which order, and
//! what it makes of what comes back.
use vstd::prelude::*;

use crate::clock::Timestamp;
use crate::command::Host;
use crate::model::{Environment, EnvironmentStatus, EnvironmentView};
use crate::platform::{
    has_isolated_runtime, host_refusal, is_isolated, require_real_host_apply, runs_image,
    supports_host_apply,
};
use crate::session::{consent_message, require_consent, Consent};
use crate::staged_routes::{lacks_proof, unproven};

verus! {

/// What the command was called with, and what the host allows.
#[derive(Debug, Clone, Copy, PartialEq, Eq, Structural)]
pub struct ApplyRequest {
    pub host: Host,
    /// Whether a macOS host can isolate commands itself.
    pub native: bool,
    pub privileged: bool,
    pub dry_run: bool,
    pub trial: bool,
    pub yes: bool,
}

/// Where the command stands: what it waits for.
#[derive(Debug, Clone, Copy, PartialEq, Eq, Structural)]
pub enum CommandPhase {
    /// The files of the guest system.
    Syncing,
    /// A plan that is only shown.
    Previewing,
    /// The environment, saved after a plan that is only shown.
    SavingPreview { allowed: bool },
    /// The checks just before the apply.
    Refreshing,
    /// The plan.
    Planning,
    /// The environment, saved with the plan.
    SavingPlan { allowed: bool },
    /// The apply.
    Applying,
    /// The checks after the apply.
    Validating,
    /// The live routes.
    Verifying,
    /// The rollback.
    RollingBack,
    /// The end of the lease after a rollback.
    Releasing,
    /// The environment, saved after a rollback.
    SavingRollback,
    /// The environment, saved after a failure that is not rolled back.
    SavingFailure,
    /// The environment, saved as applied.
    SavingSuccess,
    /// The end of the lease of an apply that stays.
    Committing,
    Finished,
}

/// What comes back of what is asked for.
pub enum CommandEvent {
    Done { result: Result<(), String> },
    /// Whether the plan is allowed.
    Planned { allowed: Result<bool, String> },
    /// The transaction of the apply.
    Applied { transaction: Result<String, String> },
    /// The destinations whose routes are not the ones that were installed.
    Verified { failed: Result<Vec<String>, String> },
}

/// What has to be done next.
pub enum CommandAction {
    /// Take the files of the guest system over.
    Sync,
    /// Check the circuits that matter for the apply.
    Refresh,
    /// Make the plan.
    Plan,
    /// Save the environment.
    Save,
    /// Run the plan.
    Apply,
    /// Check all circuits.
    Validate,
    /// Look at the live routes.
    VerifyRoutes,
    /// Take the changes back.
    RollBack,
    /// End the lease, the changes having been taken back.
    Release,
    /// End the lease, the changes staying.
    Commit { transaction: String },
    /// Stop: with an exit code, or with an error. `show_plan` says whether the plan is shown first.
    Finish { result: Result<i32, String>, show_plan: bool },
}

#[verifier::ext_equal]
pub enum CommandActionView {
    Sync,
    Refresh,
    Plan,
    Save,
    Apply,
    Validate,
    VerifyRoutes,
    RollBack,
    Release,
    Commit { transaction: Seq<char> },
    Finish { result: Result<i32, Seq<char>>, show_plan: bool },
}

impl View for CommandAction {
    type V = CommandActionView;

    open spec fn view(&self) -> CommandActionView {
        match self {
            CommandAction::Sync => CommandActionView::Sync,
            CommandAction::Refresh => CommandActionView::Refresh,
            CommandAction::Plan => CommandActionView::Plan,
            CommandAction::Save => CommandActionView::Save,
            CommandAction::Apply => CommandActionView::Apply,
            CommandAction::Validate => CommandActionView::Validate,
            CommandAction::VerifyRoutes => CommandActionView::VerifyRoutes,
            CommandAction::RollBack => CommandActionView::RollBack,
            CommandAction::Release => CommandActionView::Release,
            CommandAction::Commit { transaction } => CommandActionView::Commit {
                transaction: transaction@,
            },
            CommandAction::Finish { result, show_plan } => CommandActionView::Finish {
                result: match result {
                    Ok(code) => Ok(*code),
                    Err(e) => Err(e@),
                },
                show_plan: *show_plan,
            },
        }
    }
}

/// The command that applies an environment.
pub struct ApplyCommand {
    pub request: ApplyRequest,
    pub phase: CommandPhase,
    /// The transaction of the apply, once there is one.
    pub transaction: String,
    /// What is reported in the end.
    pub message: String,
}

#[verifier::ext_equal]
pub struct ApplyCommandView {
    pub request: ApplyRequest,
    pub phase: CommandPhase,
    pub transaction: Seq<char>,
    pub message: Seq<char>,
}

impl View for ApplyCommand {
    type V = ApplyCommandView;

    open spec fn view(&self) -> ApplyCommandView {
        ApplyCommandView {
            request: self.request,
            phase: self.phase,
            transaction: self.transaction@,
            message: self.message@,
        }
    }
}

/// The state, the environment and the action after a step.
pub type CommandState = (ApplyCommandView, EnvironmentView, CommandActionView);

pub open spec fn command_to(
    command: ApplyCommandView,
    environment: EnvironmentView,
    phase: CommandPhase,
    action: CommandActionView,
) -> CommandState {
    (ApplyCommandView { phase, ..command }, environment, action)
}

pub open spec fn command_stop(
    command: ApplyCommandView,
    environment: EnvironmentView,
    result: Result<i32, Seq<char>>,
    show_plan: bool,
) -> CommandState {
    command_to(
        command,
        environment,
        CommandPhase::Finished,
        CommandActionView::Finish { result, show_plan },
    )
}

pub open spec fn command_fail(
    command: ApplyCommandView,
    environment: EnvironmentView,
    message: Seq<char>,
) -> CommandState {
    command_stop(command, environment, Err(message), false)
}

/// What follows when the files of the environment are at hand: a plan, or first the conditions for
/// a real apply.
pub open spec fn command_ready(
    command: ApplyCommandView,
    environment: EnvironmentView,
) -> CommandState {
    let request = command.request;
    if request.dry_run {
        command_to(command, environment, CommandPhase::Previewing, CommandActionView::Plan)
    } else {
        match host_refusal(request.host, environment, request.privileged) {
            Some(e) => command_fail(command, environment, e),
            None => if !request.yes {
                command_fail(command, environment, consent_message(Consent::Apply))
            } else {
                command_to(
                    command,
                    environment,
                    CommandPhase::Refreshing,
                    CommandActionView::Refresh,
                )
            },
        }
    }
}

/// What an environment that runs in a container is refused with.
pub open spec fn image_message(name: Seq<char>) -> Seq<char> {
    "a Linux image environment cannot be applied to the Mac host; use 'netsandbox mac linux-diff "@
        + name + "' and 'linux-commit'"@
}

/// The first step.
pub open spec fn command_start(
    request: ApplyRequest,
    environment: EnvironmentView,
    name: Seq<char>,
) -> CommandState {
    let command = ApplyCommandView {
        request,
        phase: CommandPhase::Syncing,
        transaction: Seq::empty(),
        message: Seq::empty(),
    };
    if runs_image(request.host, environment) {
        command_fail(command, environment, image_message(name))
    } else if request.host == Host::MacOs && is_isolated(
        request.host,
        environment,
        request.native,
    ) {
        command_to(command, environment, CommandPhase::Syncing, CommandActionView::Sync)
    } else {
        command_ready(command, environment)
    }
}

/// Whether an event is the one that is waited for.
pub open spec fn command_awaits(phase: CommandPhase, event: CommandEvent) -> bool {
    match phase {
        CommandPhase::Previewing => event is Planned,
        CommandPhase::Planning => event is Planned,
        CommandPhase::Applying => event is Applied,
        CommandPhase::Verifying => event is Verified,
        CommandPhase::Finished => false,
        _ => event is Done,
    }
}

/// An environment whose apply failed.
pub open spec fn marked_failed(environment: EnvironmentView, at: Timestamp) -> EnvironmentView {
    EnvironmentView {
        status: EnvironmentStatus::ValidationFailed,
        updated_at: at,
        ..environment
    }
}

/// An environment that is applied.
pub open spec fn marked_applied(
    environment: EnvironmentView,
    transaction: Seq<char>,
    at: Timestamp,
) -> EnvironmentView {
    EnvironmentView {
        status: EnvironmentStatus::Applied,
        applied_transaction: Some(transaction),
        updated_at: at,
        ..environment
    }
}

/// What follows from the look at the live routes after an apply. Where anything is not as it
/// should be, the changes are taken back, if the policy of the environment says so.
pub open spec fn command_verified(
    command: ApplyCommandView,
    environment: EnvironmentView,
    failed: Result<Vec<String>, String>,
    at: Timestamp,
) -> CommandState {
    let auto = environment.policy.auto_rollback;
    match failed {
        Err(e) => if auto {
            command_to(
                ApplyCommandView {
                    message: "post-apply route verification failed; changes were rolled back: "@
                        + e@,
                    ..command
                },
                marked_failed(environment, at),
                CommandPhase::RollingBack,
                CommandActionView::RollBack,
            )
        } else {
            command_fail(
                command,
                environment,
                "post-apply route verification failed: "@ + e@,
            )
        },
        Ok(list) => if list@.len() > 0 || lacks_proof(environment.baseline) {
            if auto {
                command_to(
                    ApplyCommandView {
                        message:
                            "post-apply circuit validation failed; host changes were automatically rolled back"@,
                        ..command
                    },
                    marked_failed(environment, at),
                    CommandPhase::RollingBack,
                    CommandActionView::RollBack,
                )
            } else {
                command_to(
                    ApplyCommandView {
                        message:
                            "post-apply circuit validation failed; automatic rollback is disabled"@,
                        ..command
                    },
                    marked_failed(environment, at),
                    CommandPhase::SavingFailure,
                    CommandActionView::Save,
                )
            }
        } else {
            command_to(
                command,
                marked_applied(environment, command.transaction, at),
                CommandPhase::SavingSuccess,
                CommandActionView::Save,
            )
        },
    }
}

/// What follows when something that was asked for is done.
pub open spec fn command_done(
    command: ApplyCommandView,
    environment: EnvironmentView,
) -> CommandState {
    match command.phase {
        CommandPhase::Syncing => command_ready(command, environment),
        CommandPhase::SavingPreview { allowed } => command_stop(
            command,
            environment,
            Ok(
                if allowed {
                    0
                } else {
                    2
                },
            ),
            true,
        ),
        CommandPhase::Refreshing => command_to(
            command,
            environment,
            CommandPhase::Planning,
            CommandActionView::Plan,
        ),
        CommandPhase::SavingPlan { allowed } => if allowed {
            command_to(command, environment, CommandPhase::Applying, CommandActionView::Apply)
        } else {
            command_stop(command, environment, Err("apply is blocked"@), true)
        },
        CommandPhase::Validating => command_to(
            command,
            environment,
            CommandPhase::Verifying,
            CommandActionView::VerifyRoutes,
        ),
        CommandPhase::RollingBack => command_to(
            command,
            environment,
            CommandPhase::Releasing,
            CommandActionView::Release,
        ),
        CommandPhase::Releasing => command_to(
            command,
            environment,
            CommandPhase::SavingRollback,
            CommandActionView::Save,
        ),
        CommandPhase::SavingSuccess => command_to(
            command,
            environment,
            CommandPhase::Committing,
            CommandActionView::Commit { transaction: command.transaction },
        ),
        CommandPhase::Committing => command_stop(command, environment, Ok(0), false),
        _ => command_fail(command, environment, command.message),
    }
}

/// What follows from an event.
pub open spec fn command_step(
    command: ApplyCommandView,
    environment: EnvironmentView,
    event: CommandEvent,
    at: Timestamp,
) -> CommandState {
    match event {
        CommandEvent::Done { result } => match result {
            Err(e) => command_fail(command, environment, e@),
            Ok(_) => command_done(command, environment),
        },
        CommandEvent::Planned { allowed } => match allowed {
            Err(e) => command_fail(command, environment, e@),
            Ok(allowed) => command_to(
                command,
                environment,
                if command.phase == CommandPhase::Previewing {
                    CommandPhase::SavingPreview { allowed }
                } else {
                    CommandPhase::SavingPlan { allowed }
                },
                CommandActionView::Save,
            ),
        },
        CommandEvent::Applied { transaction } => match transaction {
            Err(e) => command_fail(command, environment, e@),
            Ok(id) => command_to(
                ApplyCommandView { transaction: id@, ..command },
                environment,
                CommandPhase::Validating,
                CommandActionView::Validate,
            ),
        },
        CommandEvent::Verified { failed } => command_verified(command, environment, failed, at),
    }
}

impl ApplyCommand {
    fn to(&mut self, phase: CommandPhase, action: CommandAction) -> (r: CommandAction)
        ensures
            final(self)@ == (ApplyCommandView { phase, ..old(self)@ }),
            r@ == action@,
    {
        self.phase = phase;
        action
    }

    fn stop(&mut self, result: Result<i32, String>, show_plan: bool) -> (r: CommandAction)
        ensures
            final(self)@ == (ApplyCommandView { phase: CommandPhase::Finished, ..old(self)@ }),
            r@ == (CommandActionView::Finish {
                result: match result {
                    Ok(code) => Ok::<i32, Seq<char>>(code),
                    Err(e) => Err(e@),
                },
                show_plan,
            }),
    {
        self.phase = CommandPhase::Finished;
        CommandAction::Finish { result, show_plan }
    }

    fn ready(&mut self, environment: &Environment) -> (r: CommandAction)
        ensures
            (final(self)@, environment@, r@) == command_ready(old(self)@, environment@),
    {
        if self.request.dry_run {
            return self.to(CommandPhase::Previewing, CommandAction::Plan);
        }
        match require_real_host_apply(self.request.host, environment, self.request.privileged) {
            Err(e) => return self.stop(Err(e), false),
            Ok(()) => {},
        }
        match require_consent(Consent::Apply, self.request.yes) {
            Err(e) => self.stop(Err(e), false),
            Ok(()) => self.to(CommandPhase::Refreshing, CommandAction::Refresh),
        }
    }

    /// Starts the command. `name` is the name that the environment is known by.
    pub fn start(request: ApplyRequest, environment: &Environment, name: &str) -> (r: (
        ApplyCommand,
        CommandAction,
    ))
        ensures
            (r.0@, environment@, r.1@) == command_start(request, environment@, name@),
    {
        let mut command = ApplyCommand {
            request,
            phase: CommandPhase::Syncing,
            transaction: String::new(),
            message: String::new(),
        };
        assert(command@.transaction =~= Seq::empty());
        assert(command@.message =~= Seq::empty());
        if !supports_host_apply(request.host, environment) {
            let message =
                "a Linux image environment cannot be applied to the Mac host; use 'netsandbox mac linux-diff ".to_owned().concat(
            name).concat("' and 'linux-commit'");
            let action = command.stop(Err(message), false);
            return (command, action);
        }
        if request.host == Host::MacOs && has_isolated_runtime(
            request.host,
            environment,
            request.native,
        ) {
            return (command, CommandAction::Sync);
        }
        let action = command.ready(environment);
        (command, action)
    }

    fn done(&mut self, environment: &Environment) -> (r: CommandAction)
        ensures
            (final(self)@, environment@, r@) == command_done(old(self)@, environment@),
    {
        match self.phase {
            CommandPhase::Syncing => self.ready(environment),
            CommandPhase::SavingPreview { allowed } => self.stop(
                Ok(
                    if allowed {
                        0
                    } else {
                        2
                    },
                ),
                true,
            ),
            CommandPhase::Refreshing => self.to(CommandPhase::Planning, CommandAction::Plan),
            CommandPhase::SavingPlan { allowed } => if allowed {
                self.to(CommandPhase::Applying, CommandAction::Apply)
            } else {
                self.stop(Err("apply is blocked".to_owned()), true)
            },
            CommandPhase::Validating => self.to(
                CommandPhase::Verifying,
                CommandAction::VerifyRoutes,
            ),
            CommandPhase::RollingBack => self.to(CommandPhase::Releasing, CommandAction::Release),
            CommandPhase::Releasing => self.to(CommandPhase::SavingRollback, CommandAction::Save),
            CommandPhase::SavingSuccess => {
                let transaction = self.transaction.clone();
                self.to(CommandPhase::Committing, CommandAction::Commit { transaction })
            },
            CommandPhase::Committing => self.stop(Ok(0), false),
            _ => {
                let message = self.message.clone();
                self.stop(Err(message), false)
            },
        }
    }

    fn verified(
        &mut self,
        environment: &mut Environment,
        failed: Result<Vec<String>, String>,
        at: Timestamp,
    ) -> (r: CommandAction)
        ensures
            (final(self)@, final(environment)@, r@) == command_verified(
                old(self)@,
                old(environment)@,
                failed,
                at,
            ),
    {
        let auto = environment.policy.auto_rollback;
        let list = match failed {
            Err(e) => {
                if !auto {
                    let message = "post-apply route verification failed: ".to_owned().concat(
                        e.as_str(),
                    );
                    return self.stop(Err(message), false);
                }
                self.message =
                "post-apply route verification failed; changes were rolled back: ".to_owned().concat(
                    e.as_str(),
                );
                environment.status = EnvironmentStatus::ValidationFailed;
                environment.updated_at = at;
                return self.to(CommandPhase::RollingBack, CommandAction::RollBack);
            },
            Ok(list) => list,
        };
        if list.len() > 0 || unproven(&environment.baseline) {
            environment.status = EnvironmentStatus::ValidationFailed;
            environment.updated_at = at;
            if auto {
                self.message =
                "post-apply circuit validation failed; host changes were automatically rolled back".to_owned();
                self.to(CommandPhase::RollingBack, CommandAction::RollBack)
            } else {
                self.message =
                "post-apply circuit validation failed; automatic rollback is disabled".to_owned();
                self.to(CommandPhase::SavingFailure, CommandAction::Save)
            }
        } else {
            environment.status = EnvironmentStatus::Applied;
            environment.applied_transaction = Some(self.transaction.clone());
            environment.updated_at = at;
            self.to(CommandPhase::SavingSuccess, CommandAction::Save)
        }
    }

    /// Takes the command one step further. `at` is the current time.
    pub fn next(&mut self, environment: &mut Environment, event: CommandEvent, at: Timestamp) -> (r:
        CommandAction)
        requires
            command_awaits(old(self)@.phase, event),
        ensures
            (final(self)@, final(environment)@, r@) == command_step(
                old(self)@,
                old(environment)@,
                event,
                at,
            ),
    {
        match event {
            CommandEvent::Done { result } => match result {
                Err(e) => self.stop(Err(e), false),
                Ok(_) => self.done(environment),
            },
            CommandEvent::Planned { allowed } => match allowed {
                Err(e) => self.stop(Err(e), false),
                Ok(allowed) => if self.phase == CommandPhase::Previewing {
                    self.to(CommandPhase::SavingPreview { allowed }, CommandAction::Save)
                } else {
                    self.to(CommandPhase::SavingPlan { allowed }, CommandAction::Save)
                },
            },
            CommandEvent::Applied { transaction } => match transaction {
                Err(e) => self.stop(Err(e), false),
                Ok(id) => {
                    self.transaction = id;
                    self.to(CommandPhase::Validating, CommandAction::Validate)
                },
            },
            CommandEvent::Verified { failed } => self.verified(environment, failed, at),
        }
    }
}

/// Whether a phase lies on the way to a real apply, past the conditions for it.
pub open spec fn is_cleared(phase: CommandPhase) -> bool {
    match phase {
        CommandPhase::Syncing => false,
        CommandPhase::Previewing => false,
        CommandPhase::SavingPreview { .. } => false,
        CommandPhase::Finished => false,
        _ => true,
    }
}

/// A phase past the conditions for a real apply is only reached by a command that was confirmed
/// and is no dry run, on a host whose user may apply.
pub open spec fn command_fits(command: ApplyCommandView, environment: EnvironmentView) -> bool {
    is_cleared(command.phase) ==> {
        &&& command.request.yes
        &&& !command.request.dry_run
        &&& host_refusal(command.request.host, environment, command.request.privileged) is None
    }
}

/// Nothing is applied without consent: every step keeps it so that the command goes past the
/// conditions only when it was confirmed and is no dry run, the host is met with the privileges
/// that it asks for, and the plan is only run once it was found to be allowed.
pub proof fn law_applies_need_consent(
    command: ApplyCommandView,
    environment: EnvironmentView,
    event: CommandEvent,
    at: Timestamp,
    name: Seq<char>,
)
    requires
        command_fits(command, environment),
        command_awaits(command.phase, event),
    ensures
        command_fits(
            command_start(command.request, environment, name).0,
            command_start(command.request, environment, name).1,
        ),
        command_fits(
            command_step(command, environment, event, at).0,
            command_step(command, environment, event, at).1,
        ),
        command_step(command, environment, event, at).2 is Apply ==> {
            &&& command.phase == (CommandPhase::SavingPlan { allowed: true })
            &&& command.request.yes
            &&& !command.request.dry_run
            &&& host_refusal(command.request.host, environment, command.request.privileged) is None
        },
{
}

/// Only a plan that was made after the circuits were checked again is run: outside a dry run a
/// plan is asked for when that check is done, and a plan counts as allowed when the answer says
/// so.
pub proof fn law_only_fresh_plans_are_applied(
    command: ApplyCommandView,
    environment: EnvironmentView,
    event: CommandEvent,
    at: Timestamp,
    name: Seq<char>,
)
    requires
        command_awaits(command.phase, event),
        !command.request.dry_run,
    ensures
        !(command_start(command.request, environment, name).2 is Plan),
        command_step(command, environment, event, at).2 is Plan ==> command.phase
            == CommandPhase::Refreshing && (event matches CommandEvent::Done { result } && result
            is Ok),
        command_step(command, environment, event, at).0.phase == CommandPhase::Planning
            ==> command_step(command, environment, event, at).2 is Plan,
        command_step(command, environment, event, at).0.phase == (CommandPhase::SavingPlan {
            allowed: true,
        }) ==> command.phase == CommandPhase::Planning && event == (CommandEvent::Planned {
            allowed: Ok(true),
        }),
{
}

/// A dry run changes nothing and checks nothing again: whatever comes back, the command asks for
/// neither a check of the circuits nor an apply nor a rollback, and it marks the environment
/// neither as applied nor as failed.
pub proof fn law_dry_runs_change_nothing(
    command: ApplyCommandView,
    environment: EnvironmentView,
    event: CommandEvent,
    at: Timestamp,
    name: Seq<char>,
)
    requires
        command_fits(command, environment),
        command_awaits(command.phase, event),
        command.request.dry_run,
    ensures
        !(command_start(command.request, environment, name).2 is Refresh),
        !(command_start(command.request, environment, name).2 is Apply),
        !(command_start(command.request, environment, name).2 is RollBack),
        !(command_step(command, environment, event, at).2 is Refresh),
        !(command_step(command, environment, event, at).2 is Validate),
        !(command_step(command, environment, event, at).2 is Apply),
        !(command_step(command, environment, event, at).2 is RollBack),
        command_step(command, environment, event, at).1 == environment,
{
}

/// An apply stays only if every required circuit is preserved and every route is the one that was
/// installed; otherwise, where the policy says so, the changes are taken back.
pub proof fn law_failed_applies_are_taken_back(
    command: ApplyCommandView,
    environment: EnvironmentView,
    failed: Result<Vec<String>, String>,
    at: Timestamp,
)
    requires
        command.phase == CommandPhase::Verifying,
    ensures
        ({
            let (after, marked, action) = command_step(
                command,
                environment,
                CommandEvent::Verified { failed },
                at,
            );
            let sound = (failed matches Ok(list) && list@.len() == 0) && !lacks_proof(
                environment.baseline,
            );
            &&& after.phase == CommandPhase::SavingSuccess <==> sound
            &&& marked.status == EnvironmentStatus::Applied ==> sound || environment.status
                == EnvironmentStatus::Applied
            &&& !sound && environment.policy.auto_rollback ==> action
                == CommandActionView::RollBack && marked.status
                == EnvironmentStatus::ValidationFailed
        }),
{
}

/// The lease of an apply is only ended for good after the environment was saved as applied.
pub proof fn law_commits_follow_a_saved_success(
    command: ApplyCommandView,
    environment: EnvironmentView,
    event: CommandEvent,
    at: Timestamp,
)
    requires
        command_awaits(command.phase, event),
        command_step(command, environment, event, at).2 is Commit,
    ensures
        command.phase == CommandPhase::SavingSuccess,
        event matches CommandEvent::Done { result } && result is Ok,
        command_step(command, environment, event, at).2 == (CommandActionView::Commit {
            transaction: command.transaction,
        }),
{
}

} // verus!
