//! Checks that run a command: when to wait, when to stop, and what to report.
use vstd::prelude::*;

use crate::candidate::{all_rewritten, mappings_of, rewrite_candidate_arguments, CanonicalForms};
use crate::command::{command_of, CommandLine, CommandView};
use crate::connectivity::ProbeReply;
use crate::encoding::{decode_lossy, lossy_text};
use crate::text::{
    decimal, join, join_texts, number_text, opt_text, same_text, split_words, texts, words,
};

verus! {

/// How much of what a failing command writes is kept.
pub const MAX_DIAGNOSTIC_BYTES: usize = 2048;

/// How long to wait before a running command is looked at again, in milliseconds.
pub const POLL_MILLISECONDS: u64 = 25;

/// A length of time.
#[derive(Debug, Clone, Copy, PartialEq, Eq, Structural)]
pub struct Span {
    pub seconds: u64,
    pub nanoseconds: u32,
}

impl Span {
    pub open spec fn below(self, other: Span) -> bool {
        self.seconds < other.seconds || (self.seconds == other.seconds && self.nanoseconds
            < other.nanoseconds)
    }

    pub fn is_below(&self, other: &Span) -> (r: bool)
        ensures
            r == self.below(*other),
    {
        self.seconds < other.seconds || (self.seconds == other.seconds && self.nanoseconds
            < other.nanoseconds)
    }
}

/// What becomes of what the command of a check writes.
#[derive(Debug, Clone, Copy, PartialEq, Eq, Structural)]
pub enum ProbeStreams {
    /// All of it is shown.
    Shown,
    /// What it writes on its error stream is kept for the report, and the rest is dropped.
    ErrorsKept,
}

/// What becomes of what the command of a check writes: in a native sandbox on macOS it is shown.
/// `runtime` is the name that the runtime of a sandbox goes by.
pub fn probe_streams(runtime: &Option<String>) -> (r: ProbeStreams)
    ensures
        r == if opt_text(*runtime) == Some("macos-native"@) {
            ProbeStreams::Shown
        } else {
            ProbeStreams::ErrorsKept
        },
{
    match runtime {
        Some(name) => if same_text(name.as_str(), "macos-native") {
            ProbeStreams::Shown
        } else {
            ProbeStreams::ErrorsKept
        },
        None => ProbeStreams::ErrorsKept,
    }
}

/// The command that a check runs, its paths turned to their candidate files.
pub open spec fn is_probe_command(argv: Seq<Seq<char>>, command: CommandView) -> bool {
    argv.len() > 0 && command == command_of(argv[0], argv.skip(1))
}

/// Prepares the command of a check.
pub fn probe_command(
    mapping_text: &Option<String>,
    argv: &Vec<String>,
    forms: &Vec<CanonicalForms>,
) -> (r: Result<CommandLine, String>)
    requires
        forms.len() == argv.len(),
    ensures
        r is Ok <==> argv@.len() > 0,
        match r {
            Ok(command) => is_probe_command(
                all_rewritten(mappings_of(opt_text(*mapping_text)), texts(argv@), forms@),
                command@,
            ),
            Err(e) => e@ == "application probe has no command"@,
        },
{
    let list = rewrite_candidate_arguments(mapping_text, argv, forms);
    let ghost all = texts(list@);
    assert(all.len() == texts(argv@).len());
    if list.len() == 0 {
        return Err("application probe has no command".to_owned());
    }
    let mut rest: Vec<String> = Vec::new();
    let mut i: usize = 1;
    while i < list.len()
        invariant
            1 <= i <= list.len(),
            rest@.len() == i - 1,
            forall|k: int| 0 <= k < i - 1 ==> (#[trigger] rest@[k])@ == list@[k + 1]@,
        decreases list.len() - i,
    {
        rest.push(list[i].clone());
        i += 1;
    }
    assert(texts(rest@) =~= all.skip(1));
    Ok(CommandLine { program: list[0].clone(), arguments: rest })
}

/// What was seen of the command of a check.
pub enum Poll {
    /// It could not be started.
    NotStarted { error: String },
    Exited { success: bool, status: String },
    Running { elapsed: Span },
    /// It could not be looked at.
    Unknown { error: String },
}

/// What to do next with the command of a check.
pub enum ProbeStep {
    Wait { milliseconds: u64 },
    Pass,
    /// Report a failure, and end the command first where `stop` is set.
    Fail { message: String, stop: bool },
}

pub enum ProbeStepView {
    Wait { milliseconds: u64 },
    Pass,
    Fail { message: Seq<char>, stop: bool },
}

impl View for ProbeStep {
    type V = ProbeStepView;

    open spec fn view(&self) -> ProbeStepView {
        match self {
            ProbeStep::Wait { milliseconds } => ProbeStepView::Wait {
                milliseconds: *milliseconds,
            },
            ProbeStep::Pass => ProbeStepView::Pass,
            ProbeStep::Fail { message, stop } => ProbeStepView::Fail {
                message: message@,
                stop: *stop,
            },
        }
    }
}

/// What follows from what was seen: a running command is waited for until its time is up.
pub open spec fn probe_step(poll: Poll, timeout: Span) -> ProbeStepView {
    match poll {
        Poll::NotStarted { error } => ProbeStepView::Fail {
            message: "could not start application probe: "@ + error@,
            stop: false,
        },
        Poll::Exited { success, status } => if success {
            ProbeStepView::Pass
        } else {
            ProbeStepView::Fail {
                message: "application-level circuit check exited with "@ + status@,
                stop: false,
            }
        },
        Poll::Running { elapsed } => if elapsed.below(timeout) {
            ProbeStepView::Wait { milliseconds: POLL_MILLISECONDS }
        } else {
            ProbeStepView::Fail {
                message: "application-level circuit check timed out after "@ + decimal(
                    timeout.seconds as nat,
                ) + "s"@,
                stop: true,
            }
        },
        Poll::Unknown { error } => ProbeStepView::Fail {
            message: "application-level circuit check failed: "@ + error@,
            stop: true,
        },
    }
}

/// Decides what to do next with the command of a check.
pub fn next_probe_step(poll: &Poll, timeout: Span) -> (r: ProbeStep)
    ensures
        r@ == probe_step(*poll, timeout),
{
    match poll {
        Poll::NotStarted { error } => ProbeStep::Fail {
            message: "could not start application probe: ".to_owned().concat(error.as_str()),
            stop: false,
        },
        Poll::Exited { success, status } => if *success {
            ProbeStep::Pass
        } else {
            ProbeStep::Fail {
                message: "application-level circuit check exited with ".to_owned().concat(
                    status.as_str(),
                ),
                stop: false,
            }
        },
        Poll::Running { elapsed } => if elapsed.is_below(&timeout) {
            ProbeStep::Wait { milliseconds: POLL_MILLISECONDS }
        } else {
            ProbeStep::Fail {
                message: "application-level circuit check timed out after ".to_owned().concat(
                    number_text(timeout.seconds).as_str(),
                ).concat("s"),
                stop: true,
            }
        },
        Poll::Unknown { error } => ProbeStep::Fail {
            message: "application-level circuit check failed: ".to_owned().concat(error.as_str()),
            stop: true,
        },
    }
}

/// The part of a command's error output that is kept.
pub open spec fn kept(bytes: Seq<u8>) -> Seq<u8> {
    if bytes.len() <= MAX_DIAGNOSTIC_BYTES {
        bytes
    } else {
        bytes.take(MAX_DIAGNOSTIC_BYTES as int)
    }
}

/// Adds what a command wrote to what is kept of it.
pub fn retain_diagnostic(retained: &mut Vec<u8>, chunk: &Vec<u8>)
    requires
        old(retained)@.len() <= MAX_DIAGNOSTIC_BYTES,
    ensures
        final(retained)@ == kept(old(retained)@ + chunk@),
        final(retained)@.len() <= MAX_DIAGNOSTIC_BYTES,
{
    let ghost before = retained@;
    let ghost whole = before + chunk@;
    let mut i: usize = 0;
    while i < chunk.len() && retained.len() < MAX_DIAGNOSTIC_BYTES
        invariant
            i <= chunk.len(),
            whole == before + chunk@,
            retained@ == whole.take(before.len() + i),
            retained@.len() <= MAX_DIAGNOSTIC_BYTES,
        decreases chunk.len() - i,
    {
        retained.push(chunk[i]);
        i += 1;
        assert(retained@ =~= whole.take(before.len() + i));
    }
    assert(retained@ =~= kept(whole));
}

/// What is kept does not depend on how the output was cut into pieces: it is always the first
/// bytes of the whole.
pub proof fn law_diagnostic_is_the_first_bytes(first: Seq<u8>, second: Seq<u8>)
    ensures
        kept(kept(first) + second) == kept(first + second),
{
    if first.len() > MAX_DIAGNOSTIC_BYTES {
        assert(kept(kept(first) + second) =~= kept(first));
        assert(kept(first + second) =~= kept(first));
    }
}

/// Error output on one line, its white space reduced to single blanks.
pub open spec fn diagnostic(retained: Seq<u8>) -> Seq<char> {
    join_texts(words(lossy_text(retained)), " "@)
}

/// A message with the error output behind it, where there is any.
pub open spec fn with_diagnostic(message: Seq<char>, output: Seq<char>) -> Seq<char> {
    if output.len() == 0 {
        message
    } else {
        message + "; stderr: "@ + output
    }
}

/// Puts the error output behind a message, where there is any.
pub fn append_diagnostic(message: String, output: &str) -> (r: String)
    ensures
        r@ == with_diagnostic(message@, output@),
{
    if output.is_empty() {
        message
    } else {
        message.concat("; stderr: ").concat(output)
    }
}

/// What a finished check is reported as. A command that could not be started has written nothing.
pub open spec fn probe_reply(step: ProbeStepView, retained: Seq<u8>) -> (bool, Seq<char>) {
    match step {
        ProbeStepView::Fail { message, stop } => (
            false,
            with_diagnostic(message, diagnostic(retained)),
        ),
        _ => (true, "application-level circuit check passed"@),
    }
}

/// Reports a finished check.
pub fn finish_probe(step: ProbeStep, retained: &Vec<u8>) -> (r: ProbeReply)
    requires
        !(step is Wait),
    ensures
        match r {
            ProbeReply::Passed(detail) => probe_reply(step@, retained@) == (true, detail@),
            ProbeReply::Failed(detail) => probe_reply(step@, retained@) == (false, detail@),
            _ => false,
        },
{
    match step {
        ProbeStep::Fail { message, stop: _ } => {
            let list = split_words(decode_lossy(retained).as_str());
            let output = join(&list, " ");
            ProbeReply::Failed(append_diagnostic(message, output.as_str()))
        },
        _ => ProbeReply::Passed("application-level circuit check passed".to_owned()),
    }
}

/// A check passes exactly when its command exits with success, whatever was seen before.
pub proof fn law_passes_only_on_success(poll: Poll, timeout: Span)
    ensures
        probe_step(poll, timeout) is Pass <==> (poll matches Poll::Exited { success, .. }
            && success),
        probe_step(poll, timeout) is Wait <==> (poll matches Poll::Running { elapsed }
            && elapsed.below(timeout)),
{
}

} // verus!
