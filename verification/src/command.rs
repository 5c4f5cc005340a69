//! Commands for the host to run, and what they leave behind.
use vstd::prelude::*;

use crate::encoding::{decode_lossy, lossy_text};
use crate::model::Duplicate;
use crate::text::{copy_texts, texts, trim, trimmed};

verus! {

/// The system that the sandbox runs on.
#[derive(Debug, Clone, Copy, PartialEq, Eq, Structural)]
pub enum Host {
    Linux,
    MacOs,
    Other,
}

/// A command: a program and its arguments.
pub struct CommandLine {
    pub program: String,
    pub arguments: Vec<String>,
}

#[verifier::ext_equal]
pub struct CommandView {
    pub program: Seq<char>,
    pub arguments: Seq<Seq<char>>,
}

impl View for CommandLine {
    type V = CommandView;

    open spec fn view(&self) -> CommandView {
        CommandView { program: self.program@, arguments: texts(self.arguments@) }
    }
}

impl Duplicate for CommandLine {
    fn duplicate(&self) -> (r: CommandLine) {
        CommandLine { program: self.program.clone(), arguments: copy_texts(&self.arguments) }
    }
}

pub open spec fn command_of(program: Seq<char>, arguments: Seq<Seq<char>>) -> CommandView {
    CommandView { program, arguments }
}

/// The command of a program with the given arguments.
pub fn command(program: &str, arguments: Vec<&str>) -> (r: CommandLine)
    ensures
        r@ == command_of(program@, crate::text::strs(arguments@)),
{
    CommandLine { program: program.to_owned(), arguments: crate::text::arguments(arguments) }
}

/// What a finished command left behind. `status` is the status in words.
pub struct CommandOutput {
    pub code: Option<i32>,
    pub status: String,
    pub stdout: Vec<u8>,
    pub stderr: Vec<u8>,
}

impl CommandOutput {
    /// Whether the command reported success.
    pub open spec fn succeeded(self) -> bool {
        self.code == Some(0i32)
    }

    pub fn success(&self) -> (r: bool)
        ensures
            r == self.succeeded(),
    {
        match self.code {
            Some(code) => code == 0,
            None => false,
        }
    }

    /// The standard output as text.
    pub open spec fn output_text(self) -> Seq<char> {
        lossy_text(self.stdout@)
    }

    /// The standard error without the white space around it.
    pub open spec fn error_text(self) -> Seq<char> {
        trimmed(lossy_text(self.stderr@))
    }

    pub fn stdout_text(&self) -> (r: String)
        ensures
            r@ == self.output_text(),
    {
        decode_lossy(&self.stdout)
    }

    pub fn trimmed_stdout(&self) -> (r: String)
        ensures
            r@ == trimmed(self.output_text()),
    {
        trim(decode_lossy(&self.stdout).as_str())
    }

    pub fn trimmed_stderr(&self) -> (r: String)
        ensures
            r@ == self.error_text(),
    {
        trim(decode_lossy(&self.stderr).as_str())
    }
}

/// What a command that must succeed is reported with when it does not.
pub open spec fn failure_message(action: Seq<char>, detail: Seq<char>) -> Seq<char> {
    action + " failed: "@ + detail
}

/// Refuses the output of a command that failed, with what it wrote to standard error.
pub fn ensure_success(output: &CommandOutput, action: &str) -> (r: Result<(), String>)
    ensures
        r is Ok <==> output.succeeded(),
        r matches Err(e) ==> e@ == failure_message(action@, output.error_text()),
{
    if output.success() {
        Ok(())
    } else {
        Err(action.to_owned().concat(" failed: ").concat(output.trimmed_stderr().as_str()))
    }
}

/// The message for a failed command that may have written nothing.
pub open spec fn failure_or_status(action: Seq<char>, output: CommandOutput) -> Seq<char> {
    if output.error_text().len() == 0 {
        action + " failed with status "@ + output.status@
    } else {
        failure_message(action, output.error_text())
    }
}

/// Refuses the output of a command that failed, with what it wrote to standard error, or else
/// with its status.
pub fn ensure_success_or_status(output: &CommandOutput, action: &str) -> (r: Result<(), String>)
    ensures
        r is Ok <==> output.succeeded(),
        r matches Err(e) ==> e@ == failure_or_status(action@, *output),
{
    if output.success() {
        return Ok(());
    }
    let detail = output.trimmed_stderr();
    if detail.as_str().is_empty() {
        Err(action.to_owned().concat(" failed with status ").concat(output.status.as_str()))
    } else {
        Err(action.to_owned().concat(" failed: ").concat(detail.as_str()))
    }
}

/// The exit code of a command, or `killed` for one that a signal ended.
pub fn exit_code(code: Option<i32>, killed: i32) -> (r: i32)
    ensures
        r == match code {
            Some(c) => c,
            None => killed,
        },
{
    match code {
        Some(c) => c,
        None => killed,
    }
}

} // verus!
