//! Scripts: steps in a fixed order, and what is tidied up when one of them fails.
use vstd::prelude::*;

use crate::text::opt_text;

verus! {

/// The lengths of the parts of a script. The steps of the opening come first; where one fails,
/// the script ends at once. The steps of the body follow; where one fails, the rest of the body is
/// left out and the steps of the ending are run, whatever comes of them. `always_tidy` says
/// whether the ending is run after a body that went well, too.
#[derive(Debug, Clone, Copy, PartialEq, Eq, Structural)]
pub struct ScriptShape {
    pub opening: usize,
    pub body: usize,
    pub ending: usize,
    pub always_tidy: bool,
}

/// A step of a script.
#[derive(Debug, Clone, Copy, PartialEq, Eq, Structural)]
pub enum ScriptStep {
    Opening { index: usize },
    Body { index: usize },
    Ending { index: usize },
    Finished,
}

/// A script that is under way, waiting for the result of a step.
pub struct ScriptRun {
    pub shape: ScriptShape,
    pub step: ScriptStep,
    /// What failed.
    pub failure: Option<String>,
}

pub struct ScriptView {
    pub shape: ScriptShape,
    pub step: ScriptStep,
    pub failure: Option<Seq<char>>,
}

impl View for ScriptRun {
    type V = ScriptView;

    open spec fn view(&self) -> ScriptView {
        ScriptView { shape: self.shape, step: self.step, failure: opt_text(self.failure) }
    }
}

/// The first step from a position of the ending on.
pub open spec fn ending_from(shape: ScriptShape, index: int) -> ScriptStep {
    if index < shape.ending {
        ScriptStep::Ending { index: index as usize }
    } else {
        ScriptStep::Finished
    }
}

/// The first step from a position of the body on.
pub open spec fn body_from(shape: ScriptShape, index: int) -> ScriptStep {
    if index < shape.body {
        ScriptStep::Body { index: index as usize }
    } else if shape.always_tidy {
        ending_from(shape, 0)
    } else {
        ScriptStep::Finished
    }
}

/// The first step from a position of the opening on.
pub open spec fn opening_from(shape: ScriptShape, index: int) -> ScriptStep {
    if index < shape.opening {
        ScriptStep::Opening { index: index as usize }
    } else {
        body_from(shape, 0)
    }
}

/// A script after the step that it waits for.
pub open spec fn script_after(run: ScriptView, failure: Option<Seq<char>>) -> ScriptView {
    match run.step {
        ScriptStep::Opening { index } => match failure {
            Some(e) => ScriptView {
                step: ScriptStep::Finished,
                failure: Some(e),
                ..run
            },
            None => ScriptView { step: opening_from(run.shape, index + 1), ..run },
        },
        ScriptStep::Body { index } => match failure {
            Some(e) => ScriptView {
                step: ending_from(run.shape, 0),
                failure: Some(e),
                ..run
            },
            None => ScriptView { step: body_from(run.shape, index + 1), ..run },
        },
        ScriptStep::Ending { index } => ScriptView {
            step: ending_from(run.shape, index + 1),
            ..run
        },
        ScriptStep::Finished => run,
    }
}

/// Whether the step that a script waits for is one of its own.
pub open spec fn script_fits(run: ScriptView) -> bool {
    match run.step {
        ScriptStep::Opening { index } => index < run.shape.opening && run.failure is None,
        ScriptStep::Body { index } => index < run.shape.body && run.failure is None,
        ScriptStep::Ending { index } => index < run.shape.ending && (run.failure is Some
            || run.shape.always_tidy),
        ScriptStep::Finished => true,
    }
}

fn ending_step(shape: ScriptShape, index: usize) -> (r: ScriptStep)
    ensures
        r == ending_from(shape, index as int),
{
    if index < shape.ending {
        ScriptStep::Ending { index }
    } else {
        ScriptStep::Finished
    }
}

fn body_step(shape: ScriptShape, index: usize) -> (r: ScriptStep)
    ensures
        r == body_from(shape, index as int),
{
    if index < shape.body {
        ScriptStep::Body { index }
    } else if shape.always_tidy {
        ending_step(shape, 0)
    } else {
        ScriptStep::Finished
    }
}

fn opening_step(shape: ScriptShape, index: usize) -> (r: ScriptStep)
    ensures
        r == opening_from(shape, index as int),
{
    if index < shape.opening {
        ScriptStep::Opening { index }
    } else {
        body_step(shape, 0)
    }
}

impl ScriptRun {
    /// A script at its first step.
    pub fn start(shape: ScriptShape) -> (r: ScriptRun)
        ensures
            r@ == (ScriptView { shape, step: opening_from(shape, 0), failure: None }),
            script_fits(r@),
    {
        ScriptRun { shape, step: opening_step(shape, 0), failure: None }
    }

    /// Takes the result of the step that a script waits for.
    pub fn advance(&mut self, result: Result<(), String>)
        requires
            script_fits(old(self)@),
        ensures
            final(self)@ == script_after(
                old(self)@,
                match result {
                    Ok(_) => None,
                    Err(e) => Some(e@),
                },
            ),
            script_fits(final(self)@),
    {
        match self.step {
            ScriptStep::Opening { index } => match result {
                Err(e) => {
                    self.step = ScriptStep::Finished;
                    self.failure = Some(e);
                },
                Ok(_) => {
                    self.step = opening_step(self.shape, index + 1);
                },
            },
            ScriptStep::Body { index } => match result {
                Err(e) => {
                    self.step = ending_step(self.shape, 0);
                    self.failure = Some(e);
                },
                Ok(_) => {
                    self.step = body_step(self.shape, index + 1);
                },
            },
            ScriptStep::Ending { index } => {
                self.step = ending_step(self.shape, index + 1);
            },
            ScriptStep::Finished => {},
        }
    }
}

/// A body step that fails is always followed by the whole ending: the next step is its first, and
/// after each step of the ending comes the next one, whatever came of it, until the last.
pub proof fn law_failures_are_tidied_up(run: ScriptView, failure: Option<Seq<char>>)
    requires
        script_fits(run),
    ensures
        run.step is Body && failure is Some && run.shape.ending > 0 ==> script_after(
            run,
            failure,
        ).step == (ScriptStep::Ending { index: 0 }),
        run.step matches ScriptStep::Ending { index } ==> (if index + 1 < run.shape.ending {
            script_after(run, failure).step == (ScriptStep::Ending { index: (index + 1) as usize })
        } else {
            script_after(run, failure).step == ScriptStep::Finished
        }),
{
}

/// The first failure is the one that is reported: what comes of the ending does not change it.
pub proof fn law_first_failure_is_kept(run: ScriptView, failure: Option<Seq<char>>)
    requires
        script_fits(run),
        run.failure is Some,
    ensures
        script_after(run, failure).failure == run.failure,
{
}

} // verus!
