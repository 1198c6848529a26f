//! When an inference loop is done.
//!
//! A prompt is fed to the model in chunks; each round of inference consumes
//! one chunk, and the output of the last token only appears after the last
//! chunk. The caller runs a round, reports what came back, and is told
//! whether to run another.
use vstd::prelude::*;

verus! {

/// What to do after a round of inference.
#[derive(Debug, Clone, Copy, PartialEq, Eq, Structural)]
pub enum InferStep {
    /// Tokens remain: run another round.
    RunAgain,
    /// The output is there: stop and take it.
    Finish,
}

/// The step after a round whose output for the single batch has
/// `output_len` elements: a round that yields no output has more tokens to
/// consume.
pub fn step_after_round(output_len: usize) -> (step: InferStep)
    ensures
        step == (if output_len == 0 {
            InferStep::RunAgain
        } else {
            InferStep::Finish
        }),
{
    if output_len == 0 {
        InferStep::RunAgain
    } else {
        InferStep::Finish
    }
}

/// The step after a round over several batches, `present[i]` telling
/// whether batch `i` produced an output: another round is needed exactly
/// while no batch has produced one.
pub fn step_after_batches(present: &[bool]) -> (step: InferStep)
    ensures
        step == (if forall|i: int| 0 <= i < present.len() ==> !#[trigger] present[i] {
            InferStep::RunAgain
        } else {
            InferStep::Finish
        }),
{
    let mut i: usize = 0;
    while i < present.len()
        invariant
            i <= present.len(),
            forall|j: int| 0 <= j < i ==> !#[trigger] present[j],
        decreases present.len() - i,
    {
        if present[i] {
            return InferStep::Finish;
        }
        i = i + 1;
    }
    InferStep::RunAgain
}

} // verus!
