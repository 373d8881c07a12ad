//! Processing stages that can be chained: each takes an input, may update
//! its own state, and hands an output to the next stage.

use vstd::prelude::*;
use vstd::std_specs::ops::AddSpec;
use core::ops::Add;

verus! {

/// A stage of a pipeline.
///
/// Each implementation says, through its spec functions, which inputs it
/// accepts and how a step relates the state before, the input, the state
/// after and the output.
pub trait PipelineElement<Input, Output>: Sized {
    /// Whether `execute` can be called on `input` in this state.
    spec fn accepts(&self, input: Input) -> bool;

    /// Whether a step on `input` from this state can leave the stage in
    /// state `next` and produce `output`.
    spec fn steps_to(&self, input: Input, next: Self, output: Output) -> bool;

    /// Runs the stage on `input`.
    fn execute(&mut self, input: Input) -> (output: Output)
        requires
            old(self).accepts(input),
        ensures
            old(self).steps_to(input, *final(self), output),
    ;
}

/// A stateless stage that applies a function.
///
/// Verus unfolds the stage's `accepts` and `steps_to` only where the
/// function type is generic; with a concrete function or closure, call
/// `lemma_closure_stage` first to learn them (for instance before
/// `execute`, whose precondition is `accepts`).
pub struct ClosurePipeline<F> {
    closure: F,
}

impl<F> ClosurePipeline<F> {
    /// The function this stage applies.
    pub closed spec fn function(&self) -> F {
        self.closure
    }

    /// A stage that applies `closure`.
    pub fn new(closure: F) -> (stage: Self)
        ensures
            stage.function() == closure,
    {
        Self { closure }
    }
}

impl<Input, Output, F: Fn(Input) -> Output> PipelineElement<Input, Output> for ClosurePipeline<F> {
    open spec fn accepts(&self, input: Input) -> bool {
        call_requires(self.function(), (input,))
    }

    open spec fn steps_to(&self, input: Input, next: Self, output: Output) -> bool {
        &&& next == *self
        &&& call_ensures(self.function(), (input,), output)
    }

    fn execute(&mut self, input: Input) -> (output: Output) {
        (self.closure)(input)
    }
}

/// What a function stage accepts and how it steps, for any function type:
/// it accepts what the function accepts, stays as it is, and outputs what
/// the function returns.
pub proof fn lemma_closure_stage<Input, Output, F: Fn(Input) -> Output>(stage: ClosurePipeline<F>)
    ensures
        forall|input: Input|
            #[trigger] <ClosurePipeline<F> as PipelineElement<Input, Output>>::accepts(
                &stage,
                input,
            ) <==> call_requires(stage.function(), (input,)),
        forall|input: Input, next: ClosurePipeline<F>, output: Output|
            #[trigger] <ClosurePipeline<F> as PipelineElement<Input, Output>>::steps_to(
                &stage,
                input,
                next,
                output,
            ) <==> (next == stage && call_ensures(stage.function(), (input,), output)),
{
}

/// Runs `input` through the stage `x` and its output through the stage `y`.
pub fn execute_a_pipeline_i_guess<Input, Intermediate, Output, X, Y>(
    input: Input,
    mut x: X,
    mut y: Y,
) -> (output: Output) where
    X: PipelineElement<Input, Intermediate>,
    Y: PipelineElement<Intermediate, Output>,

    requires
        x.accepts(input),
        forall|mid: Intermediate, x2: X| #[trigger] x.steps_to(input, x2, mid) ==> y.accepts(mid),
    ensures
        exists|mid: Intermediate, x2: X, y2: Y|
            #[trigger] x.steps_to(input, x2, mid) && #[trigger] y.steps_to(mid, y2, output),
{
    y.execute(x.execute(input))
}

/// `x + 1`.
pub fn add_one(x: isize) -> (y: isize)
    requires
        x < isize::MAX,
    ensures
        y == x + 1,
{
    x + 1
}

/// A stage that passes its input through unchanged and adds it to a running sum.
#[verifier::reject_recursive_types(T)]
pub struct Sum<T: Add<Output = T> + Copy> {
    pub sum: T,
}

impl<T: Add<Output = T> + Copy> PipelineElement<T, T> for Sum<T> {
    open spec fn accepts(&self, input: T) -> bool {
        self.sum.add_req(input)
    }

    open spec fn steps_to(&self, input: T, next: Self, output: T) -> bool {
        &&& output == input
        &&& T::obeys_add_spec() ==> next.sum == self.sum.add_spec(input)
    }

    fn execute(&mut self, input: T) -> (output: T) {
        self.sum = self.sum + input;

        input
    }
}

} // verus!
