//! Control-flow processors.

use vstd::prelude::*;

use std::marker::PhantomData;

use crate::builtins::{first_error4, in_err, lemma_run_steps_next, out_err, row, run_steps, zip_len};
use crate::processor::{signature, check_io_counts, io_count_error, io_counts, Processor, ProcessorError, ProcessorInputs, ProcessorOutputs, SignalSpec};
use crate::signal::{Signal, SignalType, SignalValue};

verus! {

/// One sample of [`Cond`]: a present condition selects the `then` or the `else` input; a
/// missing condition gives nothing of type `t`.
pub open spec fn cond_step(t: SignalType, row: Seq<SignalValue>) -> ((), SignalValue) {
    match row[0] {
        SignalValue::Bool(Some(c)) => ((), if c { row[1] } else { row[2] }),
        _ => ((), SignalValue::none_of_type(t)),
    }
}

/// [`Cond`] passes its `then` input where the condition is `true` and its `else` input where
/// it is `false`; where the condition is missing it outputs the absent value of its type.
pub proof fn lemma_cond_selects(t: SignalType, row: Seq<SignalValue>)
    requires
        row.len() >= 3,
    ensures
        row[0] == SignalValue::Bool(Some(true)) ==> cond_step(t, row).1 == row[1],
        row[0] == SignalValue::Bool(Some(false)) ==> cond_step(t, row).1 == row[2],
        !(row[0] matches SignalValue::Bool(Some(_))) ==> cond_step(t, row).1 == SignalValue::none_of_type(t),
{
}

/// [`cond_step`] as a step function.
pub open spec fn cond_step_fn(t: SignalType) -> spec_fn((), Seq<SignalValue>) -> ((), SignalValue) {
    |st: (), row: Seq<SignalValue>| cond_step(t, row)
}

/// The number of samples of four columns zipped together.
pub open spec fn min4(a: nat, b: nat, c: nat, d: nat) -> nat {
    let ab = if a < b { a } else { b };
    let cd = if c < d { c } else { d };
    if ab < cd { ab } else { cd }
}

/// A processor that outputs its `then` input when the condition is `true` and its `else`
/// input when it is `false`.
#[derive(Debug)]
pub struct Cond<S: Signal> {
    marker: PhantomData<S>,
}

impl<S: Signal> Cond<S> {
    /// Creates a new `Cond` processor.
    pub fn new() -> (r: Self) {
        Cond { marker: PhantomData }
    }
}

impl<S: Signal> Processor for Cond<S> {
    open spec fn name_spec(&self) -> Option<Seq<char>> {
        Some("Cond"@)
    }

    open spec fn inputs_spec(&self) -> Option<Seq<(Seq<char>, SignalType)>> {
        Some(seq![("cond"@, SignalType::Bool), ("then"@, S::type_spec()), ("else"@, S::type_spec())])
    }

    open spec fn outputs_spec(&self) -> Option<Seq<(Seq<char>, SignalType)>> {
        Some(seq![("out"@, S::type_spec())])
    }

    open spec fn process_result(&self, inputs: ProcessorInputs, outputs: ProcessorOutputs) -> Option<Result<(), ProcessorError>> {
        Some(if io_counts(inputs, outputs, 3, 1) { first_error4(out_err::<S>(outputs, 0), in_err::<bool>(inputs, 0), in_err::<S>(inputs, 1), in_err::<S>(inputs, 2)) } else { Err(io_count_error(inputs, 3)) })
    }

    fn name(&self) -> (r: &str)
        ensures
            r@ == "Cond"@,
    {
        "Cond"
    }

    fn input_spec(&self) -> (r: Vec<SignalSpec>)
        ensures
            r@.len() == 3,
            r@[0].name@ == "cond"@,
            r@[0].signal_type == SignalType::Bool,
            r@[1].name@ == "then"@,
            r@[1].signal_type == S::type_spec(),
            r@[2].name@ == "else"@,
            r@[2].signal_type == S::type_spec(),
    {
        let mut v = Vec::new();
        v.push(SignalSpec::new("cond", SignalType::Bool));
        v.push(SignalSpec::new("then", S::signal_type()));
        v.push(SignalSpec::new("else", S::signal_type()));
        let v_out = v;
        proof { assert(signature(v_out@) =~= seq![("cond"@, SignalType::Bool), ("then"@, S::type_spec()), ("else"@, S::type_spec())]); }
        v_out
    }

    fn output_spec(&self) -> (r: Vec<SignalSpec>)
        ensures
            r@.len() == 1,
            r@[0].name@ == "out"@,
            r@[0].signal_type == S::type_spec(),
    {
        let mut v = Vec::new();
        v.push(SignalSpec::new("out", S::signal_type()));
        let v_out = v;
        proof { assert(signature(v_out@) =~= seq![("out"@, S::type_spec())]); }
        v_out
    }

    fn process(&mut self, inputs: &ProcessorInputs, outputs: &mut ProcessorOutputs) -> (r: Result<(), ProcessorError>)
        ensures
            !io_counts(*inputs, *old(outputs), 3, 1) ==> r == Err::<(), ProcessorError>(io_count_error(*inputs, 3)) && old(outputs).same(final(outputs)) && *final(self) == *old(self),
            io_counts(*inputs, *old(outputs), 3, 1) ==> (r == first_error4(out_err::<S>(*old(outputs), 0), in_err::<bool>(*inputs, 0), in_err::<S>(*inputs, 1), in_err::<S>(*inputs, 2))),
            io_counts(*inputs, *old(outputs), 3, 1) ==> (r is Err ==> old(outputs).same(final(outputs))),
            io_counts(*inputs, *old(outputs), 3, 1) ==> (r is Ok ==> ({
                let cols = seq![inputs.input_read::<bool>(0), inputs.input_read::<S>(1), inputs.input_read::<S>(2)];
                let n = min4(old(outputs).buffers()[0].len(), cols[0].len(), cols[1].len(), cols[2].len());
                old(outputs).written(final(outputs), 0, run_steps(cond_step_fn(S::type_spec()), (), cols, n).1)
            })),
    {
        check_io_counts(inputs, outputs, 3, 1)?;
        let expected = S::signal_type();
        let actual = outputs.buffer(0).signal_type();
        if actual != expected {
            return Err(ProcessorError::OutputSpecMismatch { index: 0, expected, actual });
        }
        let out_len = outputs.buffer(0).len();
        let cond = inputs.iter_input_as_bools(0)?;
        let then_in = inputs.iter_input_as::<S>(1)?;
        let else_in = inputs.iter_input_as::<S>(2)?;
        let ghost cols = seq![inputs.input_read::<bool>(0), inputs.input_read::<S>(1), inputs.input_read::<S>(2)];
        let ghost t = S::type_spec();
        let ab = if out_len < cond.len() { out_len } else { cond.len() };
        let cd = if then_in.len() < else_in.len() { then_in.len() } else { else_in.len() };
        let n = if ab < cd { ab } else { cd };
        let mut out: Vec<Option<S>> = Vec::new();
        let mut k: usize = 0;
        while k < n
            invariant
                k <= n,
                n <= cond@.len(),
                n <= then_in@.len(),
                n <= else_in@.len(),
                cols.len() == 3,
                cols[0] == cond@.map_values(|v: Option<bool>| bool::sample_value(v)),
                cols[1] == then_in@.map_values(|v: Option<S>| S::sample_value(v)),
                cols[2] == else_in@.map_values(|v: Option<S>| S::sample_value(v)),
                t == S::type_spec(),
                out@.len() == k,
                run_steps(cond_step_fn(t), (), cols, k as nat).1.len() == k,
                forall|j: int| 0 <= j < k ==> S::sample_value(#[trigger] out@[j]) == run_steps(cond_step_fn(t), (), cols, k as nat).1[j],
            decreases n - k,
        {
            proof {
                assert(row(cols, k as int) =~= seq![cols[0][k as int], cols[1][k as int], cols[2][k as int]]);
                lemma_run_steps_next(cond_step_fn(t), (), cols, k as nat);
            }
            match cond[k] {
                Some(c) => {
                    if c {
                        out.push(S::copy_sample(&then_in[k]));
                    } else {
                        out.push(S::copy_sample(&else_in[k]));
                    }
                },
                None => {
                    proof { S::lemma_sample_none(); }
                    out.push(None);
                },
            }
            k += 1;
        }
        proof {
            assert(out@.map_values(|v: Option<S>| S::sample_value(v)) =~= run_steps(cond_step_fn(t), (), cols, n as nat).1);
        }
        outputs.iter_output_as::<S>(0, &out)?;
        Ok(())
    }
}

} // verus!
