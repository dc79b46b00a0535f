//! Built-in processors and the sample-by-sample model of their behaviour.

use vstd::prelude::*;

use crate::processor::{ProcessorError, ProcessorInputs, ProcessorOutputs};
use crate::signal::{Signal, SignalValue};

pub mod control;
pub mod list;
pub mod math;
pub mod midi;
pub mod storage;
pub mod time;
pub mod util;

verus! {

/// The first error of two checks.
pub open spec fn first_error2(a: Option<ProcessorError>, b: Option<ProcessorError>) -> Result<(), ProcessorError> {
    match (a, b) {
        (Some(e), _) => Err(e),
        (None, Some(e)) => Err(e),
        (None, None) => Ok(()),
    }
}

/// The first error of three checks.
pub open spec fn first_error3(a: Option<ProcessorError>, b: Option<ProcessorError>, c: Option<ProcessorError>) -> Result<(), ProcessorError> {
    match a {
        Some(e) => Err(e),
        None => first_error2(b, c),
    }
}

/// The first error of four checks.
pub open spec fn first_error4(a: Option<ProcessorError>, b: Option<ProcessorError>, c: Option<ProcessorError>, d: Option<ProcessorError>) -> Result<(), ProcessorError> {
    match a {
        Some(e) => Err(e),
        None => first_error3(b, c, d),
    }
}

/// The error a typed read of input `index` gives, if any.
pub open spec fn in_err<S: Signal>(inputs: ProcessorInputs, index: usize) -> Option<ProcessorError> {
    if inputs.input_ok::<S>(index) { None } else { Some(inputs.input_error::<S>(index)) }
}

/// The error a typed write of output `index` gives, if any.
pub open spec fn out_err<S: Signal>(outputs: ProcessorOutputs, index: usize) -> Option<ProcessorError> {
    if outputs.output_ok::<S>(index) { None } else { Some(outputs.output_error::<S>(index)) }
}

/// The values of a typed column, as optional values (always present).
pub open spec fn some_col(col: Seq<SignalValue>) -> Seq<Option<SignalValue>> {
    col.map_values(|v: SignalValue| Some(v))
}

/// The number of samples a zip of the columns yields: the length of the shortest column.
pub open spec fn zip_len<X>(cols: Seq<Seq<X>>) -> nat
    decreases cols.len(),
{
    if cols.len() == 0 {
        0
    } else if cols.len() == 1 {
        cols[0].len()
    } else {
        let rest = zip_len(cols.drop_first());
        if cols[0].len() < rest { cols[0].len() } else { rest }
    }
}

/// The `k`-th sample of every column.
pub open spec fn row<X>(cols: Seq<Seq<X>>, k: int) -> Seq<X> {
    Seq::new(cols.len(), |j: int| cols[j][k])
}

/// Runs a per-sample step function over the first `n` rows of the columns, from state `st`:
/// the final state and the output of every step.
pub open spec fn run_steps<St, X>(
    step: spec_fn(St, Seq<X>) -> (St, SignalValue),
    st: St,
    cols: Seq<Seq<X>>,
    n: nat,
) -> (St, Seq<SignalValue>)
    decreases n,
{
    if n == 0 {
        (st, Seq::empty())
    } else {
        let prev = run_steps(step, st, cols, (n - 1) as nat);
        let next = step(prev.0, row(cols, n - 1));
        (next.0, prev.1.push(next.1))
    }
}

/// Running `n` steps gives `n` outputs.
pub proof fn lemma_run_steps_len<St, X>(
    step: spec_fn(St, Seq<X>) -> (St, SignalValue),
    st: St,
    cols: Seq<Seq<X>>,
    n: nat,
)
    ensures
        run_steps(step, st, cols, n).1.len() == n,
    decreases n,
{
    if n > 0 {
        lemma_run_steps_len(step, st, cols, (n - 1) as nat);
    }
}


/// The zip of two columns.
pub proof fn lemma_zip_len2<X>(a: Seq<X>, b: Seq<X>)
    ensures
        zip_len(seq![a, b]) == (if a.len() < b.len() { a.len() } else { b.len() }),
{
    assert(seq![a, b].drop_first() =~= seq![b]);
    assert(zip_len(seq![b]) == b.len());
}

/// The zip of one column.
pub proof fn lemma_zip_len1<X>(a: Seq<X>)
    ensures
        zip_len(seq![a]) == a.len(),
{
}

/// The rows of one column.
pub proof fn lemma_row1<X>(a: Seq<X>, k: int)
    ensures
        row(seq![a], k) == seq![a[k]],
{
    assert(row(seq![a], k) =~= seq![a[k]]);
}

/// The rows of two columns.
pub proof fn lemma_row2<X>(a: Seq<X>, b: Seq<X>, k: int)
    ensures
        row(seq![a, b], k) == seq![a[k], b[k]],
{
    assert(row(seq![a, b], k) =~= seq![a[k], b[k]]);
}


/// One more step of a run.
pub proof fn lemma_run_steps_next<St, X>(
    step: spec_fn(St, Seq<X>) -> (St, SignalValue),
    st: St,
    cols: Seq<Seq<X>>,
    k: nat,
)
    ensures
        run_steps(step, st, cols, k + 1) == ({
            let prev = run_steps(step, st, cols, k);
            let nx = step(prev.0, row(cols, k as int));
            (nx.0, prev.1.push(nx.1))
        }),
{
}

} // verus!
