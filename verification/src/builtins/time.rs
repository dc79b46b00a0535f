//! Time-related processors.

use vstd::prelude::*;

use std::collections::VecDeque;

use crate::builtins::{first_error2, first_error3, in_err, lemma_row1, lemma_row2, lemma_run_steps_next, out_err, run_steps};
use crate::processor::{signature, check_io_counts, io_count_error, io_counts, Processor, ProcessorError, ProcessorInputs, ProcessorOutputs, SignalSpec};
use crate::signal::{Float, Signal, SignalType, SignalValue};

verus! {

/// The smaller of two lengths.
pub open spec fn min2(a: nat, b: nat) -> nat {
    if a < b { a } else { b }
}

/// One sample of [`UnitDelay`]: the stored sample is output and the input is stored.
pub open spec fn unit_delay_step(value: Option<Float>, row: Seq<SignalValue>) -> (Option<Float>, SignalValue) {
    match row[0] {
        SignalValue::Float(x) => (x, SignalValue::Float(value)),
        _ => (value, SignalValue::Float(value)),
    }
}

/// [`unit_delay_step`] as a step function.
pub open spec fn unit_delay_step_fn() -> spec_fn(Option<Float>, Seq<SignalValue>) -> (Option<Float>, SignalValue) {
    |value: Option<Float>, row: Seq<SignalValue>| unit_delay_step(value, row)
}

/// A processor that delays its input by one sample.
#[derive(Clone, Debug)]
pub struct UnitDelay {
    value: Option<Float>,
}

impl Default for UnitDelay {
    fn default() -> (r: Self)
        ensures
            r.value_spec() is None,
    {
        UnitDelay { value: None }
    }
}

impl UnitDelay {
    /// The stored sample.
    pub closed spec fn value_spec(&self) -> Option<Float> {
        self.value
    }

    /// Creates a new `UnitDelay` processor.
    pub fn new() -> (r: Self)
        ensures
            r.value_spec() is None,
    {
        UnitDelay { value: None }
    }
}

impl Processor for UnitDelay {
    open spec fn name_spec(&self) -> Option<Seq<char>> {
        Some("UnitDelay"@)
    }

    open spec fn inputs_spec(&self) -> Option<Seq<(Seq<char>, SignalType)>> {
        Some(seq![("in"@, SignalType::Float)])
    }

    open spec fn outputs_spec(&self) -> Option<Seq<(Seq<char>, SignalType)>> {
        Some(seq![("out"@, SignalType::Float)])
    }

    open spec fn process_result(&self, inputs: ProcessorInputs, outputs: ProcessorOutputs) -> Option<Result<(), ProcessorError>> {
        Some(if io_counts(inputs, outputs, 1, 1) { first_error2(out_err::<Float>(outputs, 0), in_err::<Float>(inputs, 0)) } else { Err(io_count_error(inputs, 1)) })
    }

    fn name(&self) -> (r: &str)
        ensures
            r@ == "UnitDelay"@,
    {
        "UnitDelay"
    }

    fn input_spec(&self) -> (r: Vec<SignalSpec>)
        ensures
            r@.len() == 1,
            r@[0].name@ == "in"@,
            r@[0].signal_type == SignalType::Float,
    {
        let mut v = Vec::new();
        v.push(SignalSpec::new("in", SignalType::Float));
        let v_out = v;
        proof { assert(signature(v_out@) =~= seq![("in"@, SignalType::Float)]); }
        v_out
    }

    fn output_spec(&self) -> (r: Vec<SignalSpec>)
        ensures
            r@.len() == 1,
            r@[0].name@ == "out"@,
            r@[0].signal_type == SignalType::Float,
    {
        let mut v = Vec::new();
        v.push(SignalSpec::new("out", SignalType::Float));
        let v_out = v;
        proof { assert(signature(v_out@) =~= seq![("out"@, SignalType::Float)]); }
        v_out
    }

    fn process(&mut self, inputs: &ProcessorInputs, outputs: &mut ProcessorOutputs) -> (r: Result<(), ProcessorError>)
        ensures
            !io_counts(*inputs, *old(outputs), 1, 1) ==> r == Err::<(), ProcessorError>(io_count_error(*inputs, 1)) && old(outputs).same(final(outputs)) && *final(self) == *old(self),
            io_counts(*inputs, *old(outputs), 1, 1) ==> (r == first_error2(out_err::<Float>(*old(outputs), 0), in_err::<Float>(*inputs, 0))),
            io_counts(*inputs, *old(outputs), 1, 1) ==> (r is Err ==> old(outputs).same(final(outputs)) && final(self).value_spec() == old(self).value_spec()),
            io_counts(*inputs, *old(outputs), 1, 1) ==> (r is Ok ==> ({
                let cols = seq![inputs.input_read::<Float>(0)];
                let res = run_steps(unit_delay_step_fn(), old(self).value_spec(), cols, min2(old(outputs).buffers()[0].len(), cols[0].len()));
                &&& final(self).value_spec() == res.0
                &&& old(outputs).written(final(outputs), 0, res.1)
            })),
    {
        check_io_counts(inputs, outputs, 1, 1)?;
        let actual = outputs.buffer(0).signal_type();
        if actual != SignalType::Float {
            return Err(ProcessorError::OutputSpecMismatch { index: 0, expected: SignalType::Float, actual });
        }
        let out_len = outputs.buffer(0).len();
        let input = inputs.iter_input_as_floats(0)?;
        let ghost cols = seq![inputs.input_read::<Float>(0)];
        let n = if out_len < input.len() { out_len } else { input.len() };
        let init = self.value;
        let mut value = self.value;
        let mut out: Vec<Option<Float>> = Vec::new();
        let mut k: usize = 0;
        while k < n
            invariant
                k <= n,
                n <= input@.len(),
                cols.len() == 1,
                cols[0] == input@.map_values(|v: Option<Float>| Float::sample_value(v)),
                out@.len() == k,
                value == run_steps(unit_delay_step_fn(), init, cols, k as nat).0,
                run_steps(unit_delay_step_fn(), init, cols, k as nat).1.len() == k,
                forall|j: int| 0 <= j < k ==> Float::sample_value(#[trigger] out@[j]) == run_steps(unit_delay_step_fn(), init, cols, k as nat).1[j],
            decreases n - k,
        {
            proof {
                lemma_row1(cols[0], k as int);
                lemma_run_steps_next(unit_delay_step_fn(), init, cols, k as nat);
            }
            out.push(value);
            value = input[k];
            k += 1;
        }
        proof {
            assert(out@.map_values(|v: Option<Float>| Float::sample_value(v)) =~= run_steps(unit_delay_step_fn(), init, cols, n as nat).1);
        }
        outputs.iter_output_mut_as_floats(0, &out)?;
        self.value = value;
        Ok(())
    }
}

/// The message of the error for a negative delay.
pub const NEGATIVE_DELAY: &'static str = "delay must not be negative";

/// The delay a row of [`SampleDelay`] asks for: the delay input, `0` when missing.
pub open spec fn delay_of(v: SignalValue) -> i64 {
    match v {
        SignalValue::Int(Some(d)) => d,
        _ => 0,
    }
}

/// The delay line `b` brought to length `d`: cut at the end, or extended with `0.0`.
pub open spec fn resized(b: Seq<Float>, d: nat) -> Seq<Float> {
    if d <= b.len() {
        b.subrange(0, d as int)
    } else {
        b + Seq::new((d - b.len()) as nat, |i: int| Float::zero_spec())
    }
}

/// One sample of [`SampleDelay`]: the delay line is brought to the asked length, its oldest
/// sample (or `0.0` when it is empty) is output, and the input (or `0.0`) is appended.
pub open spec fn sample_delay_step(b: Seq<Float>, row: Seq<SignalValue>) -> (Seq<Float>, SignalValue) {
    let d = (delay_of(row[1]) as usize) as nat;
    let b1 = if b.len() != d { resized(b, d) } else { b };
    let out = if b1.len() > 0 { b1[0] } else { Float::zero_spec() };
    let b2 = if b1.len() > 0 { b1.subrange(1, b1.len() as int) } else { b1 };
    let x = match row[0] {
        SignalValue::Float(Some(x)) => x,
        _ => Float::zero_spec(),
    };
    (b2.push(x), SignalValue::Float(Some(out)))
}

/// [`sample_delay_step`] as a step function.
pub open spec fn sample_delay_step_fn() -> spec_fn(Seq<Float>, Seq<SignalValue>) -> (Seq<Float>, SignalValue) {
    |b: Seq<Float>, row: Seq<SignalValue>| sample_delay_step(b, row)
}

/// Whether row `k` asks for a negative delay.
pub open spec fn negative_delay(cols: Seq<Seq<SignalValue>>, k: int) -> bool {
    delay_of(cols[1][k]) < 0
}

/// The smaller of three lengths.
pub open spec fn min3(a: nat, b: nat, c: nat) -> nat {
    min2(a, min2(b, c))
}

/// A processor that delays its input by a number of samples given by its delay input.
#[derive(Clone, Debug)]
pub struct SampleDelay {
    buffer: VecDeque<Float>,
}

impl SampleDelay {
    /// The delay line, oldest sample first.
    pub closed spec fn buffer_spec(&self) -> Seq<Float> {
        self.buffer@
    }

    /// Creates a new `SampleDelay` processor with room for `max_delay` samples.
    pub fn new(max_delay: usize) -> (r: Self)
        requires
            max_delay < usize::MAX,
        ensures
            r.buffer_spec().len() == 0,
    {
        SampleDelay { buffer: VecDeque::with_capacity(max_delay + 1) }
    }
}

impl Processor for SampleDelay {
    open spec fn name_spec(&self) -> Option<Seq<char>> {
        Some("SampleDelay"@)
    }

    open spec fn inputs_spec(&self) -> Option<Seq<(Seq<char>, SignalType)>> {
        Some(seq![("in"@, SignalType::Float), ("delay"@, SignalType::Int)])
    }

    open spec fn outputs_spec(&self) -> Option<Seq<(Seq<char>, SignalType)>> {
        Some(seq![("out"@, SignalType::Float)])
    }

    fn name(&self) -> (r: &str)
        ensures
            r@ == "SampleDelay"@,
    {
        "SampleDelay"
    }

    fn input_spec(&self) -> (r: Vec<SignalSpec>)
        ensures
            r@.len() == 2,
            r@[0].name@ == "in"@,
            r@[0].signal_type == SignalType::Float,
            r@[1].name@ == "delay"@,
            r@[1].signal_type == SignalType::Int,
    {
        let mut v = Vec::new();
        v.push(SignalSpec::new("in", SignalType::Float));
        v.push(SignalSpec::new("delay", SignalType::Int));
        let v_out = v;
        proof { assert(signature(v_out@) =~= seq![("in"@, SignalType::Float), ("delay"@, SignalType::Int)]); }
        v_out
    }

    fn output_spec(&self) -> (r: Vec<SignalSpec>)
        ensures
            r@.len() == 1,
            r@[0].name@ == "out"@,
            r@[0].signal_type == SignalType::Float,
    {
        let mut v = Vec::new();
        v.push(SignalSpec::new("out", SignalType::Float));
        let v_out = v;
        proof { assert(signature(v_out@) =~= seq![("out"@, SignalType::Float)]); }
        v_out
    }

    #[verifier::loop_isolation(false)]
    fn process(&mut self, inputs: &ProcessorInputs, outputs: &mut ProcessorOutputs) -> (r: Result<(), ProcessorError>)
        ensures
            !io_counts(*inputs, *old(outputs), 2, 1) ==> r == Err::<(), ProcessorError>(io_count_error(*inputs, 2)) && old(outputs).same(final(outputs)) && *final(self) == *old(self),
            io_counts(*inputs, *old(outputs), 2, 1) ==> (first_error3(out_err::<Float>(*old(outputs), 0), in_err::<Float>(*inputs, 0), in_err::<i64>(*inputs, 1)) matches Err(e)
                ==> r == Err::<(), ProcessorError>(e) && old(outputs).same(final(outputs)) && final(self).buffer_spec() == old(self).buffer_spec()),
            io_counts(*inputs, *old(outputs), 2, 1) ==> (first_error3(out_err::<Float>(*old(outputs), 0), in_err::<Float>(*inputs, 0), in_err::<i64>(*inputs, 1)) is Ok ==> ({
                let cols = seq![inputs.input_read::<Float>(0), inputs.input_read::<i64>(1)];
                let n = min3(old(outputs).buffers()[0].len(), cols[0].len(), cols[1].len());
                &&& (forall|k: int| 0 <= k < n ==> !#[trigger] negative_delay(cols, k)) ==> {
                    let res = run_steps(sample_delay_step_fn(), old(self).buffer_spec(), cols, n);
                    &&& r is Ok
                    &&& final(self).buffer_spec() == res.0
                    &&& old(outputs).written(final(outputs), 0, res.1)
                }
                &&& forall|k: int| 0 <= k < n && #[trigger] negative_delay(cols, k)
                        && (forall|j: int| 0 <= j < k ==> !negative_delay(cols, j)) ==> {
                    let res = run_steps(sample_delay_step_fn(), old(self).buffer_spec(), cols, k as nat);
                    &&& r == Err::<(), ProcessorError>(ProcessorError::InvalidValue(NEGATIVE_DELAY))
                    &&& final(self).buffer_spec() == res.0
                    &&& old(outputs).written(final(outputs), 0, res.1)
                }
            })),
    {
        check_io_counts(inputs, outputs, 2, 1)?;
        let actual = outputs.buffer(0).signal_type();
        if actual != SignalType::Float {
            return Err(ProcessorError::OutputSpecMismatch { index: 0, expected: SignalType::Float, actual });
        }
        let out_len = outputs.buffer(0).len();
        let input = inputs.iter_input_as_floats(0)?;
        let delay = inputs.iter_input_as_ints(1)?;
        let ghost cols = seq![inputs.input_read::<Float>(0), inputs.input_read::<i64>(1)];
        let m = if input.len() < delay.len() { input.len() } else { delay.len() };
        let n = if out_len < m { out_len } else { m };
        let ghost init = self.buffer@;
        let mut out: Vec<Option<Float>> = Vec::new();
        let mut k: usize = 0;
        while k < n
            invariant
                k <= n,
                n <= input@.len(),
                n <= delay@.len(),
                cols.len() == 2,
                cols[0] == input@.map_values(|v: Option<Float>| Float::sample_value(v)),
                cols[1] == delay@.map_values(|v: Option<i64>| i64::sample_value(v)),
                n == min3(old(outputs).buffers()[0].len(), cols[0].len(), cols[1].len()),
                *outputs == *old(outputs),
                out@.len() == k,
                self.buffer@ == run_steps(sample_delay_step_fn(), init, cols, k as nat).0,
                run_steps(sample_delay_step_fn(), init, cols, k as nat).1.len() == k,
                forall|j: int| 0 <= j < k ==> Float::sample_value(#[trigger] out@[j]) == run_steps(sample_delay_step_fn(), init, cols, k as nat).1[j],
                forall|j: int| 0 <= j < k ==> !#[trigger] negative_delay(cols, j),
            decreases n - k,
        {
            proof {
                lemma_row2(cols[0], cols[1], k as int);
                lemma_run_steps_next(sample_delay_step_fn(), init, cols, k as nat);
            }
            let d = match delay[k] {
                Some(d) => d,
                None => 0,
            };
            if d < 0 {
                proof {
                    assert(negative_delay(cols, k as int));
                    assert(out@.map_values(|v: Option<Float>| Float::sample_value(v)) =~= run_steps(sample_delay_step_fn(), init, cols, k as nat).1);
                }
                outputs.iter_output_mut_as_floats(0, &out)?;
                return Err(ProcessorError::InvalidValue(NEGATIVE_DELAY));
            }
            let du = d as usize;
            if self.buffer.len() != du {
                let ghost before = self.buffer@;
                let zero = Float::zero();
                self.buffer.resize(du, zero);
                proof {
                    if du > before.len() {
                        assert forall|i: int| before.len() <= i < du implies #[trigger] self.buffer@[i] == Float::zero_spec() by {
                            assert(cloned::<Float>(zero, self.buffer@[i]));
                        }
                    }
                    assert(self.buffer@ =~= resized(before, du as nat));
                }
            }
            let o = match self.buffer.pop_front() {
                Some(x) => x,
                None => Float::zero(),
            };
            let x = match input[k] {
                Some(x) => x,
                None => Float::zero(),
            };
            self.buffer.push_back(x);
            out.push(Some(o));
            k += 1;
        }
        proof {
            assert(out@.map_values(|v: Option<Float>| Float::sample_value(v)) =~= run_steps(sample_delay_step_fn(), init, cols, n as nat).1);
        }
        outputs.iter_output_mut_as_floats(0, &out)?;
        Ok(())
    }
}

/// The input of row `k` as the delay line stores it: the value, or `0.0` when missing.
pub open spec fn stored_input(cols: Seq<Seq<SignalValue>>, k: int) -> Float {
    match cols[0][k] {
        SignalValue::Float(Some(x)) => x,
        _ => Float::zero_spec(),
    }
}

/// The input `d` samples before row `k` as the delay line stores it, `0.0` before the start.
pub open spec fn delayed_input(cols: Seq<Seq<SignalValue>>, k: int, d: int) -> Float {
    if k - d >= 0 { stored_input(cols, k - d) } else { Float::zero_spec() }
}

/// A delay line of `d` samples `0.0`.
pub open spec fn zero_line(d: nat) -> Seq<Float> {
    Seq::new(d, |i: int| Float::zero_spec())
}

/// [`UnitDelay`] delays its input by one sample: the first output is the stored sample and
/// every later output is the input of the sample before.
pub proof fn lemma_unit_delay_delays(init: Option<Float>, cols: Seq<Seq<SignalValue>>, n: nat)
    requires
        cols.len() == 1,
        n <= cols[0].len(),
        forall|k: int| 0 <= k < cols[0].len() ==> #[trigger] cols[0][k] is Float,
    ensures
        run_steps(unit_delay_step_fn(), init, cols, n).1.len() == n,
        n > 0 ==> run_steps(unit_delay_step_fn(), init, cols, n).1[0] == SignalValue::Float(init),
        forall|k: int| 1 <= k < n ==> #[trigger] run_steps(unit_delay_step_fn(), init, cols, n).1[k] == cols[0][k - 1],
        n > 0 ==> SignalValue::Float(run_steps(unit_delay_step_fn(), init, cols, n).0) == cols[0][n - 1],
    decreases n,
{
    if n > 0 {
        let m = (n - 1) as nat;
        lemma_unit_delay_delays(init, cols, m);
        lemma_row1(cols[0], m as int);
        lemma_run_steps_next(unit_delay_step_fn(), init, cols, m);
        assert(cols[0][m as int] is Float);
        let prev = run_steps(unit_delay_step_fn(), init, cols, m);
        assert forall|k: int| 1 <= k < n implies #[trigger] run_steps(unit_delay_step_fn(), init, cols, n).1[k] == cols[0][k - 1] by {
            if k < m {
                assert(run_steps(unit_delay_step_fn(), init, cols, n).1[k] == prev.1[k]);
            }
        }
    }
}

/// [`SampleDelay`] with the same positive delay `d` at every sample, started from a delay
/// line of `d` samples `0.0`, delays its input by `d` samples, outputting `0.0` for the
/// first `d` samples.
pub proof fn lemma_sample_delay_delays(cols: Seq<Seq<SignalValue>>, d: i64, n: nat)
    requires
        cols.len() == 2,
        n <= cols[0].len(),
        n <= cols[1].len(),
        0 < d,
        (d as usize) as int == d,
        forall|k: int| 0 <= k < n ==> #[trigger] delay_of(cols[1][k]) == d,
    ensures
        run_steps(sample_delay_step_fn(), zero_line(d as nat), cols, n).0
            == Seq::new(d as nat, |i: int| delayed_input(cols, n + i, d as int)),
        forall|k: int| 0 <= k < n ==> #[trigger] run_steps(sample_delay_step_fn(), zero_line(d as nat), cols, n).1[k]
            == SignalValue::Float(Some(delayed_input(cols, k, d as int))),
        run_steps(sample_delay_step_fn(), zero_line(d as nat), cols, n).1.len() == n,
    decreases n,
{
    let init = zero_line(d as nat);
    if n == 0 {
        assert(init =~= Seq::new(d as nat, |i: int| delayed_input(cols, i, d as int)));
    } else {
        let m = (n - 1) as nat;
        lemma_sample_delay_delays(cols, d, m);
        lemma_row2(cols[0], cols[1], m as int);
        lemma_run_steps_next(sample_delay_step_fn(), init, cols, m);
        let prev = run_steps(sample_delay_step_fn(), init, cols, m);
        let b = prev.0;
        assert(b.len() == d);
        assert(delay_of(cols[1][m as int]) == d);
        let next = run_steps(sample_delay_step_fn(), init, cols, n);
        {
            assert(b[0] == delayed_input(cols, m as int, d as int));
            assert(next.0 =~= Seq::new(d as nat, |i: int| delayed_input(cols, n + i, d as int))) by {
                assert forall|i: int| 0 <= i < d implies #[trigger] next.0[i] == delayed_input(cols, n + i, d as int) by {
                    if i < d - 1 {
                        assert(next.0[i] == b[i + 1]);
                    } else {
                        assert(next.0[i] == stored_input(cols, m as int));
                    }
                }
            }
        }
        assert forall|k: int| 0 <= k < n implies #[trigger] next.1[k]
            == SignalValue::Float(Some(delayed_input(cols, k, d as int))) by {
            if k < m {
                assert(next.1[k] == prev.1[k]);
            }
        }
    }
}

/// A fresh [`SampleDelay`] (empty delay line) behaves as one whose line holds `d` samples
/// `0.0`, when the first sample asks for the delay `d`.
pub proof fn lemma_sample_delay_fresh(cols: Seq<Seq<SignalValue>>, d: i64, n: nat)
    requires
        cols.len() == 2,
        n <= cols[0].len(),
        n <= cols[1].len(),
        0 < d,
        (d as usize) as int == d,
        n > 0,
        delay_of(cols[1][0]) == d,
    ensures
        run_steps(sample_delay_step_fn(), Seq::<Float>::empty(), cols, n) == run_steps(sample_delay_step_fn(), zero_line(d as nat), cols, n),
    decreases n,
{
    if n == 1 {
        lemma_run_steps_next(sample_delay_step_fn(), Seq::<Float>::empty(), cols, 0);
        lemma_run_steps_next(sample_delay_step_fn(), zero_line(d as nat), cols, 0);
        lemma_row2(cols[0], cols[1], 0);
        assert(resized(Seq::<Float>::empty(), d as nat) =~= zero_line(d as nat));
        let row = seq![cols[0][0], cols[1][0]];
        assert(sample_delay_step(Seq::<Float>::empty(), row) == sample_delay_step(zero_line(d as nat), row));
    } else {
        lemma_sample_delay_fresh(cols, d, (n - 1) as nat);
        lemma_run_steps_next(sample_delay_step_fn(), Seq::<Float>::empty(), cols, (n - 1) as nat);
        lemma_run_steps_next(sample_delay_step_fn(), zero_line(d as nat), cols, (n - 1) as nat);
    }
}

/// A change of the delay keeps the samples already in the delay line. With the line `b`
/// (oldest sample first) and a row asking for the delay `d`, the line is read as `b` followed
/// by as many `0.0` as needed: for `d > 0` the output is its first sample (the oldest stored
/// sample, so the input `b.len()` samples earlier), the new line holds its next `d - 1`
/// samples followed by the input; for `d == 0` the output is `0.0` and the new line holds the
/// input alone.
pub proof fn lemma_sample_delay_keeps_line(b: Seq<Float>, row: Seq<SignalValue>)
    requires
        row.len() >= 2,
        0 <= delay_of(row[1]),
        (delay_of(row[1]) as usize) as int == delay_of(row[1]),
    ensures
        ({
            let d = delay_of(row[1]) as int;
            let stored = |j: int| if j < b.len() { b[j] } else { Float::zero_spec() };
            let x = match row[0] {
                SignalValue::Float(Some(x)) => x,
                _ => Float::zero_spec(),
            };
            let r = sample_delay_step(b, row);
            &&& d > 0 ==> r.1 == SignalValue::Float(Some(stored(0)))
            &&& d > 0 ==> r.0.len() == d
            &&& d > 0 ==> forall|i: int| 0 <= i < d - 1 ==> #[trigger] r.0[i] == stored(i + 1)
            &&& d > 0 ==> r.0[d - 1] == x
            &&& d == 0 ==> r.1 == SignalValue::Float(Some(Float::zero_spec())) && r.0 == seq![x]
        }),
{
    let d = delay_of(row[1]) as int;
    let r = sample_delay_step(b, row);
    if d == 0 {
        assert(r.0 =~= seq![r.0[0]]);
    }
}

/// When the delay grows from `d` to `d2` after `n` samples at the delay `d` (started from a
/// line of `d` samples `0.0`), the sample output right after the change is still the input
/// `d` samples earlier: growing the line keeps what it stored.
pub proof fn lemma_sample_delay_grows(cols: Seq<Seq<SignalValue>>, d: i64, d2: i64, n: nat)
    requires
        cols.len() == 2,
        n < cols[0].len(),
        n < cols[1].len(),
        0 < d <= d2,
        (d2 as usize) as int == d2,
        forall|k: int| 0 <= k < n ==> #[trigger] delay_of(cols[1][k]) == d,
        delay_of(cols[1][n as int]) == d2,
    ensures
        run_steps(sample_delay_step_fn(), zero_line(d as nat), cols, n + 1).1[n as int]
            == SignalValue::Float(Some(delayed_input(cols, n as int, d as int))),
{
    assert((d as usize) as int == d) by (bit_vector)
        requires 0 < d <= d2, (d2 as usize) as int == d2;
    lemma_sample_delay_delays(cols, d, n);
    lemma_run_steps_next(sample_delay_step_fn(), zero_line(d as nat), cols, n);
    lemma_row2(cols[0], cols[1], n as int);
    let prev = run_steps(sample_delay_step_fn(), zero_line(d as nat), cols, n);
    lemma_sample_delay_keeps_line(prev.0, seq![cols[0][n as int], cols[1][n as int]]);
    assert(cols == seq![cols[0], cols[1]]);
}

} // verus!
