//! Utility processors.

use std::marker::PhantomData;

use vstd::prelude::*;

use crate::builtins::list::{decimal, decimal_string};
use crate::builtins::time::min2;
use crate::builtins::{
    first_error2, first_error3, in_err, lemma_row1, lemma_row2, lemma_run_steps_len,
    lemma_run_steps_next, lemma_zip_len1, lemma_zip_len2, out_err, row, run_steps, some_col,
    zip_len,
};
use crate::processor::{signature, check_io_counts, io_count_error, io_counts, 
    Processor, ProcessorError, ProcessorInputs, ProcessorOutputs, SignalSpec, addressed_len,
    ProcessMode,
};
use crate::signal::{
    AnySignal, Float, Signal, SignalType, SignalValue, float_eq_spec, float_is_infinite,
    float_is_nan, float_lt_spec, float_magnitude, float_order_key, opt_any_view, signal_value_eq,
    FLOAT_INF_BITS, FLOAT_SIGN_BIT,
};

verus! {

/// `c + 1`, wrapping around at the end of the `i64` range.
pub open spec fn wrapping_inc(c: i64) -> i64 {
    if c == i64::MAX { i64::MIN } else { (c + 1) as i64 }
}

/// One sample of [`Counter`]: a `true` reset clears the count, the (cleared) count is
/// output, and a `true` trigger then increments it.
pub open spec fn counter_step(count: i64, row: Seq<SignalValue>) -> (i64, SignalValue) {
    let c = if row[1] == SignalValue::Bool(Some(true)) { 0 } else { count };
    let next = if row[0] == SignalValue::Bool(Some(true)) { wrapping_inc(c) } else { c };
    (next, SignalValue::Int(Some(c)))
}

/// [`counter_step`] as a step function.
pub open spec fn counter_step_fn() -> spec_fn(i64, Seq<SignalValue>) -> (i64, SignalValue) {
    |c: i64, row: Seq<SignalValue>| counter_step(c, row)
}

/// A processor that counts the number of times it has been triggered.
///
/// The counter is reset to zero when the reset signal is `true`.
#[derive(Clone, Debug)]
pub struct Counter {
    count: i64,
}

impl Default for Counter {
    fn default() -> (r: Self)
        ensures
            r.count_spec() == 0,
    {
        Counter { count: 0 }
    }
}

impl Counter {
    /// The current count.
    pub closed spec fn count_spec(&self) -> i64 {
        self.count
    }

    /// Returns the current count.
    pub fn count(&self) -> (r: i64)
        ensures
            r == self.count_spec(),
    {
        self.count
    }
}

impl Processor for Counter {
    open spec fn name_spec(&self) -> Option<Seq<char>> {
        Some("Counter"@)
    }

    open spec fn inputs_spec(&self) -> Option<Seq<(Seq<char>, SignalType)>> {
        Some(seq![("trig"@, SignalType::Bool), ("reset"@, SignalType::Bool)])
    }

    open spec fn outputs_spec(&self) -> Option<Seq<(Seq<char>, SignalType)>> {
        Some(seq![("count"@, SignalType::Int)])
    }

    open spec fn process_result(&self, inputs: ProcessorInputs, outputs: ProcessorOutputs) -> Option<Result<(), ProcessorError>> {
        Some(if io_counts(inputs, outputs, 2, 1) {
            first_error3(in_err::<bool>(inputs, 0), in_err::<bool>(inputs, 1), out_err::<i64>(outputs, 0))
        } else {
            Err(io_count_error(inputs, 2))
        })
    }

    fn name(&self) -> (r: &str)
        ensures
            r@ == "Counter"@,
    {
        "Counter"
    }

    fn input_spec(&self) -> (r: Vec<SignalSpec>)
        ensures
            r@.len() == 2,
            r@[0].name@ == "trig"@,
            r@[0].signal_type == SignalType::Bool,
            r@[1].name@ == "reset"@,
            r@[1].signal_type == SignalType::Bool,
    {
        let mut v = Vec::new();
        v.push(SignalSpec::new("trig", SignalType::Bool));
        v.push(SignalSpec::new("reset", SignalType::Bool));
        let v_out = v;
        proof { assert(signature(v_out@) =~= seq![("trig"@, SignalType::Bool), ("reset"@, SignalType::Bool)]); }
        v_out
    }

    fn output_spec(&self) -> (r: Vec<SignalSpec>)
        ensures
            r@.len() == 1,
            r@[0].name@ == "count"@,
            r@[0].signal_type == SignalType::Int,
    {
        let mut v = Vec::new();
        v.push(SignalSpec::new("count", SignalType::Int));
        let v_out = v;
        proof { assert(signature(v_out@) =~= seq![("count"@, SignalType::Int)]); }
        v_out
    }

    fn process(&mut self, inputs: &ProcessorInputs, outputs: &mut ProcessorOutputs) -> (r: Result<(), ProcessorError>)
        ensures
            !io_counts(*inputs, *old(outputs), 2, 1) ==> r == Err::<(), ProcessorError>(io_count_error(*inputs, 2)) && old(outputs).same(final(outputs)) && *final(self) == *old(self),
            io_counts(*inputs, *old(outputs), 2, 1) ==> (!inputs.input_ok::<bool>(0) ==> r == Err::<(), ProcessorError>(inputs.input_error::<bool>(0))),
            io_counts(*inputs, *old(outputs), 2, 1) ==> (inputs.input_ok::<bool>(0) && !inputs.input_ok::<bool>(1) ==> r == Err::<(), ProcessorError>(inputs.input_error::<bool>(1))),
            io_counts(*inputs, *old(outputs), 2, 1) ==> (inputs.input_ok::<bool>(0) && inputs.input_ok::<bool>(1) && !old(outputs).output_ok::<i64>(0)
                ==> r == Err::<(), ProcessorError>(old(outputs).output_error::<i64>(0))),
            io_counts(*inputs, *old(outputs), 2, 1) ==> (r is Err ==> old(outputs).same(final(outputs)) && final(self).count_spec() == old(self).count_spec()),
            io_counts(*inputs, *old(outputs), 2, 1) ==> (r is Ok <==> inputs.input_ok::<bool>(0) && inputs.input_ok::<bool>(1) && old(outputs).output_ok::<i64>(0)),
            io_counts(*inputs, *old(outputs), 2, 1) ==> (r is Ok ==> ({
                let cols = seq![inputs.input_read::<bool>(0), inputs.input_read::<bool>(1)];
                let res = run_steps(counter_step_fn(), old(self).count_spec(), cols, min2(old(outputs).buffers()[0].len(), zip_len(cols)));
                &&& final(self).count_spec() == res.0
                &&& old(outputs).written(final(outputs), 0, res.1)
            })),
    {
        check_io_counts(inputs, outputs, 2, 1)?;
        let trig = self.read_bools(inputs, 0)?;
        let reset = self.read_bools(inputs, 1)?;
        let out_len = outputs.buffer(0).len();
        let ghost cols = seq![inputs.input_read::<bool>(0), inputs.input_read::<bool>(1)];
        let m = if trig.len() < reset.len() { trig.len() } else { reset.len() };
        let n = if out_len < m { out_len } else { m };
        proof { lemma_zip_len2(cols[0], cols[1]); }
        let mut out: Vec<Option<i64>> = Vec::new();
        let init = self.count;
        let mut count = self.count;
        let mut k: usize = 0;
        while k < n
            invariant
                k <= n,
                n == min2(old(outputs).buffers()[0].len(), zip_len(cols)),
                n <= trig@.len(),
                n <= reset@.len(),
                cols[0] == trig@.map_values(|v: Option<bool>| bool::sample_value(v)),
                cols[1] == reset@.map_values(|v: Option<bool>| bool::sample_value(v)),
                cols.len() == 2,
                count == run_steps(counter_step_fn(), init, cols, k as nat).0,
                out@.len() == k,
                run_steps(counter_step_fn(), init, cols, k as nat).1.len() == k,
                forall|j: int| 0 <= j < k ==> SignalValue::Int(#[trigger] out@[j]) == run_steps(counter_step_fn(), init, cols, k as nat).1[j],
            decreases n - k,
        {
            proof {
                assert(row(cols, k as int) =~= seq![bool::sample_value(trig@[k as int]), bool::sample_value(reset@[k as int])]);
            }
            proof { lemma_run_steps_len(counter_step_fn(), init, cols, (k + 1) as nat); }
            if let Some(true) = reset[k] {
                count = 0;
            }
            out.push(Some(count));
            if let Some(true) = trig[k] {
                count = if count == i64::MAX { i64::MIN } else { count + 1 };
            }
            proof {
                let prev = run_steps(counter_step_fn(), init, cols, k as nat);
                let nx = counter_step(prev.0, row(cols, k as int));
                assert(run_steps(counter_step_fn(), init, cols, (k + 1) as nat) == (nx.0, prev.1.push(nx.1)));
            }
            k += 1;
        }
        proof {
            assert(out@.map_values(|v: Option<i64>| i64::sample_value(v)) =~= run_steps(counter_step_fn(), init, cols, n as nat).1);
        }
        outputs.iter_output_mut_as_ints(0, &out)?;
        self.count = count;
        Ok(())
    }
}

/// The number of rows among the first `n` whose trigger column is `true`.
pub open spec fn count_triggers(cols: Seq<Seq<SignalValue>>, n: nat) -> nat
    decreases n,
{
    if n == 0 {
        0
    } else {
        count_triggers(cols, (n - 1) as nat) + (if cols[0][n - 1] == SignalValue::Bool(Some(true)) { 1nat } else { 0nat })
    }
}

/// Without resets, [`Counter`] adds the number of triggers to its count, and outputs before
/// each sample the count of the triggers before it.
pub proof fn lemma_counter_counts(init: i64, cols: Seq<Seq<SignalValue>>, n: nat)
    requires
        cols.len() == 2,
        n <= cols[0].len(),
        n <= cols[1].len(),
        forall|k: int| 0 <= k < n ==> #[trigger] cols[1][k] != SignalValue::Bool(Some(true)),
        init + count_triggers(cols, n) <= i64::MAX,
    ensures
        run_steps(counter_step_fn(), init, cols, n).0 == init + count_triggers(cols, n),
        run_steps(counter_step_fn(), init, cols, n).1.len() == n,
        forall|k: int| 0 <= k < n ==> #[trigger] run_steps(counter_step_fn(), init, cols, n).1[k]
            == SignalValue::Int(Some((init + count_triggers(cols, k as nat)) as i64)),
    decreases n,
{
    if n > 0 {
        let m = (n - 1) as nat;
        assert(count_triggers(cols, m) <= count_triggers(cols, n));
        lemma_counter_counts(init, cols, m);
        lemma_row2(cols[0], cols[1], m as int);
        lemma_run_steps_next(counter_step_fn(), init, cols, m);
        let prev = run_steps(counter_step_fn(), init, cols, m);
        assert forall|k: int| 0 <= k < n implies #[trigger] run_steps(counter_step_fn(), init, cols, n).1[k]
            == SignalValue::Int(Some((init + count_triggers(cols, k as nat)) as i64)) by {
            if k < m {
                assert(run_steps(counter_step_fn(), init, cols, n).1[k] == prev.1[k]);
            }
        }
    }
}

/// At every sample of [`Counter`] the output is the count after the reset (`0` when the
/// reset is `true`, else the count before), and a `true` trigger at that same sample, with
/// or without a reset, leaves the count one above the output (wrapping at the end of the
/// `i64` range); without a `true` trigger the count stays at the output.
pub proof fn lemma_counter_step_counts(count: i64, row: Seq<SignalValue>)
    requires
        row.len() >= 2,
    ensures
        ({
            let r = counter_step(count, row);
            let o: i64 = if row[1] == SignalValue::Bool(Some(true)) { 0 } else { count };
            &&& r.1 == SignalValue::Int(Some(o))
            &&& row[0] == SignalValue::Bool(Some(true)) ==> r.0 == (if o == i64::MAX { i64::MIN } else { (o + 1) as i64 })
            &&& row[0] != SignalValue::Bool(Some(true)) ==> r.0 == o
        }),
{
}

impl Counter {
    fn read_bools(&self, inputs: &ProcessorInputs, index: usize) -> (r: Result<Vec<Option<bool>>, ProcessorError>)
        requires
            index < inputs.buffers().len(),
            inputs.wf(),
        ensures
            inputs.iter_input_as_post(index, r),
    {
        inputs.iter_input_as_bools(index)
    }
}


/// A processor that does nothing; its output buffer is filled from outside the graph.
#[derive(Clone, Debug)]
pub struct Null;

impl Default for Null {
    fn default() -> (r: Self) {
        Null
    }
}

impl Processor for Null {
    open spec fn name_spec(&self) -> Option<Seq<char>> {
        Some("Null"@)
    }

    open spec fn inputs_spec(&self) -> Option<Seq<(Seq<char>, SignalType)>> {
        Some(Seq::<(Seq<char>, SignalType)>::empty())
    }

    open spec fn outputs_spec(&self) -> Option<Seq<(Seq<char>, SignalType)>> {
        Some(seq![("out"@, SignalType::Float)])
    }

    open spec fn process_result(&self, inputs: ProcessorInputs, outputs: ProcessorOutputs) -> Option<Result<(), ProcessorError>> {
        Some(if io_counts(inputs, outputs, 0, 1) { Ok(()) } else { Err(io_count_error(inputs, 0)) })
    }

    fn name(&self) -> (r: &str)
        ensures
            r@ == "Null"@,
    {
        "Null"
    }

    fn input_spec(&self) -> (r: Vec<SignalSpec>)
        ensures
            r@.len() == 0,
    {
        let v_out = Vec::new();
        proof { assert(signature(v_out@) =~= Seq::<(Seq<char>, SignalType)>::empty()); }
        v_out
    }

    fn output_spec(&self) -> (r: Vec<SignalSpec>)
        ensures
            r@.len() == 1,
            r@[0].name@ == "out"@,
            r@[0].signal_type == SignalType::Float,
    {
        let mut v = Vec::new();
        v.push(SignalSpec::new("out", SignalType::Float));
        let v_out = v;
        proof { assert(signature(v_out@) =~= seq![("out"@, SignalType::Float)]); }
        v_out
    }

    fn process(&mut self, inputs: &ProcessorInputs, outputs: &mut ProcessorOutputs) -> (r: Result<(), ProcessorError>)
        ensures
            !io_counts(*inputs, *old(outputs), 0, 1) ==> r == Err::<(), ProcessorError>(io_count_error(*inputs, 0)) && old(outputs).same(final(outputs)) && *final(self) == *old(self),
            io_counts(*inputs, *old(outputs), 0, 1) ==> (r is Ok),
            io_counts(*inputs, *old(outputs), 0, 1) ==> (old(outputs).same(final(outputs))),
    {
        check_io_counts(inputs, outputs, 0, 1)?;
        Ok(())
    }
}

/// A processor that passes its input to its output unchanged.
#[derive(Clone, Debug)]
pub struct Passthrough {
    signal_type: SignalType,
}

/// One sample of [`Passthrough`] writing to an output of type `t`: the input, or nothing.
pub open spec fn passthrough_step(t: SignalType, row: Seq<Option<SignalValue>>) -> ((), SignalValue) {
    match row[0] {
        Some(v) => ((), v),
        None => ((), SignalValue::none_of_type(t)),
    }
}

/// [`Passthrough`] outputs its connected input unchanged, and the absent value of its type
/// where the input is not connected.
pub proof fn lemma_passthrough_passes(t: SignalType, row: Seq<Option<SignalValue>>)
    requires
        row.len() >= 1,
    ensures
        row[0] matches Some(v) ==> passthrough_step(t, row).1 == v,
        row[0] is None ==> passthrough_step(t, row).1 == SignalValue::none_of_type(t),
{
}

/// [`passthrough_step`] as a step function.
pub open spec fn passthrough_step_fn(t: SignalType) -> spec_fn((), Seq<Option<SignalValue>>) -> ((), SignalValue) {
    |st: (), row: Seq<Option<SignalValue>>| passthrough_step(t, row)
}

impl Passthrough {
    /// The type of the passed signal.
    pub closed spec fn signal_type_spec(&self) -> SignalType {
        self.signal_type
    }

    /// Creates a new `Passthrough` processor.
    pub fn new(signal_type: SignalType) -> (r: Self)
        ensures
            r.signal_type_spec() == signal_type,
    {
        Passthrough { signal_type }
    }
}

impl Processor for Passthrough {
    open spec fn name_spec(&self) -> Option<Seq<char>> {
        Some("Passthrough"@)
    }

    open spec fn inputs_spec(&self) -> Option<Seq<(Seq<char>, SignalType)>> {
        Some(seq![("in"@, self.signal_type_spec())])
    }

    open spec fn outputs_spec(&self) -> Option<Seq<(Seq<char>, SignalType)>> {
        Some(seq![("out"@, self.signal_type_spec())])
    }

    open spec fn process_result(&self, inputs: ProcessorInputs, outputs: ProcessorOutputs) -> Option<Result<(), ProcessorError>> {
        Some(if io_counts(inputs, outputs, 1, 1) { Ok(()) } else { Err(io_count_error(inputs, 1)) })
    }

    fn name(&self) -> (r: &str)
        ensures
            r@ == "Passthrough"@,
    {
        "Passthrough"
    }

    fn input_spec(&self) -> (r: Vec<SignalSpec>)
        ensures
            r@.len() == 1,
            r@[0].name@ == "in"@,
            r@[0].signal_type == self.signal_type_spec(),
    {
        let mut v = Vec::new();
        v.push(SignalSpec::new("in", self.signal_type));
        let v_out = v;
        proof { assert(signature(v_out@) =~= seq![("in"@, self.signal_type_spec())]); }
        v_out
    }

    fn output_spec(&self) -> (r: Vec<SignalSpec>)
        ensures
            r@.len() == 1,
            r@[0].name@ == "out"@,
            r@[0].signal_type == self.signal_type_spec(),
    {
        let mut v = Vec::new();
        v.push(SignalSpec::new("out", self.signal_type));
        let v_out = v;
        proof { assert(signature(v_out@) =~= seq![("out"@, self.signal_type_spec())]); }
        v_out
    }

    fn process(&mut self, inputs: &ProcessorInputs, outputs: &mut ProcessorOutputs) -> (r: Result<(), ProcessorError>)
        ensures
            !io_counts(*inputs, *old(outputs), 1, 1) ==> r == Err::<(), ProcessorError>(io_count_error(*inputs, 1)) && old(outputs).same(final(outputs)) && *final(self) == *old(self),
            io_counts(*inputs, *old(outputs), 1, 1) ==> (r is Ok),
            io_counts(*inputs, *old(outputs), 1, 1) ==> (({
                let cols = seq![inputs.input_any(0)];
                let t = old(outputs).buffers()[0].signal_type();
                old(outputs).written_any(final(outputs), 0, run_steps(passthrough_step_fn(t), (), cols, zip_len(cols)).1)
            })),
    {
        check_io_counts(inputs, outputs, 1, 1)?;
        let input = inputs.iter_input(0);
        let t = outputs.buffer(0).signal_type();
        let ghost cols = seq![inputs.input_any(0)];
        let n = input.len();
        proof { lemma_zip_len1(cols[0]); }
        let mut out: Vec<AnySignal> = Vec::new();
        let mut k: usize = 0;
        while k < n
            invariant
                k <= n,
                n == input@.len(),
                cols.len() == 1,
                cols[0] == input@.map_values(|o: Option<AnySignal>| opt_any_view(o)),
                n == zip_len(cols),
                !(t is Dynamic),
                out@.len() == k,
                run_steps(passthrough_step_fn(t), (), cols, k as nat).1.len() == k,
                forall|j: int| 0 <= j < k ==> (#[trigger] out@[j])@ == run_steps(passthrough_step_fn(t), (), cols, k as nat).1[j],
            decreases n - k,
        {
            proof {
                lemma_row1(cols[0], k as int);
                lemma_run_steps_next(passthrough_step_fn(t), (), cols, k as nat);
            }
            match &input[k] {
                Some(v) => out.push(v.clone()),
                None => out.push(AnySignal::default_of_type(&t)),
            }
            k += 1;
        }
        proof {
            assert(out@.map_values(|v: AnySignal| v@) =~= run_steps(passthrough_step_fn(t), (), cols, n as nat).1);
        }
        outputs.iter_output(0, &out);
        Ok(())
    }
}

/// A processor that continuously outputs the current sample rate.
#[derive(Clone, Debug)]
pub struct SampleRate;

impl Default for SampleRate {
    fn default() -> (r: Self) {
        SampleRate
    }
}

impl Processor for SampleRate {
    open spec fn name_spec(&self) -> Option<Seq<char>> {
        Some("SampleRate"@)
    }

    open spec fn inputs_spec(&self) -> Option<Seq<(Seq<char>, SignalType)>> {
        Some(Seq::<(Seq<char>, SignalType)>::empty())
    }

    open spec fn outputs_spec(&self) -> Option<Seq<(Seq<char>, SignalType)>> {
        Some(seq![("sample_rate"@, SignalType::Float)])
    }

    open spec fn process_result(&self, inputs: ProcessorInputs, outputs: ProcessorOutputs) -> Option<Result<(), ProcessorError>> {
        Some(if io_counts(inputs, outputs, 0, 1) { first_error2(out_err::<Float>(outputs, 0), None) } else { Err(io_count_error(inputs, 0)) })
    }

    fn name(&self) -> (r: &str)
        ensures
            r@ == "SampleRate"@,
    {
        "SampleRate"
    }

    fn input_spec(&self) -> (r: Vec<SignalSpec>)
        ensures
            r@.len() == 0,
    {
        let v_out = Vec::new();
        proof { assert(signature(v_out@) =~= Seq::<(Seq<char>, SignalType)>::empty()); }
        v_out
    }

    fn output_spec(&self) -> (r: Vec<SignalSpec>)
        ensures
            r@.len() == 1,
            r@[0].name@ == "sample_rate"@,
            r@[0].signal_type == SignalType::Float,
    {
        let mut v = Vec::new();
        v.push(SignalSpec::new("sample_rate", SignalType::Float));
        let v_out = v;
        proof { assert(signature(v_out@) =~= seq![("sample_rate"@, SignalType::Float)]); }
        v_out
    }

    fn process(&mut self, inputs: &ProcessorInputs, outputs: &mut ProcessorOutputs) -> (r: Result<(), ProcessorError>)
        ensures
            !io_counts(*inputs, *old(outputs), 0, 1) ==> r == Err::<(), ProcessorError>(io_count_error(*inputs, 0)) && old(outputs).same(final(outputs)) && *final(self) == *old(self),
            io_counts(*inputs, *old(outputs), 0, 1) ==> (r == first_error2(out_err::<Float>(*old(outputs), 0), None)),
            io_counts(*inputs, *old(outputs), 0, 1) ==> (r is Err ==> old(outputs).same(final(outputs))),
            io_counts(*inputs, *old(outputs), 0, 1) ==> (r is Ok ==> old(outputs).written(final(outputs), 0,
                Seq::new(old(outputs).buffers()[0].len(), |j: int| SignalValue::Float(Some(inputs.sample_rate_spec()))))),
    {
        check_io_counts(inputs, outputs, 0, 1)?;
        let n = outputs.buffer(0).len();
        let rate = inputs.sample_rate();
        let mut out: Vec<Option<Float>> = Vec::new();
        let mut k: usize = 0;
        while k < n
            invariant
                k <= n,
                out@.len() == k,
                rate == inputs.sample_rate_spec(),
                forall|j: int| 0 <= j < k ==> #[trigger] out@[j] == Some(rate),
            decreases n - k,
        {
            out.push(Some(rate));
            k += 1;
        }
        proof {
            assert(out@.map_values(|v: Option<Float>| Float::sample_value(v)) =~= Seq::new(n as nat, |j: int| SignalValue::Float(Some(inputs.sample_rate_spec()))));
        }
        outputs.iter_output_mut_as_floats(0, &out)?;
        Ok(())
    }
}

/// `x < 0.0`.
pub open spec fn float_lt_zero(x: Float) -> bool {
    float_lt_spec(x.bits, 0)
}

/// `x > 0.0`.
pub open spec fn float_gt_zero(x: Float) -> bool {
    float_lt_spec(0, x.bits)
}

/// `x >= 0.0`.
pub open spec fn float_ge_zero(x: Float) -> bool {
    float_lt_spec(0, x.bits) || float_eq_spec(x.bits, 0)
}

/// `x <= 0.0`.
pub open spec fn float_le_zero(x: Float) -> bool {
    float_lt_spec(x.bits, 0) || float_eq_spec(x.bits, 0)
}

/// One sample of [`ZeroCrossing`]: a present input that crosses zero from the last input
/// gives `true`, anything else gives nothing; a present input becomes the last input.
pub open spec fn zero_crossing_step(last: Float, row: Seq<SignalValue>) -> (Float, SignalValue) {
    match row[0] {
        SignalValue::Float(Some(x)) => (x,
            if (float_lt_zero(last) && float_ge_zero(x)) || (float_gt_zero(last) && float_le_zero(x)) {
                SignalValue::Bool(Some(true))
            } else {
                SignalValue::Bool(None)
            }),
        _ => (last, SignalValue::Bool(None)),
    }
}

/// [`ZeroCrossing`] outputs `true` exactly where a present input crosses zero from the last
/// present input (IEEE order: from below zero to zero or above, or from above zero to zero or
/// below; NaN crosses nothing), and nothing anywhere else; only a present input becomes the
/// last input.
pub proof fn lemma_zero_crossing_detects(last: Float, row: Seq<SignalValue>)
    requires
        row.len() >= 1,
    ensures
        row[0] matches SignalValue::Float(Some(x)) ==> zero_crossing_step(last, row).0 == x,
        !(row[0] matches SignalValue::Float(Some(_))) ==> zero_crossing_step(last, row).0 == last,
        (zero_crossing_step(last, row).1 == SignalValue::Bool(Some(true))) <==> (row[0] matches SignalValue::Float(Some(x))
            && !float_is_nan(last.bits) && !float_is_nan(x.bits)
            && ((float_order_key(last.bits) < 0 && float_order_key(x.bits) >= 0)
                || (float_order_key(last.bits) > 0 && float_order_key(x.bits) <= 0))),
        zero_crossing_step(last, row).1 != SignalValue::Bool(Some(true)) ==> zero_crossing_step(last, row).1 == SignalValue::Bool(None),
{
}

/// [`zero_crossing_step`] as a step function.
pub open spec fn zero_crossing_step_fn() -> spec_fn(Float, Seq<SignalValue>) -> (Float, SignalValue) {
    |last: Float, row: Seq<SignalValue>| zero_crossing_step(last, row)
}

/// A processor that outputs a signal when the input signal crosses zero.
#[derive(Clone, Debug)]
pub struct ZeroCrossing {
    last: Float,
}

impl Default for ZeroCrossing {
    fn default() -> (r: Self)
        ensures
            r.last_spec() == Float::zero_spec(),
    {
        ZeroCrossing { last: Float::zero() }
    }
}

impl ZeroCrossing {
    /// The last present input.
    pub closed spec fn last_spec(&self) -> Float {
        self.last
    }
}

impl Processor for ZeroCrossing {
    open spec fn name_spec(&self) -> Option<Seq<char>> {
        Some("ZeroCrossing"@)
    }

    open spec fn inputs_spec(&self) -> Option<Seq<(Seq<char>, SignalType)>> {
        Some(seq![("in"@, SignalType::Float)])
    }

    open spec fn outputs_spec(&self) -> Option<Seq<(Seq<char>, SignalType)>> {
        Some(seq![("out"@, SignalType::Bool)])
    }

    open spec fn process_result(&self, inputs: ProcessorInputs, outputs: ProcessorOutputs) -> Option<Result<(), ProcessorError>> {
        Some(if io_counts(inputs, outputs, 1, 1) { first_error2(in_err::<Float>(inputs, 0), out_err::<bool>(outputs, 0)) } else { Err(io_count_error(inputs, 1)) })
    }

    fn name(&self) -> (r: &str)
        ensures
            r@ == "ZeroCrossing"@,
    {
        "ZeroCrossing"
    }

    fn input_spec(&self) -> (r: Vec<SignalSpec>)
        ensures
            r@.len() == 1,
            r@[0].name@ == "in"@,
            r@[0].signal_type == SignalType::Float,
    {
        let mut v = Vec::new();
        v.push(SignalSpec::new("in", SignalType::Float));
        let v_out = v;
        proof { assert(signature(v_out@) =~= seq![("in"@, SignalType::Float)]); }
        v_out
    }

    fn output_spec(&self) -> (r: Vec<SignalSpec>)
        ensures
            r@.len() == 1,
            r@[0].name@ == "out"@,
            r@[0].signal_type == SignalType::Bool,
    {
        let mut v = Vec::new();
        v.push(SignalSpec::new("out", SignalType::Bool));
        let v_out = v;
        proof { assert(signature(v_out@) =~= seq![("out"@, SignalType::Bool)]); }
        v_out
    }

    fn process(&mut self, inputs: &ProcessorInputs, outputs: &mut ProcessorOutputs) -> (r: Result<(), ProcessorError>)
        ensures
            !io_counts(*inputs, *old(outputs), 1, 1) ==> r == Err::<(), ProcessorError>(io_count_error(*inputs, 1)) && old(outputs).same(final(outputs)) && *final(self) == *old(self),
            io_counts(*inputs, *old(outputs), 1, 1) ==> (r == first_error2(in_err::<Float>(*inputs, 0), out_err::<bool>(*old(outputs), 0))),
            io_counts(*inputs, *old(outputs), 1, 1) ==> (r is Err ==> old(outputs).same(final(outputs)) && final(self).last_spec() == old(self).last_spec()),
            io_counts(*inputs, *old(outputs), 1, 1) ==> (r is Ok ==> ({
                let cols = seq![inputs.input_read::<Float>(0)];
                let res = run_steps(zero_crossing_step_fn(), old(self).last_spec(), cols, min2(old(outputs).buffers()[0].len(), zip_len(cols)));
                &&& final(self).last_spec() == res.0
                &&& old(outputs).written(final(outputs), 0, res.1)
            })),
    {
        check_io_counts(inputs, outputs, 1, 1)?;
        let input = inputs.iter_input_as_floats(0)?;
        let out_len = outputs.buffer(0).len();
        let ghost cols = seq![inputs.input_read::<Float>(0)];
        let n = if out_len < input.len() { out_len } else { input.len() };
        proof { lemma_zip_len1(cols[0]); }
        let init = self.last;
        let zero = Float::zero();
        let mut last = self.last;
        let mut out: Vec<Option<bool>> = Vec::new();
        let mut k: usize = 0;
        while k < n
            invariant
                k <= n,
                n <= input@.len(),
                cols.len() == 1,
                cols[0] == input@.map_values(|v: Option<Float>| Float::sample_value(v)),
                n == min2(old(outputs).buffers()[0].len(), zip_len(cols)),
                zero == Float::zero_spec(),
                out@.len() == k,
                last == run_steps(zero_crossing_step_fn(), init, cols, k as nat).0,
                run_steps(zero_crossing_step_fn(), init, cols, k as nat).1.len() == k,
                forall|j: int| 0 <= j < k ==> bool::sample_value(#[trigger] out@[j]) == run_steps(zero_crossing_step_fn(), init, cols, k as nat).1[j],
            decreases n - k,
        {
            proof {
                lemma_row1(cols[0], k as int);
                lemma_run_steps_next(zero_crossing_step_fn(), init, cols, k as nat);
            }
            match input[k] {
                Some(x) => {
                    let crossed = (last.float_lt(&zero) && (zero.float_lt(&x) || x.float_eq(&zero)))
                        || (zero.float_lt(&last) && (x.float_lt(&zero) || x.float_eq(&zero)));
                    if crossed {
                        out.push(Some(true));
                    } else {
                        out.push(None);
                    }
                    last = x;
                },
                None => {
                    out.push(None);
                },
            }
            k += 1;
        }
        proof {
            assert(out@.map_values(|v: Option<bool>| bool::sample_value(v)) =~= run_steps(zero_crossing_step_fn(), init, cols, n as nat).1);
        }
        outputs.iter_output_mut_as_bools(0, &out)?;
        self.last = last;
        Ok(())
    }
}

/// One sample of [`SampleAndHold`]: a `true` trigger captures the input (present or not),
/// and the captured value is output.
pub open spec fn sample_and_hold_step(last: Option<Float>, row: Seq<SignalValue>) -> (Option<Float>, SignalValue) {
    let held = if row[1] == SignalValue::Bool(Some(true)) {
        match row[0] {
            SignalValue::Float(x) => x,
            _ => last,
        }
    } else {
        last
    };
    (held, SignalValue::Float(held))
}

/// [`SampleAndHold`] captures its input (present or not) exactly where the trigger is `true`,
/// holds it at every other sample, and outputs what it holds.
pub proof fn lemma_sample_and_hold_captures(last: Option<Float>, row: Seq<SignalValue>)
    requires
        row.len() >= 2,
        row[0] is Float,
    ensures
        sample_and_hold_step(last, row).1 == SignalValue::Float(sample_and_hold_step(last, row).0),
        row[1] == SignalValue::Bool(Some(true)) ==> SignalValue::Float(sample_and_hold_step(last, row).0) == row[0],
        row[1] != SignalValue::Bool(Some(true)) ==> sample_and_hold_step(last, row).0 == last,
{
}

/// [`sample_and_hold_step`] as a step function.
pub open spec fn sample_and_hold_step_fn() -> spec_fn(Option<Float>, Seq<SignalValue>) -> (Option<Float>, SignalValue) {
    |last: Option<Float>, row: Seq<SignalValue>| sample_and_hold_step(last, row)
}

/// A processor that captures the value of a signal when triggered and continuously outputs it.
#[derive(Clone, Debug)]
pub struct SampleAndHold {
    last: Option<Float>,
}

impl Default for SampleAndHold {
    fn default() -> (r: Self)
        ensures
            r.last_spec() is None,
    {
        SampleAndHold { last: None }
    }
}

impl SampleAndHold {
    /// The captured value.
    pub closed spec fn last_spec(&self) -> Option<Float> {
        self.last
    }
}

impl Processor for SampleAndHold {
    open spec fn name_spec(&self) -> Option<Seq<char>> {
        Some("SampleAndHold"@)
    }

    open spec fn inputs_spec(&self) -> Option<Seq<(Seq<char>, SignalType)>> {
        Some(seq![("in"@, SignalType::Float), ("trig"@, SignalType::Bool)])
    }

    open spec fn outputs_spec(&self) -> Option<Seq<(Seq<char>, SignalType)>> {
        Some(seq![("out"@, SignalType::Float)])
    }

    open spec fn process_result(&self, inputs: ProcessorInputs, outputs: ProcessorOutputs) -> Option<Result<(), ProcessorError>> {
        Some(if io_counts(inputs, outputs, 2, 1) { first_error3(in_err::<Float>(inputs, 0), in_err::<bool>(inputs, 1), out_err::<Float>(outputs, 0)) } else { Err(io_count_error(inputs, 2)) })
    }

    fn name(&self) -> (r: &str)
        ensures
            r@ == "SampleAndHold"@,
    {
        "SampleAndHold"
    }

    fn input_spec(&self) -> (r: Vec<SignalSpec>)
        ensures
            r@.len() == 2,
            r@[0].name@ == "in"@,
            r@[0].signal_type == SignalType::Float,
            r@[1].name@ == "trig"@,
            r@[1].signal_type == SignalType::Bool,
    {
        let mut v = Vec::new();
        v.push(SignalSpec::new("in", SignalType::Float));
        v.push(SignalSpec::new("trig", SignalType::Bool));
        let v_out = v;
        proof { assert(signature(v_out@) =~= seq![("in"@, SignalType::Float), ("trig"@, SignalType::Bool)]); }
        v_out
    }

    fn output_spec(&self) -> (r: Vec<SignalSpec>)
        ensures
            r@.len() == 1,
            r@[0].name@ == "out"@,
            r@[0].signal_type == SignalType::Float,
    {
        let mut v = Vec::new();
        v.push(SignalSpec::new("out", SignalType::Float));
        let v_out = v;
        proof { assert(signature(v_out@) =~= seq![("out"@, SignalType::Float)]); }
        v_out
    }

    fn process(&mut self, inputs: &ProcessorInputs, outputs: &mut ProcessorOutputs) -> (r: Result<(), ProcessorError>)
        ensures
            !io_counts(*inputs, *old(outputs), 2, 1) ==> r == Err::<(), ProcessorError>(io_count_error(*inputs, 2)) && old(outputs).same(final(outputs)) && *final(self) == *old(self),
            io_counts(*inputs, *old(outputs), 2, 1) ==> (r == first_error3(in_err::<Float>(*inputs, 0), in_err::<bool>(*inputs, 1), out_err::<Float>(*old(outputs), 0))),
            io_counts(*inputs, *old(outputs), 2, 1) ==> (r is Err ==> old(outputs).same(final(outputs)) && final(self).last_spec() == old(self).last_spec()),
            io_counts(*inputs, *old(outputs), 2, 1) ==> (r is Ok ==> ({
                let cols = seq![inputs.input_read::<Float>(0), inputs.input_read::<bool>(1)];
                let res = run_steps(sample_and_hold_step_fn(), old(self).last_spec(), cols, min2(old(outputs).buffers()[0].len(), zip_len(cols)));
                &&& final(self).last_spec() == res.0
                &&& old(outputs).written(final(outputs), 0, res.1)
            })),
    {
        check_io_counts(inputs, outputs, 2, 1)?;
        let input = inputs.iter_input_as_floats(0)?;
        let trig = inputs.iter_input_as_bools(1)?;
        let out_len = outputs.buffer(0).len();
        let ghost cols = seq![inputs.input_read::<Float>(0), inputs.input_read::<bool>(1)];
        let m = if input.len() < trig.len() { input.len() } else { trig.len() };
        let n = if out_len < m { out_len } else { m };
        proof { lemma_zip_len2(cols[0], cols[1]); }
        let init = self.last;
        let mut last = self.last;
        let mut out: Vec<Option<Float>> = Vec::new();
        let mut k: usize = 0;
        while k < n
            invariant
                k <= n,
                n <= input@.len(),
                n <= trig@.len(),
                cols.len() == 2,
                cols[0] == input@.map_values(|v: Option<Float>| Float::sample_value(v)),
                cols[1] == trig@.map_values(|v: Option<bool>| bool::sample_value(v)),
                n == min2(old(outputs).buffers()[0].len(), zip_len(cols)),
                out@.len() == k,
                last == run_steps(sample_and_hold_step_fn(), init, cols, k as nat).0,
                run_steps(sample_and_hold_step_fn(), init, cols, k as nat).1.len() == k,
                forall|j: int| 0 <= j < k ==> Float::sample_value(#[trigger] out@[j]) == run_steps(sample_and_hold_step_fn(), init, cols, k as nat).1[j],
            decreases n - k,
        {
            proof {
                lemma_row2(cols[0], cols[1], k as int);
                lemma_run_steps_next(sample_and_hold_step_fn(), init, cols, k as nat);
            }
            if let Some(true) = trig[k] {
                last = input[k];
            }
            out.push(last);
            k += 1;
        }
        proof {
            assert(out@.map_values(|v: Option<Float>| Float::sample_value(v)) =~= run_steps(sample_and_hold_step_fn(), init, cols, n as nat).1);
        }
        outputs.iter_output_mut_as_floats(0, &out)?;
        self.last = last;
        Ok(())
    }
}

/// One sample of [`FiniteOrZero`]: a NaN or infinite input gives `0.0`, a finite one passes,
/// a missing one stays missing.
pub open spec fn finite_or_zero_step(st: (), row: Seq<SignalValue>) -> ((), SignalValue) {
    match row[0] {
        SignalValue::Float(Some(x)) => ((),
            if float_is_nan(x.bits) || float_is_infinite(x.bits) { SignalValue::Float(Some(Float::zero_spec())) } else { SignalValue::Float(Some(x)) }),
        _ => ((), SignalValue::Float(None)),
    }
}

/// [`FiniteOrZero`] replaces a NaN or infinite input (every bit of the exponent set) by
/// `0.0`, passes a finite one unchanged, and leaves a missing one missing.
pub proof fn lemma_finite_or_zero_replaces(row: Seq<SignalValue>)
    requires
        row.len() >= 1,
    ensures
        row[0] matches SignalValue::Float(Some(x)) ==> finite_or_zero_step((), row).1 == SignalValue::Float(Some(
            if float_magnitude(x.bits) >= FLOAT_INF_BITS { Float { bits: 0 } } else { x })),
        !(row[0] matches SignalValue::Float(Some(_))) ==> finite_or_zero_step((), row).1 == SignalValue::Float(None),
{
}

/// [`finite_or_zero_step`] as a step function.
pub open spec fn finite_or_zero_step_fn() -> spec_fn((), Seq<SignalValue>) -> ((), SignalValue) {
    |st: (), row: Seq<SignalValue>| finite_or_zero_step(st, row)
}

/// A processor that outputs `0.0` when the input signal is NaN or infinite, and passes it
/// through unchanged otherwise.
#[derive(Clone, Debug)]
pub struct FiniteOrZero;

impl Default for FiniteOrZero {
    fn default() -> (r: Self) {
        FiniteOrZero
    }
}

impl Processor for FiniteOrZero {
    open spec fn name_spec(&self) -> Option<Seq<char>> {
        Some("FiniteOrZero"@)
    }

    open spec fn inputs_spec(&self) -> Option<Seq<(Seq<char>, SignalType)>> {
        Some(seq![("in"@, SignalType::Float)])
    }

    open spec fn outputs_spec(&self) -> Option<Seq<(Seq<char>, SignalType)>> {
        Some(seq![("out"@, SignalType::Float)])
    }

    open spec fn process_result(&self, inputs: ProcessorInputs, outputs: ProcessorOutputs) -> Option<Result<(), ProcessorError>> {
        Some(if io_counts(inputs, outputs, 1, 1) { first_error2(in_err::<Float>(inputs, 0), out_err::<Float>(outputs, 0)) } else { Err(io_count_error(inputs, 1)) })
    }

    fn name(&self) -> (r: &str)
        ensures
            r@ == "FiniteOrZero"@,
    {
        "FiniteOrZero"
    }

    fn input_spec(&self) -> (r: Vec<SignalSpec>)
        ensures
            r@.len() == 1,
            r@[0].name@ == "in"@,
            r@[0].signal_type == SignalType::Float,
    {
        let mut v = Vec::new();
        v.push(SignalSpec::new("in", SignalType::Float));
        let v_out = v;
        proof { assert(signature(v_out@) =~= seq![("in"@, SignalType::Float)]); }
        v_out
    }

    fn output_spec(&self) -> (r: Vec<SignalSpec>)
        ensures
            r@.len() == 1,
            r@[0].name@ == "out"@,
            r@[0].signal_type == SignalType::Float,
    {
        let mut v = Vec::new();
        v.push(SignalSpec::new("out", SignalType::Float));
        let v_out = v;
        proof { assert(signature(v_out@) =~= seq![("out"@, SignalType::Float)]); }
        v_out
    }

    fn process(&mut self, inputs: &ProcessorInputs, outputs: &mut ProcessorOutputs) -> (r: Result<(), ProcessorError>)
        ensures
            !io_counts(*inputs, *old(outputs), 1, 1) ==> r == Err::<(), ProcessorError>(io_count_error(*inputs, 1)) && old(outputs).same(final(outputs)) && *final(self) == *old(self),
            io_counts(*inputs, *old(outputs), 1, 1) ==> (r == first_error2(in_err::<Float>(*inputs, 0), out_err::<Float>(*old(outputs), 0))),
            io_counts(*inputs, *old(outputs), 1, 1) ==> (r is Err ==> old(outputs).same(final(outputs))),
            io_counts(*inputs, *old(outputs), 1, 1) ==> (r is Ok ==> ({
                let cols = seq![inputs.input_read::<Float>(0)];
                old(outputs).written(final(outputs), 0, run_steps(finite_or_zero_step_fn(), (), cols, zip_len(cols)).1)
            })),
    {
        check_io_counts(inputs, outputs, 1, 1)?;
        let input = inputs.iter_input_as_floats(0)?;
        let ghost cols = seq![inputs.input_read::<Float>(0)];
        let n = input.len();
        proof { lemma_zip_len1(cols[0]); }
        let mut out: Vec<Option<Float>> = Vec::new();
        let mut k: usize = 0;
        while k < n
            invariant
                k <= n,
                n == input@.len(),
                cols.len() == 1,
                cols[0] == input@.map_values(|v: Option<Float>| Float::sample_value(v)),
                n == zip_len(cols),
                out@.len() == k,
                run_steps(finite_or_zero_step_fn(), (), cols, k as nat).1.len() == k,
                forall|j: int| 0 <= j < k ==> Float::sample_value(#[trigger] out@[j]) == run_steps(finite_or_zero_step_fn(), (), cols, k as nat).1[j],
            decreases n - k,
        {
            proof {
                lemma_row1(cols[0], k as int);
                lemma_run_steps_next(finite_or_zero_step_fn(), (), cols, k as nat);
            }
            match input[k] {
                Some(x) => {
                    if x.is_nan() || x.is_infinite() {
                        out.push(Some(Float::zero()));
                    } else {
                        out.push(Some(x));
                    }
                },
                None => out.push(None),
            }
            k += 1;
        }
        proof {
            assert(out@.map_values(|v: Option<Float>| Float::sample_value(v)) =~= run_steps(finite_or_zero_step_fn(), (), cols, n as nat).1);
        }
        outputs.iter_output_mut_as_floats(0, &out)?;
        Ok(())
    }
}

/// Whether an untyped input sample is present and holds a value.
pub open spec fn holds_value(v: Option<SignalValue>) -> bool {
    match v {
        Some(s) => s.is_some(),
        None => false,
    }
}

/// One sample of [`IsSome`]: `true` when the input holds a value.
pub open spec fn is_some_step(st: (), row: Seq<Option<SignalValue>>) -> ((), SignalValue) {
    ((), SignalValue::Bool(Some(holds_value(row[0]))))
}

/// [`is_some_step`] as a step function.
pub open spec fn is_some_step_fn() -> spec_fn((), Seq<Option<SignalValue>>) -> ((), SignalValue) {
    |st: (), row: Seq<Option<SignalValue>>| is_some_step(st, row)
}

/// One sample of [`IsNone`]: `true` when the input holds no value.
pub open spec fn is_none_step(st: (), row: Seq<Option<SignalValue>>) -> ((), SignalValue) {
    ((), SignalValue::Bool(Some(!holds_value(row[0]))))
}

/// [`IsSome`] outputs `true` exactly where its input is connected and holds a value, and
/// [`IsNone`] outputs the opposite at every sample.
pub proof fn lemma_is_some_is_none(row: Seq<Option<SignalValue>>)
    requires
        row.len() >= 1,
    ensures
        is_some_step((), row).1 == SignalValue::Bool(Some(row[0] matches Some(v) && v.is_some())),
        is_none_step((), row).1 == SignalValue::Bool(Some(!(is_some_step((), row).1 == SignalValue::Bool(Some(true))))),
{
}

/// [`is_none_step`] as a step function.
pub open spec fn is_none_step_fn() -> spec_fn((), Seq<Option<SignalValue>>) -> ((), SignalValue) {
    |st: (), row: Seq<Option<SignalValue>>| is_none_step(st, row)
}

/// Computes, for every sample of the untyped input at `index`, whether it holds a value
/// (or, when `negate`, whether it holds none).
fn presence_flags(inputs: &ProcessorInputs, index: usize, negate: bool) -> (r: Vec<Option<bool>>)
    requires
        inputs.wf(),
        index < inputs.buffers().len(),
    ensures
        ({
            let cols = seq![inputs.input_any(index)];
            let step = if negate { is_none_step_fn() } else { is_some_step_fn() };
            r@.map_values(|v: Option<bool>| bool::sample_value(v)) == run_steps(step, (), cols, zip_len(cols)).1
        }),
{
    let input = inputs.iter_input(index);
    let ghost cols = seq![inputs.input_any(index)];
    let ghost step = if negate { is_none_step_fn() } else { is_some_step_fn() };
    let n = input.len();
    proof { lemma_zip_len1(cols[0]); }
    let mut out: Vec<Option<bool>> = Vec::new();
    let mut k: usize = 0;
    while k < n
        invariant
            k <= n,
            n == input@.len(),
            cols.len() == 1,
            cols[0] == input@.map_values(|o: Option<AnySignal>| opt_any_view(o)),
            n == zip_len(cols),
            step == (if negate { is_none_step_fn() } else { is_some_step_fn() }),
            out@.len() == k,
            run_steps(step, (), cols, k as nat).1.len() == k,
            forall|j: int| 0 <= j < k ==> bool::sample_value(#[trigger] out@[j]) == run_steps(step, (), cols, k as nat).1[j],
        decreases n - k,
    {
        proof {
            lemma_row1(cols[0], k as int);
            lemma_run_steps_next(step, (), cols, k as nat);
        }
        let present = match &input[k] {
            Some(s) => s.is_some(),
            None => false,
        };
        out.push(Some(if negate { !present } else { present }));
        k += 1;
    }
    proof {
        assert(out@.map_values(|v: Option<bool>| bool::sample_value(v)) =~= run_steps(step, (), cols, n as nat).1);
    }
    out
}

/// A processor that outputs `true` when the input signal is present and holds a value, and
/// `false` otherwise.
#[derive(Clone, Debug)]
pub struct IsSome {
    signal_type: SignalType,
}

impl IsSome {
    /// The type of the tested signal.
    pub closed spec fn signal_type_spec(&self) -> SignalType {
        self.signal_type
    }

    /// Creates a new `IsSome` processor.
    pub fn new(signal_type: SignalType) -> (r: Self)
        ensures
            r.signal_type_spec() == signal_type,
    {
        IsSome { signal_type }
    }
}

impl Processor for IsSome {
    open spec fn name_spec(&self) -> Option<Seq<char>> {
        Some("IsSome"@)
    }

    open spec fn inputs_spec(&self) -> Option<Seq<(Seq<char>, SignalType)>> {
        Some(seq![("in"@, self.signal_type_spec())])
    }

    open spec fn outputs_spec(&self) -> Option<Seq<(Seq<char>, SignalType)>> {
        Some(seq![("out"@, SignalType::Bool)])
    }

    open spec fn process_result(&self, inputs: ProcessorInputs, outputs: ProcessorOutputs) -> Option<Result<(), ProcessorError>> {
        Some(if io_counts(inputs, outputs, 1, 1) { first_error2(out_err::<bool>(outputs, 0), None) } else { Err(io_count_error(inputs, 1)) })
    }

    fn name(&self) -> (r: &str)
        ensures
            r@ == "IsSome"@,
    {
        "IsSome"
    }

    fn input_spec(&self) -> (r: Vec<SignalSpec>)
        ensures
            r@.len() == 1,
            r@[0].name@ == "in"@,
            r@[0].signal_type == self.signal_type_spec(),
    {
        let mut v = Vec::new();
        v.push(SignalSpec::new("in", self.signal_type));
        let v_out = v;
        proof { assert(signature(v_out@) =~= seq![("in"@, self.signal_type_spec())]); }
        v_out
    }

    fn output_spec(&self) -> (r: Vec<SignalSpec>)
        ensures
            r@.len() == 1,
            r@[0].name@ == "out"@,
            r@[0].signal_type == SignalType::Bool,
    {
        let mut v = Vec::new();
        v.push(SignalSpec::new("out", SignalType::Bool));
        let v_out = v;
        proof { assert(signature(v_out@) =~= seq![("out"@, SignalType::Bool)]); }
        v_out
    }

    fn process(&mut self, inputs: &ProcessorInputs, outputs: &mut ProcessorOutputs) -> (r: Result<(), ProcessorError>)
        ensures
            !io_counts(*inputs, *old(outputs), 1, 1) ==> r == Err::<(), ProcessorError>(io_count_error(*inputs, 1)) && old(outputs).same(final(outputs)) && *final(self) == *old(self),
            io_counts(*inputs, *old(outputs), 1, 1) ==> (r == first_error2(out_err::<bool>(*old(outputs), 0), None)),
            io_counts(*inputs, *old(outputs), 1, 1) ==> (r is Err ==> old(outputs).same(final(outputs))),
            io_counts(*inputs, *old(outputs), 1, 1) ==> (r is Ok ==> ({
                let cols = seq![inputs.input_any(0)];
                old(outputs).written(final(outputs), 0, run_steps(is_some_step_fn(), (), cols, zip_len(cols)).1)
            })),
    {
        check_io_counts(inputs, outputs, 1, 1)?;
        let out = presence_flags(inputs, 0, false);
        outputs.iter_output_mut_as_bools(0, &out)?;
        Ok(())
    }
}

/// A processor that outputs `true` when the input signal is missing or holds no value, and
/// `false` otherwise.
#[derive(Clone, Debug)]
pub struct IsNone {
    signal_type: SignalType,
}

impl IsNone {
    /// The type of the tested signal.
    pub closed spec fn signal_type_spec(&self) -> SignalType {
        self.signal_type
    }

    /// Creates a new `IsNone` processor.
    pub fn new(signal_type: SignalType) -> (r: Self)
        ensures
            r.signal_type_spec() == signal_type,
    {
        IsNone { signal_type }
    }
}

impl Processor for IsNone {
    open spec fn name_spec(&self) -> Option<Seq<char>> {
        Some("IsNone"@)
    }

    open spec fn inputs_spec(&self) -> Option<Seq<(Seq<char>, SignalType)>> {
        Some(seq![("in"@, self.signal_type_spec())])
    }

    open spec fn outputs_spec(&self) -> Option<Seq<(Seq<char>, SignalType)>> {
        Some(seq![("out"@, SignalType::Bool)])
    }

    open spec fn process_result(&self, inputs: ProcessorInputs, outputs: ProcessorOutputs) -> Option<Result<(), ProcessorError>> {
        Some(if io_counts(inputs, outputs, 1, 1) { first_error2(out_err::<bool>(outputs, 0), None) } else { Err(io_count_error(inputs, 1)) })
    }

    fn name(&self) -> (r: &str)
        ensures
            r@ == "IsNone"@,
    {
        "IsNone"
    }

    fn input_spec(&self) -> (r: Vec<SignalSpec>)
        ensures
            r@.len() == 1,
            r@[0].name@ == "in"@,
            r@[0].signal_type == self.signal_type_spec(),
    {
        let mut v = Vec::new();
        v.push(SignalSpec::new("in", self.signal_type));
        let v_out = v;
        proof { assert(signature(v_out@) =~= seq![("in"@, self.signal_type_spec())]); }
        v_out
    }

    fn output_spec(&self) -> (r: Vec<SignalSpec>)
        ensures
            r@.len() == 1,
            r@[0].name@ == "out"@,
            r@[0].signal_type == SignalType::Bool,
    {
        let mut v = Vec::new();
        v.push(SignalSpec::new("out", SignalType::Bool));
        let v_out = v;
        proof { assert(signature(v_out@) =~= seq![("out"@, SignalType::Bool)]); }
        v_out
    }

    fn process(&mut self, inputs: &ProcessorInputs, outputs: &mut ProcessorOutputs) -> (r: Result<(), ProcessorError>)
        ensures
            !io_counts(*inputs, *old(outputs), 1, 1) ==> r == Err::<(), ProcessorError>(io_count_error(*inputs, 1)) && old(outputs).same(final(outputs)) && *final(self) == *old(self),
            io_counts(*inputs, *old(outputs), 1, 1) ==> (r == first_error2(out_err::<bool>(*old(outputs), 0), None)),
            io_counts(*inputs, *old(outputs), 1, 1) ==> (r is Err ==> old(outputs).same(final(outputs))),
            io_counts(*inputs, *old(outputs), 1, 1) ==> (r is Ok ==> ({
                let cols = seq![inputs.input_any(0)];
                old(outputs).written(final(outputs), 0, run_steps(is_none_step_fn(), (), cols, zip_len(cols)).1)
            })),
    {
        check_io_counts(inputs, outputs, 1, 1)?;
        let out = presence_flags(inputs, 0, true);
        outputs.iter_output_mut_as_bools(0, &out)?;
        Ok(())
    }
}

/// One sample of [`OrElse`]: an input holding a value passes, anything else gives the default.
pub open spec fn or_else_step(default: SignalValue, row: Seq<Option<SignalValue>>) -> ((), SignalValue) {
    if holds_value(row[0]) { ((), row[0]->0) } else { ((), default) }
}

/// [`OrElse`] passes an input that holds a value, and outputs its default where the input is
/// missing or not connected.
pub proof fn lemma_or_else_defaults(default: SignalValue, row: Seq<Option<SignalValue>>)
    requires
        row.len() >= 1,
    ensures
        (row[0] matches Some(v) && v.is_some()) ==> or_else_step(default, row).1 == row[0]->0,
        !(row[0] matches Some(v) && v.is_some()) ==> or_else_step(default, row).1 == default,
{
}

/// [`or_else_step`] as a step function.
pub open spec fn or_else_step_fn(default: SignalValue) -> spec_fn((), Seq<Option<SignalValue>>) -> ((), SignalValue) {
    |st: (), row: Seq<Option<SignalValue>>| or_else_step(default, row)
}

/// A processor that outputs the input signal if it holds a value, and a default value otherwise.
#[derive(Clone, Debug)]
pub struct OrElse {
    default: AnySignal,
}

impl OrElse {
    /// The default value.
    pub closed spec fn default_spec(&self) -> SignalValue {
        self.default@
    }

    /// Creates a new `OrElse` processor with the given default value.
    pub fn new<S: Signal>(default: S) -> (r: Self)
        ensures
            r.default_spec() == S::sample_value(Some(default)),
    {
        OrElse { default: S::into_any(Some(default)) }
    }
}

impl Processor for OrElse {
    open spec fn name_spec(&self) -> Option<Seq<char>> {
        Some("OrElse"@)
    }

    open spec fn inputs_spec(&self) -> Option<Seq<(Seq<char>, SignalType)>> {
        Some(seq![("in"@, self.default_spec().signal_type())])
    }

    open spec fn outputs_spec(&self) -> Option<Seq<(Seq<char>, SignalType)>> {
        Some(seq![("out"@, self.default_spec().signal_type())])
    }

    open spec fn process_result(&self, inputs: ProcessorInputs, outputs: ProcessorOutputs) -> Option<Result<(), ProcessorError>> {
        Some(if io_counts(inputs, outputs, 1, 1) { Ok(()) } else { Err(io_count_error(inputs, 1)) })
    }

    fn name(&self) -> (r: &str)
        ensures
            r@ == "OrElse"@,
    {
        "OrElse"
    }

    fn input_spec(&self) -> (r: Vec<SignalSpec>)
        ensures
            r@.len() == 1,
            r@[0].name@ == "in"@,
            r@[0].signal_type == self.default_spec().signal_type(),
    {
        let mut v = Vec::new();
        v.push(SignalSpec::new("in", self.default.signal_type()));
        let v_out = v;
        proof { assert(signature(v_out@) =~= seq![("in"@, self.default_spec().signal_type())]); }
        v_out
    }

    fn output_spec(&self) -> (r: Vec<SignalSpec>)
        ensures
            r@.len() == 1,
            r@[0].name@ == "out"@,
            r@[0].signal_type == self.default_spec().signal_type(),
    {
        let mut v = Vec::new();
        v.push(SignalSpec::new("out", self.default.signal_type()));
        let v_out = v;
        proof { assert(signature(v_out@) =~= seq![("out"@, self.default_spec().signal_type())]); }
        v_out
    }

    fn process(&mut self, inputs: &ProcessorInputs, outputs: &mut ProcessorOutputs) -> (r: Result<(), ProcessorError>)
        ensures
            !io_counts(*inputs, *old(outputs), 1, 1) ==> r == Err::<(), ProcessorError>(io_count_error(*inputs, 1)) && old(outputs).same(final(outputs)) && *final(self) == *old(self),
            io_counts(*inputs, *old(outputs), 1, 1) ==> (r is Ok),
            io_counts(*inputs, *old(outputs), 1, 1) ==> (final(self).default_spec() == old(self).default_spec()),
            io_counts(*inputs, *old(outputs), 1, 1) ==> (({
                let cols = seq![inputs.input_any(0)];
                old(outputs).written_any(final(outputs), 0, run_steps(or_else_step_fn(old(self).default_spec()), (), cols, zip_len(cols)).1)
            })),
    {
        check_io_counts(inputs, outputs, 1, 1)?;
        let input = inputs.iter_input(0);
        let ghost cols = seq![inputs.input_any(0)];
        let ghost step = or_else_step_fn(self.default@);
        let n = input.len();
        proof { lemma_zip_len1(cols[0]); }
        let mut out: Vec<AnySignal> = Vec::new();
        let mut k: usize = 0;
        while k < n
            invariant
                k <= n,
                n == input@.len(),
                cols.len() == 1,
                cols[0] == input@.map_values(|o: Option<AnySignal>| opt_any_view(o)),
                n == zip_len(cols),
                step == or_else_step_fn(self.default@),
                out@.len() == k,
                run_steps(step, (), cols, k as nat).1.len() == k,
                forall|j: int| 0 <= j < k ==> (#[trigger] out@[j])@ == run_steps(step, (), cols, k as nat).1[j],
            decreases n - k,
        {
            proof {
                lemma_row1(cols[0], k as int);
                lemma_run_steps_next(step, (), cols, k as nat);
            }
            match &input[k] {
                Some(v) => {
                    if v.is_some() {
                        out.push(v.clone());
                    } else {
                        out.push(self.default.clone());
                    }
                },
                None => out.push(self.default.clone()),
            }
            k += 1;
        }
        proof {
            assert(out@.map_values(|v: AnySignal| v@) =~= run_steps(step, (), cols, n as nat).1);
        }
        outputs.iter_output(0, &out);
        Ok(())
    }
}

/// One sample of [`Dedup`] writing to an output of type `t`: an input that differs from the
/// last value passes; an equal or missing one gives nothing.
pub open spec fn dedup_step(last: SignalValue, t: SignalType, row: Seq<Option<SignalValue>>) -> ((), SignalValue) {
    match row[0] {
        Some(v) => if !signal_value_eq(last, v) { ((), v) } else { ((), SignalValue::none_of_type(t)) },
        None => ((), SignalValue::none_of_type(t)),
    }
}

/// [`Dedup`] passes an input that differs from its last value, and outputs the absent value
/// of its type where the input equals the last value or is not connected.
pub proof fn lemma_dedup_drops_repeats(last: SignalValue, t: SignalType, row: Seq<Option<SignalValue>>)
    requires
        row.len() >= 1,
    ensures
        (row[0] matches Some(v) && !signal_value_eq(last, v)) ==> dedup_step(last, t, row).1 == row[0]->0,
        (row[0] matches Some(v) && signal_value_eq(last, v)) ==> dedup_step(last, t, row).1 == SignalValue::none_of_type(t),
        row[0] is None ==> dedup_step(last, t, row).1 == SignalValue::none_of_type(t),
{
}

/// [`dedup_step`] as a step function.
pub open spec fn dedup_step_fn(last: SignalValue, t: SignalType) -> spec_fn((), Seq<Option<SignalValue>>) -> ((), SignalValue) {
    |st: (), row: Seq<Option<SignalValue>>| dedup_step(last, t, row)
}

/// A processor that deduplicates a signal by only outputting a value that differs from the
/// last value.
///
/// The last value is the absent value of the signal's type, set when the processor is
/// created; it is never replaced, so every present input passes.
#[derive(Clone, Debug)]
pub struct Dedup {
    last: AnySignal,
}

impl Dedup {
    /// The value inputs are compared with.
    pub closed spec fn last_spec(&self) -> SignalValue {
        self.last@
    }

    /// Creates a new `Dedup` processor.
    pub fn new(signal_type: SignalType) -> (r: Self)
        requires
            !(signal_type is Dynamic),
        ensures
            r.last_spec() == SignalValue::none_of_type(signal_type),
            r.last_spec().signal_type() == signal_type,
    {
        Dedup { last: AnySignal::default_of_type(&signal_type) }
    }
}

impl Processor for Dedup {
    open spec fn name_spec(&self) -> Option<Seq<char>> {
        Some("Dedup"@)
    }

    open spec fn inputs_spec(&self) -> Option<Seq<(Seq<char>, SignalType)>> {
        Some(seq![("in"@, self.last_spec().signal_type())])
    }

    open spec fn outputs_spec(&self) -> Option<Seq<(Seq<char>, SignalType)>> {
        Some(seq![("out"@, self.last_spec().signal_type())])
    }

    open spec fn process_result(&self, inputs: ProcessorInputs, outputs: ProcessorOutputs) -> Option<Result<(), ProcessorError>> {
        Some(if io_counts(inputs, outputs, 1, 1) { Ok(()) } else { Err(io_count_error(inputs, 1)) })
    }

    fn name(&self) -> (r: &str)
        ensures
            r@ == "Dedup"@,
    {
        "Dedup"
    }

    fn input_spec(&self) -> (r: Vec<SignalSpec>)
        ensures
            r@.len() == 1,
            r@[0].name@ == "in"@,
            r@[0].signal_type == self.last_spec().signal_type(),
    {
        let mut v = Vec::new();
        v.push(SignalSpec::new("in", self.last.signal_type()));
        let v_out = v;
        proof { assert(signature(v_out@) =~= seq![("in"@, self.last_spec().signal_type())]); }
        v_out
    }

    fn output_spec(&self) -> (r: Vec<SignalSpec>)
        ensures
            r@.len() == 1,
            r@[0].name@ == "out"@,
            r@[0].signal_type == self.last_spec().signal_type(),
    {
        let mut v = Vec::new();
        v.push(SignalSpec::new("out", self.last.signal_type()));
        let v_out = v;
        proof { assert(signature(v_out@) =~= seq![("out"@, self.last_spec().signal_type())]); }
        v_out
    }

    fn process(&mut self, inputs: &ProcessorInputs, outputs: &mut ProcessorOutputs) -> (r: Result<(), ProcessorError>)
        ensures
            !io_counts(*inputs, *old(outputs), 1, 1) ==> r == Err::<(), ProcessorError>(io_count_error(*inputs, 1)) && old(outputs).same(final(outputs)) && *final(self) == *old(self),
            io_counts(*inputs, *old(outputs), 1, 1) ==> (r is Ok),
            io_counts(*inputs, *old(outputs), 1, 1) ==> (final(self).last_spec() == old(self).last_spec()),
            io_counts(*inputs, *old(outputs), 1, 1) ==> (({
                let cols = seq![inputs.input_any(0)];
                let t = old(outputs).buffers()[0].signal_type();
                old(outputs).written_any(final(outputs), 0, run_steps(dedup_step_fn(old(self).last_spec(), t), (), cols, zip_len(cols)).1)
            })),
    {
        check_io_counts(inputs, outputs, 1, 1)?;
        let input = inputs.iter_input(0);
        let t = outputs.buffer(0).signal_type();
        let ghost cols = seq![inputs.input_any(0)];
        let ghost step = dedup_step_fn(self.last@, t);
        let n = input.len();
        proof { lemma_zip_len1(cols[0]); }
        let mut out: Vec<AnySignal> = Vec::new();
        let mut k: usize = 0;
        while k < n
            invariant
                k <= n,
                n == input@.len(),
                cols.len() == 1,
                cols[0] == input@.map_values(|o: Option<AnySignal>| opt_any_view(o)),
                n == zip_len(cols),
                !(t is Dynamic),
                step == dedup_step_fn(self.last@, t),
                out@.len() == k,
                run_steps(step, (), cols, k as nat).1.len() == k,
                forall|j: int| 0 <= j < k ==> (#[trigger] out@[j])@ == run_steps(step, (), cols, k as nat).1[j],
            decreases n - k,
        {
            proof {
                lemma_row1(cols[0], k as int);
                lemma_run_steps_next(step, (), cols, k as nat);
            }
            match &input[k] {
                Some(v) => {
                    if !self.last.signal_eq(v) {
                        out.push(v.clone());
                    } else {
                        out.push(AnySignal::default_of_type(&t));
                    }
                },
                None => out.push(AnySignal::default_of_type(&t)),
            }
            k += 1;
        }
        proof {
            assert(out@.map_values(|v: AnySignal| v@) =~= run_steps(step, (), cols, n as nat).1);
        }
        outputs.iter_output(0, &out);
        Ok(())
    }
}

/// One sample of [`Message`] writing to an output of type `t`: a present message input
/// replaces the stored message, and a `true` trigger outputs the stored message.
pub open spec fn message_step(msg: SignalValue, t: SignalType, row: Seq<Option<SignalValue>>) -> (SignalValue, SignalValue) {
    let m = match row[1] {
        Some(v) => v,
        None => msg,
    };
    (m, if row[0] == Some(SignalValue::Bool(Some(true))) { m } else { SignalValue::none_of_type(t) })
}

/// A message that arrives at [`Message`] is stored (else the stored one stays), and a `true`
/// trigger at the same sample already outputs the new message; without a `true` trigger the
/// output is the absent value of its type.
pub proof fn lemma_message_stores_then_sends(msg: SignalValue, t: SignalType, row: Seq<Option<SignalValue>>)
    requires
        row.len() >= 2,
    ensures
        row[1] matches Some(v) ==> message_step(msg, t, row).0 == v,
        row[1] is None ==> message_step(msg, t, row).0 == msg,
        row[0] == Some(SignalValue::Bool(Some(true))) ==> message_step(msg, t, row).1 == message_step(msg, t, row).0,
        row[0] != Some(SignalValue::Bool(Some(true))) ==> message_step(msg, t, row).1 == SignalValue::none_of_type(t),
{
}

/// [`message_step`] as a step function.
pub open spec fn message_step_fn(t: SignalType) -> spec_fn(SignalValue, Seq<Option<SignalValue>>) -> (SignalValue, SignalValue) {
    |msg: SignalValue, row: Seq<Option<SignalValue>>| message_step(msg, t, row)
}

/// Whether the message input of row `k` holds a message of another type than `mt`.
pub open spec fn message_mismatch(cols: Seq<Seq<Option<SignalValue>>>, mt: SignalType, k: int) -> bool {
    match cols[1][k] {
        Some(v) => v.signal_type() != mt,
        None => false,
    }
}

/// A processor that outputs its stored message when triggered; a message input replaces the
/// stored message.
#[derive(Clone, Debug)]
pub struct Message {
    message: AnySignal,
}

impl Message {
    /// The stored message.
    pub closed spec fn message_spec(&self) -> SignalValue {
        self.message@
    }

    /// Creates a new `Message` processor with the given message.
    pub fn new<S: Signal>(message: S) -> (r: Self)
        ensures
            r.message_spec() == S::sample_value(Some(message)),
    {
        Message::new_any(S::into_any(Some(message)))
    }

    /// Creates a new `Message` processor with the given message.
    pub fn new_any(message: AnySignal) -> (r: Self)
        ensures
            r.message_spec() == message@,
    {
        Message { message }
    }
}

impl Processor for Message {
    open spec fn name_spec(&self) -> Option<Seq<char>> {
        Some("Message"@)
    }

    open spec fn inputs_spec(&self) -> Option<Seq<(Seq<char>, SignalType)>> {
        Some(seq![("trig"@, SignalType::Bool), ("message"@, self.message_spec().signal_type())])
    }

    open spec fn outputs_spec(&self) -> Option<Seq<(Seq<char>, SignalType)>> {
        Some(seq![("out"@, self.message_spec().signal_type())])
    }

    fn name(&self) -> (r: &str)
        ensures
            r@ == "Message"@,
    {
        "Message"
    }

    fn input_spec(&self) -> (r: Vec<SignalSpec>)
        ensures
            r@.len() == 2,
            r@[0].name@ == "trig"@,
            r@[0].signal_type == SignalType::Bool,
            r@[1].name@ == "message"@,
            r@[1].signal_type == self.message_spec().signal_type(),
    {
        let mut v = Vec::new();
        v.push(SignalSpec::new("trig", SignalType::Bool));
        v.push(SignalSpec::new("message", self.message.signal_type()));
        let v_out = v;
        proof { assert(signature(v_out@) =~= seq![("trig"@, SignalType::Bool), ("message"@, self.message_spec().signal_type())]); }
        v_out
    }

    fn output_spec(&self) -> (r: Vec<SignalSpec>)
        ensures
            r@.len() == 1,
            r@[0].name@ == "out"@,
            r@[0].signal_type == self.message_spec().signal_type(),
    {
        let mut v = Vec::new();
        v.push(SignalSpec::new("out", self.message.signal_type()));
        let v_out = v;
        proof { assert(signature(v_out@) =~= seq![("out"@, self.message_spec().signal_type())]); }
        v_out
    }

    #[verifier::loop_isolation(false)]
    fn process(&mut self, inputs: &ProcessorInputs, outputs: &mut ProcessorOutputs) -> (r: Result<(), ProcessorError>)
        ensures
            !io_counts(*inputs, *old(outputs), 2, 1) ==> r == Err::<(), ProcessorError>(io_count_error(*inputs, 2)) && old(outputs).same(final(outputs)) && *final(self) == *old(self),
            io_counts(*inputs, *old(outputs), 2, 1) ==> (!inputs.input_ok::<bool>(0) ==> r == Err::<(), ProcessorError>(inputs.input_error::<bool>(0))
                && old(outputs).same(final(outputs)) && final(self).message_spec() == old(self).message_spec()),
            io_counts(*inputs, *old(outputs), 2, 1) ==> (inputs.input_ok::<bool>(0) ==> ({
                let cols = seq![some_col(inputs.input_read::<bool>(0)), inputs.input_any(1)];
                let n = min2(old(outputs).buffers()[0].len(), zip_len(cols));
                let mt = old(self).message_spec().signal_type();
                let t = old(outputs).buffers()[0].signal_type();
                &&& (forall|k: int| 0 <= k < n ==> !#[trigger] message_mismatch(cols, mt, k)) ==> {
                    let res = run_steps(message_step_fn(t), old(self).message_spec(), cols, n);
                    &&& r is Ok
                    &&& final(self).message_spec() == res.0
                    &&& old(outputs).written_any(final(outputs), 0, res.1)
                }
                &&& forall|k: int| 0 <= k < n && #[trigger] message_mismatch(cols, mt, k)
                        && (forall|j: int| 0 <= j < k ==> !message_mismatch(cols, mt, j)) ==> {
                    let res = run_steps(message_step_fn(t), old(self).message_spec(), cols, k as nat);
                    &&& r == Err::<(), ProcessorError>(ProcessorError::InputSpecMismatch {
                            index: 1, expected: mt, actual: cols[1][k]->0.signal_type() })
                    &&& final(self).message_spec() == res.0
                    &&& old(outputs).written_any(final(outputs), 0, res.1)
                }
            })),
    {
        check_io_counts(inputs, outputs, 2, 1)?;
        let trig = inputs.iter_input_as_bools(0)?;
        let msgs = inputs.iter_input(1);
        let t = outputs.buffer(0).signal_type();
        let out_len = outputs.buffer(0).len();
        let mt = self.message.signal_type();
        let ghost cols = seq![some_col(inputs.input_read::<bool>(0)), inputs.input_any(1)];
        let ghost step = message_step_fn(t);
        let m = if trig.len() < msgs.len() { trig.len() } else { msgs.len() };
        let n = if out_len < m { out_len } else { m };
        proof {
            lemma_zip_len2(cols[0], cols[1]);
            assert(cols[0] =~= trig@.map_values(|v: Option<bool>| Some(bool::sample_value(v))));
        }
        let ghost init = self.message@;
        let mut msg = self.message.clone();
        let mut out: Vec<AnySignal> = Vec::new();
        let mut k: usize = 0;
        while k < n
            invariant
                k <= n,
                n <= trig@.len(),
                n <= msgs@.len(),
                cols.len() == 2,
                cols[0] == trig@.map_values(|v: Option<bool>| Some(bool::sample_value(v))),
                cols[1] == msgs@.map_values(|o: Option<AnySignal>| opt_any_view(o)),
                n == min2(old(outputs).buffers()[0].len(), zip_len(cols)),
                !(t is Dynamic),
                step == message_step_fn(t),
                *outputs == *old(outputs),
                self.message@ == init,
                mt == init.signal_type(),
                msg@.signal_type() == mt,
                msg@ == run_steps(step, init, cols, k as nat).0,
                out@.len() == k,
                run_steps(step, init, cols, k as nat).1.len() == k,
                forall|j: int| 0 <= j < k ==> (#[trigger] out@[j])@ == run_steps(step, init, cols, k as nat).1[j],
                forall|j: int| 0 <= j < k ==> !#[trigger] message_mismatch(cols, mt, j),
            decreases n - k,
        {
            proof {
                lemma_row2(cols[0], cols[1], k as int);
                lemma_run_steps_next(step, init, cols, k as nat);
            }
            match &msgs[k] {
                Some(m) => {
                    let mty = m.signal_type();
                    if mty != mt {
                        proof {
                            assert(message_mismatch(cols, mt, k as int));
                            assert(out@.map_values(|v: AnySignal| v@) =~= run_steps(step, init, cols, k as nat).1);
                        }
                        outputs.iter_output(0, &out);
                        self.message = msg;
                        return Err(ProcessorError::InputSpecMismatch { index: 1, expected: mt, actual: mty });
                    }
                    msg = m.clone();
                },
                None => {},
            }
            if let Some(true) = trig[k] {
                out.push(msg.clone());
            } else {
                out.push(AnySignal::default_of_type(&t));
            }
            k += 1;
        }
        proof {
            assert(out@.map_values(|v: AnySignal| v@) =~= run_steps(step, init, cols, n as nat).1);
        }
        outputs.iter_output(0, &out);
        self.message = msg;
        Ok(())
    }
}



/// Whether a character is an ASCII decimal digit.
pub open spec fn is_digit(c: char) -> bool {
    48 <= c as int <= 57
}

/// The value of the decimal digits `d`.
pub open spec fn digits_value(d: Seq<char>) -> int
    decreases d.len(),
{
    if d.len() == 0 { 0 } else { digits_value(d.drop_last()) * 10 + (d.last() as int - 48) }
}

/// The text after an optional leading sign.
pub open spec fn int_digits(s: Seq<char>) -> Seq<char> {
    if s.len() > 0 && (s[0] == '-' || s[0] == '+') { s.skip(1) } else { s }
}

/// Whether every character is a decimal digit.
pub open spec fn all_digits(d: Seq<char>) -> bool {
    forall|i: int| 0 <= i < d.len() ==> is_digit(#[trigger] d[i])
}

/// What `str::parse::<i64>` gives: an optional `+` or `-`, then one or more decimal digits
/// whose value fits in an `i64`; `None` for anything else.
pub open spec fn int_parse(s: Seq<char>) -> Option<i64> {
    let digits = int_digits(s);
    let v = if s.len() > 0 && s[0] == '-' { -digits_value(digits) } else { digits_value(digits) };
    if digits.len() == 0 || !all_digits(digits) {
        None
    } else if i64::MIN <= v <= i64::MAX {
        Some(v as i64)
    } else {
        None
    }
}

/// The value of a longer run of digits is at least that of its prefix.
proof fn lemma_digits_value_grows(d: Seq<char>, k: int)
    requires
        0 <= k <= d.len(),
        forall|i: int| 0 <= i < d.len() ==> is_digit(#[trigger] d[i]),
    ensures
        digits_value(d.take(k)) <= digits_value(d),
        0 <= digits_value(d.take(k)),
    decreases d.len(),
{
    if d.len() > 0 && k < d.len() {
        let e = d.drop_last();
        assert(e.take(k) =~= d.take(k));
        assert forall|i: int| 0 <= i < e.len() implies is_digit(#[trigger] e[i]) by {
            assert(e[i] == d[i]);
        }
        lemma_digits_value_grows(e, k);
        lemma_digits_value_grows(e, e.len() as int);
        assert(e.take(e.len() as int) =~= e);
        assert(is_digit(d.last()));
    } else if d.len() > 0 {
        assert(d.take(k) =~= d);
        let e = d.drop_last();
        assert forall|i: int| 0 <= i < e.len() implies is_digit(#[trigger] e[i]) by {
            assert(e[i] == d[i]);
        }
        lemma_digits_value_grows(e, e.len() as int);
        assert(e.take(e.len() as int) =~= e);
        assert(is_digit(d.last()));
    } else {
        assert(d.take(k) =~= d);
    }
}

/// Parses an integer as `str::parse::<i64>` does.
pub fn parse_int(s: &str) -> (r: Option<i64>)
    ensures
        r == int_parse(s@),
{
    let n = s.unicode_len();
    if n == 0 {
        return None;
    }
    let c0 = s.get_char(0);
    let start: usize = if c0 == '-' || c0 == '+' { 1 } else { 0 };
    let ghost digits = if start == 1 { s@.skip(1) } else { s@ };
    proof {
        assert(s@[0] == c0);
        assert(start == 0 ==> digits =~= s@.skip(0));
        assert(digits == int_digits(s@));
    }
    if start >= n {
        proof {
            assert(digits.len() == 0);
            assert(int_parse(s@) is None);
        }
        return None;
    }
    let mut acc: i128 = 0;
    let mut i: usize = start;
    while i < n
        invariant
            start <= i <= n,
            n == s@.len(),
            start <= 1,
            digits == s@.skip(start as int),
            digits == int_digits(s@),
            c0 == s@[0],
            start == (if c0 == '-' || c0 == '+' { 1usize } else { 0usize }),
            acc == digits_value(digits.take(i - start)),
            0 <= acc <= 9223372036854775808,
            forall|j: int| 0 <= j < i - start ==> is_digit(#[trigger] digits[j]),
        decreases n - i,
    {
        let c = s.get_char(i);
        proof { assert(digits[i - start] == c); }
        if !(c >= '0' && c <= '9') {
            proof {
                assert(!is_digit(digits[i - start]));
                assert(!all_digits(digits));
            }
            return None;
        }
        let d: u32 = (c as u32) - 48;
        proof {
            assert(digits.take(i - start + 1).drop_last() =~= digits.take(i - start));
            assert(digits.take(i - start + 1).last() == c);
        }
        acc = acc * 10 + d as i128;
        if acc > 9223372036854775808 {
            proof {
                let k = i - start + 1;
                if all_digits(digits) {
                    lemma_digits_value_grows(digits, k);
                }
            }
            return None;
        }
        i += 1;
    }
    proof { assert(digits.take(n - start) =~= digits); }
    if c0 == '-' {
        Some((-acc) as i64)
    } else if acc > 9223372036854775807 {
        None
    } else {
        Some(acc as i64)
    }
}

/// The decimal text of an integer, with a leading `-` when it is negative.
pub open spec fn int_decimal(i: i64) -> Seq<char> {
    if i < 0 { seq!['-'] + decimal((-i) as nat) } else { decimal(i as nat) }
}

/// Formats an integer in decimal, as `i64::to_string` does.
pub fn int_to_string(i: i64) -> (r: String)
    ensures
        r@ == int_decimal(i),
{
    if i < 0 {
        let m: u64 = (-(i as i128)) as u64;
        let mut s = String::new();
        proof { reveal_strlit("-"); }
        s.append("-");
        let d = decimal_string(m);
        s.append(d.as_str());
        proof { assert(s@ =~= int_decimal(i)); }
        s
    } else {
        decimal_string(i as u64)
    }
}

/// The decimal text of `n` is a non-empty run of decimal digits whose value is `n`.
proof fn lemma_decimal_digits(n: nat)
    ensures
        decimal(n).len() >= 1,
        all_digits(decimal(n)),
        digits_value(decimal(n)) == n,
    decreases n,
{
    let d = decimal(n);
    if n < 10 {
        assert(d.drop_last() =~= Seq::<char>::empty());
        assert(digits_value(d.drop_last()) == 0);
    } else {
        lemma_decimal_digits(n / 10);
        assert(d.drop_last() =~= decimal(n / 10));
        assert forall|i: int| 0 <= i < d.len() implies is_digit(#[trigger] d[i]) by {
            if i < d.len() - 1 {
                assert(d[i] == decimal(n / 10)[i]);
            }
        }
    }
}

/// Parsing the decimal text of an integer gives the integer back: a string cast back to an
/// int undoes the cast of that int to a string.
pub proof fn lemma_int_parse_undoes_decimal(i: i64)
    ensures
        int_parse(int_decimal(i)) == Some(i),
        cast_exact(SignalValue::Int(Some(i)), SignalType::String) == Some(SignalValue::String(Some(int_decimal(i)))),
        cast_exact(SignalValue::String(Some(int_decimal(i))), SignalType::Int) == Some(SignalValue::Int(Some(i))),
{
    let s = int_decimal(i);
    if i < 0 {
        lemma_decimal_digits((-i) as nat);
        assert(s.skip(1) =~= decimal((-i) as nat));
    } else {
        lemma_decimal_digits(i as nat);
        assert(is_digit(s[0]));
    }
}

/// The conversions between doubles and other values that a cast needs. They compute on
/// floating-point numbers, which this library leaves to the program that uses it.
pub trait FloatCasts {
    /// The double nearest to `i`.
    fn int_to_float(i: i64) -> Float;

    /// The double rounded to the nearest integer.
    fn float_to_int(x: Float) -> i64;

    /// The decimal text of a double.
    fn float_to_string(x: Float) -> String;

    /// Parses a double, or gives `None`.
    fn parse_float(s: &str) -> Option<Float>;
}

/// The encoding of `1.0`.
pub const FLOAT_ONE_BITS: u64 = 0x3FF0_0000_0000_0000u64;

/// Whether a value of type `from` is cast to type `to` through the double conversions of
/// [`FloatCasts`]: int and float, float and string, either way.
pub open spec fn float_pair(from: SignalType, to: SignalType) -> bool {
    ||| (from is Int && to is Float) || (from is Float && to is Int)
    ||| (from is Float && to is String) || (from is String && to is Float)
}

/// Whether a value of type `from` is cast to type `to` by the library itself: the same
/// (non-`Dynamic`) type, bool and int, bool and float, string to int, int to string.
pub open spec fn exact_pair(from: SignalType, to: SignalType) -> bool {
    ||| from == to && !(from is Dynamic)
    ||| (from is Bool && to is Int) || (from is Int && to is Bool)
    ||| (from is Bool && to is Float) || (from is Float && to is Bool)
    ||| (from is String && to is Int) || (from is Int && to is String)
}

/// The cast of `v` to `to` for a pair [`exact_pair`] names: the value itself for the same
/// type, the absent value of `to` for an absent value, `1` and `0` (or `1.0` and `0.0`) for
/// booleans, `true` for a number that is not zero, the parsed text (`None` where it does not
/// parse) or the decimal text.
pub open spec fn cast_exact(v: SignalValue, to: SignalType) -> Option<SignalValue> {
    if v.signal_type() == to {
        Some(v)
    } else if !v.is_some() {
        Some(SignalValue::none_of_type(to))
    } else {
        match (v, to) {
            (SignalValue::Int(Some(i)), SignalType::Bool) => Some(SignalValue::Bool(Some(i != 0))),
            (SignalValue::Bool(Some(b)), SignalType::Int) => Some(SignalValue::Int(Some(if b { 1i64 } else { 0i64 }))),
            (SignalValue::Bool(Some(b)), SignalType::Float) => Some(SignalValue::Float(Some(Float { bits: if b { FLOAT_ONE_BITS } else { 0u64 } }))),
            (SignalValue::Float(Some(x)), SignalType::Bool) => Some(SignalValue::Bool(Some(!float_eq_spec(x.bits, 0)))),
            (SignalValue::String(Some(t)), SignalType::Int) => match int_parse(t) {
                Some(i) => Some(SignalValue::Int(Some(i))),
                None => None,
            },
            (SignalValue::Int(Some(i)), SignalType::String) => Some(SignalValue::String(Some(int_decimal(i)))),
            _ => None,
        }
    }
}

/// A present float cast to bool is `true` exactly when it is not equal to `0.0` (IEEE):
/// every non-zero float, negative ones and NaN included, gives `true`, and both zeros give
/// `false`. This is the only result a cast of such a value can have.
pub proof fn lemma_cast_float_to_bool(x: Float, c: Option<SignalValue>)
    ensures
        cast_exact(SignalValue::Float(Some(x)), SignalType::Bool)
            == Some(SignalValue::Bool(Some(float_magnitude(x.bits) != 0))),
        cast_result(SignalValue::Float(Some(x)), SignalType::Bool, c)
            ==> c == Some(SignalValue::Bool(Some(float_magnitude(x.bits) != 0))),
        x.bits >= FLOAT_SIGN_BIT && float_magnitude(x.bits) != 0
            ==> cast_exact(SignalValue::Float(Some(x)), SignalType::Bool) == Some(SignalValue::Bool(Some(true))),
{
}

/// An int cast to bool is `true` exactly when it is not `0`; a bool cast to int is `1` or `0`
/// and to float `1.0` or `0.0`, and either cast back to bool gives the bool again.
pub proof fn lemma_cast_bool_round_trips(b: bool, i: i64)
    ensures
        cast_exact(SignalValue::Int(Some(i)), SignalType::Bool) == Some(SignalValue::Bool(Some(i != 0))),
        cast_exact(SignalValue::Bool(Some(b)), SignalType::Int) == Some(SignalValue::Int(Some(if b { 1i64 } else { 0i64 }))),
        cast_exact(SignalValue::Bool(Some(b)), SignalType::Float)
            == Some(SignalValue::Float(Some(Float { bits: if b { 0x3FF0_0000_0000_0000u64 } else { 0u64 } }))),
        cast_exact(SignalValue::Bool(Some(b)), SignalType::Int) matches Some(v)
            && cast_exact(v, SignalType::Bool) == Some(SignalValue::Bool(Some(b))),
        cast_exact(SignalValue::Bool(Some(b)), SignalType::Float) matches Some(v)
            && cast_exact(v, SignalType::Bool) == Some(SignalValue::Bool(Some(b))),
{
}

/// Whether `c` is what casting `v` to `to` can give (`None`: the cast fails). For a pair
/// [`exact_pair`] names it is [`cast_exact`]; through [`FloatCasts`] it is a present value of
/// type `to` for a present value (or, parsing a text as a double, possibly a failure) and the
/// absent value of `to` for an absent one; any other pair fails.
pub open spec fn cast_result(v: SignalValue, to: SignalType, c: Option<SignalValue>) -> bool {
    if exact_pair(v.signal_type(), to) {
        c == cast_exact(v, to)
    } else if float_pair(v.signal_type(), to) {
        if !v.is_some() {
            c == Some(SignalValue::none_of_type(to))
        } else {
            &&& (c is None ==> v.signal_type() is String)
            &&& (c matches Some(x) ==> x.signal_type() == to && x.is_some())
        }
    } else {
        c is None
    }
}

/// What a cast writes for one input sample: nothing for an unconnected input, else the cast.
pub open spec fn cast_out(row: Option<SignalValue>, c: Option<SignalValue>, t: SignalType) -> SignalValue {
    match (row, c) {
        (Some(_), Some(x)) => x,
        _ => SignalValue::none_of_type(t),
    }
}

/// Whether the casts `res` fit the input samples `col` (unconnected samples need none).
pub open spec fn casts_fit(col: Seq<Option<SignalValue>>, to: SignalType, res: Seq<Option<SignalValue>>, k: int) -> bool {
    forall|j: int| 0 <= j < k ==> match #[trigger] col[j] {
        Some(v) => cast_result(v, to, res[j]),
        None => true,
    }
}

/// Whether sample `k` is connected and its cast failed.
pub open spec fn cast_failed(col: Seq<Option<SignalValue>>, res: Seq<Option<SignalValue>>, k: int) -> bool {
    col[k] is Some && res[k] is None
}

/// Whether a cast of `v` to `to` cannot fail.
pub open spec fn cast_succeeds(v: SignalValue, to: SignalType) -> bool {
    if exact_pair(v.signal_type(), to) {
        cast_exact(v, to) is Some
    } else if float_pair(v.signal_type(), to) {
        !(v.signal_type() is String && v.is_some())
    } else {
        false
    }
}

/// Casts one value (see [`cast_result`]).
pub fn cast_signal<C: FloatCasts>(v: &AnySignal, to: SignalType) -> (r: Option<AnySignal>)
    ensures
        cast_result(v@, to, opt_any_view(r)),
{
    let from = v.signal_type();
    if from == to {
        if to != SignalType::Dynamic {
            return Some(v.clone());
        }
    }
    let exact = match (from, to) {
        (SignalType::Bool, SignalType::Int) | (SignalType::Int, SignalType::Bool)
        | (SignalType::Bool, SignalType::Float) | (SignalType::Float, SignalType::Bool)
        | (SignalType::String, SignalType::Int) | (SignalType::Int, SignalType::String) => true,
        _ => false,
    };
    let through_float = match (from, to) {
        (SignalType::Int, SignalType::Float) | (SignalType::Float, SignalType::Int)
        | (SignalType::Float, SignalType::String) | (SignalType::String, SignalType::Float) => true,
        _ => false,
    };
    if !exact && !through_float {
        return None;
    }
    if !v.is_some() {
        return Some(AnySignal::default_of_type(&to));
    }
    match (v, to) {
        (AnySignal::Int(Some(i)), SignalType::Bool) => Some(AnySignal::Bool(Some(*i != 0))),
        (AnySignal::Bool(Some(b)), SignalType::Int) => Some(AnySignal::Int(Some(if *b { 1i64 } else { 0i64 }))),
        (AnySignal::Bool(Some(b)), SignalType::Float) => Some(AnySignal::Float(Some(Float::from_bits(if *b { FLOAT_ONE_BITS } else { 0u64 })))),
        (AnySignal::Float(Some(x)), SignalType::Bool) => Some(AnySignal::Bool(Some(!x.float_eq(&Float::zero())))),
        (AnySignal::String(Some(t)), SignalType::Int) => match parse_int(t.as_str()) {
            Some(i) => Some(AnySignal::Int(Some(i))),
            None => None,
        },
        (AnySignal::Int(Some(i)), SignalType::String) => Some(AnySignal::String(Some(int_to_string(*i)))),
        (AnySignal::Int(Some(i)), SignalType::Float) => Some(AnySignal::Float(Some(C::int_to_float(*i)))),
        (AnySignal::Float(Some(x)), SignalType::Int) => Some(AnySignal::Int(Some(C::float_to_int(*x)))),
        (AnySignal::Float(Some(x)), SignalType::String) => Some(AnySignal::String(Some(C::float_to_string(*x)))),
        (AnySignal::String(Some(t)), SignalType::Float) => match C::parse_float(t.as_str()) {
            Some(x) => Some(AnySignal::Float(Some(x))),
            None => None,
        },
        _ => None,
    }
}

/// A processor that casts its input to another signal type; `C` converts to and from
/// doubles.
pub struct Cast<C: FloatCasts> {
    from: SignalType,
    to: SignalType,
    marker: PhantomData<C>,
}

impl<C: FloatCasts> Cast<C> {
    /// The input type.
    pub closed spec fn from_spec(&self) -> SignalType {
        self.from
    }

    /// The output type.
    pub closed spec fn to_spec(&self) -> SignalType {
        self.to
    }

    /// Creates a new `Cast` processor from `from` to `to`.
    pub fn new(from: SignalType, to: SignalType) -> (r: Self)
        ensures
            r.from_spec() == from,
            r.to_spec() == to,
    {
        Cast { from, to, marker: PhantomData }
    }
}

impl<C: FloatCasts> Processor for Cast<C> {
    open spec fn name_spec(&self) -> Option<Seq<char>> {
        Some("Cast"@)
    }

    open spec fn inputs_spec(&self) -> Option<Seq<(Seq<char>, SignalType)>> {
        Some(seq![("in"@, self.from_spec())])
    }

    open spec fn outputs_spec(&self) -> Option<Seq<(Seq<char>, SignalType)>> {
        Some(seq![("out"@, self.to_spec())])
    }

    fn name(&self) -> (r: &str)
        ensures
            r@ == "Cast"@,
    {
        "Cast"
    }

    fn input_spec(&self) -> (r: Vec<SignalSpec>)
        ensures
            r@.len() == 1,
    {
        let mut v = Vec::new();
        v.push(SignalSpec::new("in", self.from));
        proof { assert(signature(v@) =~= seq![("in"@, self.from_spec())]); }
        v
    }

    fn output_spec(&self) -> (r: Vec<SignalSpec>)
        ensures
            r@.len() == 1,
    {
        let mut v = Vec::new();
        v.push(SignalSpec::new("out", self.to));
        proof { assert(signature(v@) =~= seq![("out"@, self.to_spec())]); }
        v
    }

    #[verifier::loop_isolation(false)]
    fn process(&mut self, inputs: &ProcessorInputs, outputs: &mut ProcessorOutputs) -> (r: Result<(), ProcessorError>)
        ensures
            *final(self) == *old(self),
            !io_counts(*inputs, *old(outputs), 1, 1) ==> r == Err::<(), ProcessorError>(io_count_error(*inputs, 1)) && old(outputs).same(final(outputs)),
            io_counts(*inputs, *old(outputs), 1, 1) ==> ({
                let col = inputs.input_any(0);
                let n = min2(old(outputs).buffers()[0].len(), col.len());
                let to = old(self).to_spec();
                let t = old(outputs).buffers()[0].signal_type();
                &&& r is Ok ==> exists|res: Seq<Option<SignalValue>>| res.len() == n
                        && #[trigger] casts_fit(col, to, res, n as int)
                        && (forall|k: int| 0 <= k < n ==> !cast_failed(col, res, k))
                        && old(outputs).written_any(final(outputs), 0, Seq::new(n, |k: int| cast_out(col[k], res[k], t)))
                &&& r is Err ==> exists|res: Seq<Option<SignalValue>>, k: int| 0 <= k < n && res.len() == k + 1
                        && #[trigger] casts_fit(col, to, res, k + 1) && cast_failed(col, res, k)
                        && (forall|j: int| 0 <= j < k ==> !cast_failed(col, res, j))
                        && r == Err::<(), ProcessorError>(ProcessorError::InvalidCast(col[k]->0.signal_type(), to))
                        && old(outputs).written_any(final(outputs), 0, Seq::new(k as nat, |j: int| cast_out(col[j], res[j], t)))
                &&& (forall|k: int| 0 <= k < n ==> match #[trigger] col[k] { Some(v) => cast_succeeds(v, to), None => true }) ==> r is Ok
            }),
    {
        check_io_counts(inputs, outputs, 1, 1)?;
        let input = inputs.iter_input(0);
        let t = outputs.buffer(0).signal_type();
        let out_len = outputs.buffer(0).len();
        let to = self.to;
        let ghost col = inputs.input_any(0);
        let n = if out_len < input.len() { out_len } else { input.len() };
        let ghost mut res: Seq<Option<SignalValue>> = Seq::empty();
        let mut out: Vec<AnySignal> = Vec::new();
        let mut k: usize = 0;
        while k < n
            invariant
                k <= n,
                n <= input@.len(),
                col == input@.map_values(|o: Option<AnySignal>| opt_any_view(o)),
                n == min2(old(outputs).buffers()[0].len(), col.len()),
                !(t is Dynamic),
                t == old(outputs).buffers()[0].signal_type(),
                *outputs == *old(outputs),
                *self == *old(self),
                to == self.to_spec(),
                res.len() == k,
                out@.len() == k,
                casts_fit(col, to, res, k as int),
                forall|j: int| 0 <= j < k ==> !cast_failed(col, res, j),
                forall|j: int| 0 <= j < k ==> (#[trigger] out@[j])@ == cast_out(col[j], res[j], t),
            decreases n - k,
        {
            let ghost res0 = res;
            match &input[k] {
                Some(v) => {
                    let c = cast_signal::<C>(v, to);
                    proof {
                        res = res.push(opt_any_view(c));
                        assert(col[k as int] == Some(v@));
                        assert forall|j: int| 0 <= j < k implies res[j] == res0[j] && !cast_failed(col, res, j) by {
                            assert(!cast_failed(col, res0, j));
                        }
                        assert forall|j: int| 0 <= j < k + 1 implies match #[trigger] col[j] {
                            Some(w) => cast_result(w, to, res[j]),
                            None => true,
                        } by {
                            if j < k {
                                assert(casts_fit(col, to, res.drop_last(), k as int));
                                assert(res.drop_last()[j] == res[j]);
                            }
                        }
                    }
                    match c {
                        Some(x) => out.push(x),
                        None => {
                            proof {
                                assert(cast_failed(col, res, k as int));
                                assert(!cast_succeeds(v@, to));
                                assert(casts_fit(col, to, res, k as int + 1));
                                let ghost kk = k as int;
                                assert(!match col[kk] { Some(w) => cast_succeeds(w, to), None => true });
                                assert(out@.map_values(|v: AnySignal| v@) =~= Seq::new(k as nat, |j: int| cast_out(col[j], res[j], t)));
                                assert(forall|j: int| 0 <= j < k ==> !cast_failed(col, res, j));
                            }
                            outputs.iter_output(0, &out);
                            return Err(ProcessorError::InvalidCast(v.signal_type(), to));
                        },
                    }
                },
                None => {
                    proof {
                        res = res.push(None);
                        assert forall|j: int| 0 <= j < k implies res[j] == res0[j] && !cast_failed(col, res, j) by {
                            assert(!cast_failed(col, res0, j));
                        }
                        assert forall|j: int| 0 <= j < k + 1 implies match #[trigger] col[j] {
                            Some(w) => cast_result(w, to, res[j]),
                            None => true,
                        } by {
                            if j < k {
                                assert(res.drop_last()[j] == res[j]);
                            }
                        }
                    }
                    out.push(AnySignal::default_of_type(&t));
                },
            }
            k += 1;
        }
        proof {
            assert(out@.map_values(|v: AnySignal| v@) =~= Seq::new(n as nat, |j: int| cast_out(col[j], res[j], t)));
        }
        outputs.iter_output(0, &out);
        Ok(())
    }
}

} // verus!
