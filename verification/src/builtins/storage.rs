//! Storage-related processors.

use vstd::prelude::*;

use crate::builtins::time::min2;
use crate::builtins::{lemma_row2, lemma_run_steps_next, lemma_zip_len2, run_steps, some_col, zip_len};
use crate::processor::{signature, check_io_counts, io_count_error, io_counts, Processor, ProcessorError, ProcessorInputs, ProcessorOutputs, SignalSpec};
use crate::signal::{AnySignal, Signal, SignalType, SignalValue, opt_any_view};

verus! {

/// One sample of [`Register`]: a present input replaces the stored value, any present clear
/// signal then makes it absent, and the stored value is output.
pub open spec fn register_step(value: SignalValue, row: Seq<Option<SignalValue>>) -> (SignalValue, SignalValue) {
    let v1 = match row[0] {
        Some(v) => v,
        None => value,
    };
    let v2 = match row[1] {
        Some(SignalValue::Bool(Some(_))) => SignalValue::none_of_type(v1.signal_type()),
        _ => v1,
    };
    (v2, v2)
}

/// At any sample where the clear input holds a present bool, [`Register`] outputs and keeps
/// an absent value (of the type of the value that was set or stored), whatever the set input
/// holds; at any other sample it outputs and keeps the value set at that sample, or the
/// stored value where none was set.
pub proof fn lemma_register_clear_wins(value: SignalValue, row: Seq<Option<SignalValue>>)
    requires
        row.len() >= 2,
    ensures
        ({
            let r = register_step(value, row);
            let v1 = match row[0] {
                Some(v) => v,
                None => value,
            };
            &&& r.0 == r.1
            &&& row[1] matches Some(SignalValue::Bool(Some(_))) ==> !r.1.is_some() && r.1.signal_type() == v1.signal_type()
            &&& !(row[1] matches Some(SignalValue::Bool(Some(_)))) ==> r.1 == v1
        }),
{
}

/// [`register_step`] as a step function.
pub open spec fn register_step_fn() -> spec_fn(SignalValue, Seq<Option<SignalValue>>) -> (SignalValue, SignalValue) {
    |value: SignalValue, row: Seq<Option<SignalValue>>| register_step(value, row)
}

/// A processor that stores the last value it received and continuously outputs it; a clear
/// signal makes the stored value absent.
#[derive(Clone, Debug)]
pub struct Register {
    value: AnySignal,
}

impl Register {
    /// The stored value.
    pub closed spec fn value_spec(&self) -> SignalValue {
        self.value@
    }

    /// Creates a new `Register` processor storing the absent value of the given type.
    pub fn new(signal_type: SignalType) -> (r: Self)
        requires
            !(signal_type is Dynamic),
        ensures
            r.value_spec() == SignalValue::none_of_type(signal_type),
            r.value_spec().signal_type() == signal_type,
    {
        Register { value: AnySignal::default_of_type(&signal_type) }
    }
}

impl Processor for Register {
    open spec fn name_spec(&self) -> Option<Seq<char>> {
        Some("Register"@)
    }

    open spec fn inputs_spec(&self) -> Option<Seq<(Seq<char>, SignalType)>> {
        Some(seq![("set"@, self.value_spec().signal_type()), ("clear"@, SignalType::Bool)])
    }

    open spec fn outputs_spec(&self) -> Option<Seq<(Seq<char>, SignalType)>> {
        Some(seq![("out"@, self.value_spec().signal_type())])
    }

    open spec fn process_result(&self, inputs: ProcessorInputs, outputs: ProcessorOutputs) -> Option<Result<(), ProcessorError>> {
        Some(if !io_counts(inputs, outputs, 2, 1) {
            Err(io_count_error(inputs, 2))
        } else if !inputs.input_ok::<bool>(1) {
            Err(inputs.input_error::<bool>(1))
        } else {
            Ok(())
        })
    }

    fn name(&self) -> (r: &str)
        ensures
            r@ == "Register"@,
    {
        "Register"
    }

    fn input_spec(&self) -> (r: Vec<SignalSpec>)
        ensures
            r@.len() == 2,
            r@[0].name@ == "set"@,
            r@[0].signal_type == self.value_spec().signal_type(),
            r@[1].name@ == "clear"@,
            r@[1].signal_type == SignalType::Bool,
    {
        let mut v = Vec::new();
        v.push(SignalSpec::new("set", self.value.signal_type()));
        v.push(SignalSpec::new("clear", SignalType::Bool));
        let v_out = v;
        proof { assert(signature(v_out@) =~= seq![("set"@, self.value_spec().signal_type()), ("clear"@, SignalType::Bool)]); }
        v_out
    }

    fn output_spec(&self) -> (r: Vec<SignalSpec>)
        ensures
            r@.len() == 1,
            r@[0].name@ == "out"@,
            r@[0].signal_type == self.value_spec().signal_type(),
    {
        let mut v = Vec::new();
        v.push(SignalSpec::new("out", self.value.signal_type()));
        let v_out = v;
        proof { assert(signature(v_out@) =~= seq![("out"@, self.value_spec().signal_type())]); }
        v_out
    }

    fn process(&mut self, inputs: &ProcessorInputs, outputs: &mut ProcessorOutputs) -> (r: Result<(), ProcessorError>)
        ensures
            !io_counts(*inputs, *old(outputs), 2, 1) ==> r == Err::<(), ProcessorError>(io_count_error(*inputs, 2)) && old(outputs).same(final(outputs)) && *final(self) == *old(self),
            io_counts(*inputs, *old(outputs), 2, 1) ==> (!inputs.input_ok::<bool>(1) ==> r == Err::<(), ProcessorError>(inputs.input_error::<bool>(1))
                && old(outputs).same(final(outputs)) && final(self).value_spec() == old(self).value_spec()),
            io_counts(*inputs, *old(outputs), 2, 1) ==> (inputs.input_ok::<bool>(1) ==> ({
                let cols = seq![inputs.input_any(0), some_col(inputs.input_read::<bool>(1))];
                let res = run_steps(register_step_fn(), old(self).value_spec(), cols, min2(old(outputs).buffers()[0].len(), zip_len(cols)));
                &&& r is Ok
                &&& final(self).value_spec() == res.0
                &&& old(outputs).written_any(final(outputs), 0, res.1)
            })),
    {
        check_io_counts(inputs, outputs, 2, 1)?;
        let set = inputs.iter_input(0);
        let clear = inputs.iter_input_as_bools(1)?;
        let out_len = outputs.buffer(0).len();
        let ghost cols = seq![inputs.input_any(0), some_col(inputs.input_read::<bool>(1))];
        let m = if set.len() < clear.len() { set.len() } else { clear.len() };
        let n = if out_len < m { out_len } else { m };
        proof {
            lemma_zip_len2(cols[0], cols[1]);
            assert(cols[1] =~= clear@.map_values(|v: Option<bool>| Some(bool::sample_value(v))));
        }
        let ghost init = self.value@;
        let mut value = self.value.clone();
        let mut out: Vec<AnySignal> = Vec::new();
        let mut k: usize = 0;
        while k < n
            invariant
                k <= n,
                n <= set@.len(),
                n <= clear@.len(),
                cols.len() == 2,
                cols[0] == set@.map_values(|o: Option<AnySignal>| opt_any_view(o)),
                cols[1] == clear@.map_values(|v: Option<bool>| Some(bool::sample_value(v))),
                n == min2(old(outputs).buffers()[0].len(), zip_len(cols)),
                value@ == run_steps(register_step_fn(), init, cols, k as nat).0,
                out@.len() == k,
                run_steps(register_step_fn(), init, cols, k as nat).1.len() == k,
                forall|j: int| 0 <= j < k ==> (#[trigger] out@[j])@ == run_steps(register_step_fn(), init, cols, k as nat).1[j],
            decreases n - k,
        {
            proof {
                lemma_row2(cols[0], cols[1], k as int);
                lemma_run_steps_next(register_step_fn(), init, cols, k as nat);
            }
            match &set[k] {
                Some(v) => { value = v.clone(); },
                None => {},
            }
            if clear[k].is_some() {
                value.set_none();
            }
            out.push(value.clone());
            k += 1;
        }
        proof {
            assert(out@.map_values(|v: AnySignal| v@) =~= run_steps(register_step_fn(), init, cols, n as nat).1);
        }
        outputs.iter_output(0, &out);
        self.value = value;
        Ok(())
    }
}

} // verus!
