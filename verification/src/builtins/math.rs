//! Processors that produce or compute values.

use vstd::prelude::*;

use crate::processor::{signature, check_io_counts, io_count_error, io_counts, ProcessMode, Processor, ProcessorError, ProcessorInputs, ProcessorOutputs, SignalSpec};
use crate::signal::{AnySignal, Signal, SignalType, SignalValue};

verus! {

/// A processor that outputs a constant value.
#[derive(Clone, Debug)]
pub struct Constant {
    value: AnySignal,
}

impl Constant {
    /// The constant value.
    pub closed spec fn value_spec(&self) -> SignalValue {
        self.value@
    }

    /// Creates a new `Constant` processor with the given value.
    pub fn new<S: Signal>(value: S) -> (r: Self)
        ensures
            r.value_spec() == S::sample_value(Some(value)),
    {
        Constant::new_any(S::into_any(Some(value)))
    }

    /// Creates a new `Constant` processor with the given value.
    pub fn new_any(value: AnySignal) -> (r: Self)
        ensures
            r.value_spec() == value@,
    {
        Constant { value }
    }
}

impl Processor for Constant {
    open spec fn name_spec(&self) -> Option<Seq<char>> {
        Some("Constant"@)
    }

    open spec fn inputs_spec(&self) -> Option<Seq<(Seq<char>, SignalType)>> {
        Some(Seq::<(Seq<char>, SignalType)>::empty())
    }

    open spec fn outputs_spec(&self) -> Option<Seq<(Seq<char>, SignalType)>> {
        Some(seq![("out"@, self.value_spec().signal_type())])
    }

    open spec fn process_result(&self, inputs: ProcessorInputs, outputs: ProcessorOutputs) -> Option<Result<(), ProcessorError>> {
        Some(if io_counts(inputs, outputs, 0, 1) { Ok(()) } else { Err(io_count_error(inputs, 0)) })
    }

    fn name(&self) -> (r: &str)
        ensures
            r@ == "Constant"@,
    {
        "Constant"
    }

    fn input_spec(&self) -> (r: Vec<SignalSpec>)
        ensures
            r@.len() == 0,
    {
        let v_out = Vec::new();
        proof { assert(signature(v_out@) =~= Seq::<(Seq<char>, SignalType)>::empty()); }
        v_out
    }

    fn output_spec(&self) -> (r: Vec<SignalSpec>)
        ensures
            r@.len() == 1,
            r@[0].name@ == "out"@,
            r@[0].signal_type == self.value_spec().signal_type(),
    {
        let mut v = Vec::new();
        v.push(SignalSpec::new("out", self.value.signal_type()));
        let v_out = v;
        proof { assert(signature(v_out@) =~= seq![("out"@, self.value_spec().signal_type())]); }
        v_out
    }

    fn process(&mut self, inputs: &ProcessorInputs, outputs: &mut ProcessorOutputs) -> (r: Result<(), ProcessorError>)
        ensures
            !io_counts(*inputs, *old(outputs), 0, 1) ==> r == Err::<(), ProcessorError>(io_count_error(*inputs, 0)) && old(outputs).same(final(outputs)) && *final(self) == *old(self),
            io_counts(*inputs, *old(outputs), 0, 1) ==> (r is Ok),
            io_counts(*inputs, *old(outputs), 0, 1) ==> (final(self).value_spec() == old(self).value_spec()),
            io_counts(*inputs, *old(outputs), 0, 1) ==> (old(outputs).written_any(final(outputs), 0,
                Seq::new(old(outputs).buffers()[0].len(), |j: int| old(self).value_spec()))),
    {
        check_io_counts(inputs, outputs, 0, 1)?;
        let n = outputs.buffer(0).len();
        let mut out: Vec<AnySignal> = Vec::new();
        let mut k: usize = 0;
        while k < n
            invariant
                k <= n,
                out@.len() == k,
                forall|j: int| 0 <= j < k ==> (#[trigger] out@[j])@ == self.value@,
            decreases n - k,
        {
            out.push(self.value.clone());
            k += 1;
        }
        proof {
            assert(out@.map_values(|v: AnySignal| v@) =~= Seq::new(n as nat, |j: int| self.value@));
        }
        outputs.iter_output(0, &out);
        Ok(())
    }
}

} // verus!
