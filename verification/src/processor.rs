//! The processor interface: specifications of inputs and outputs, and typed access to
//! the sample blocks a processor reads and writes.

use vstd::prelude::*;

use crate::signal::{
    AnySignal, BufferValue, Float, List, MidiMessage, Signal, SignalBuffer, SignalType,
    SignalValue, lemma_buffer_ext, lemma_buffer_with_at, opt_any_view,
};

verus! {

/// Error type for [`Processor`] operations.
#[derive(Debug, Clone)]
pub enum ProcessorError {
    /// The number of inputs does not match the processor's inputs.
    NumInputsMismatch,
    /// The number of outputs does not match the processor's outputs.
    NumOutputsMismatch,
    /// An input buffer does not have the expected signal type.
    InputSpecMismatch { index: usize, expected: SignalType, actual: SignalType },
    /// An output buffer does not have the expected signal type.
    OutputSpecMismatch { index: usize, expected: SignalType, actual: SignalType },
    /// An invalid value was encountered.
    InvalidValue(&'static str),
    /// A value could not be cast from one signal type to another.
    InvalidCast(SignalType, SignalType),
}

/// Information about an input or output of a [`Processor`].
#[derive(Debug)]
pub struct SignalSpec {
    /// The name of the input or output.
    pub name: String,
    /// The type of the input or output.
    pub signal_type: SignalType,
}

impl SignalSpec {
    /// Creates a new [`SignalSpec`] with the given name and type.
    pub fn new(name: &str, signal_type: SignalType) -> (r: SignalSpec)
        ensures
            r.name@ == name@,
            r.signal_type == signal_type,
    {
        SignalSpec { name: name.to_owned(), signal_type }
    }

    /// Creates a new [`SignalSpec`] with the given owned name and type.
    pub fn with_name(name: String, signal_type: SignalType) -> (r: SignalSpec)
        ensures
            r.name@ == name@,
            r.signal_type == signal_type,
    {
        SignalSpec { name, signal_type }
    }
}

impl Clone for SignalSpec {
    fn clone(&self) -> (r: Self)
        ensures
            r.name@ == self.name@,
            r.signal_type == self.signal_type,
    {
        SignalSpec { name: self.name.clone(), signal_type: self.signal_type }
    }
}

impl Default for SignalSpec {
    fn default() -> (r: Self)
        ensures
            r.name@ == Seq::<char>::empty(),
            r.signal_type == SignalType::Float,
    {
        SignalSpec { name: String::new(), signal_type: SignalType::Float }
    }
}

/// The mode in which a processor should process signals.
#[derive(Debug, Clone, Copy, PartialEq, Eq, Structural)]
pub enum ProcessMode {
    /// The processor processes the entire block of samples at once.
    Block,
    /// The processor processes the one sample at the given index of the block.
    Sample(usize),
}

/// The number of samples a read addresses in a mode: the whole block, or one sample.
pub open spec fn addressed_len(mode: ProcessMode, block_size: nat) -> nat {
    match mode {
        ProcessMode::Block => block_size,
        ProcessMode::Sample(_) => 1,
    }
}

/// The first sample a mode addresses.
pub open spec fn addressed_start(mode: ProcessMode) -> int {
    match mode {
        ProcessMode::Block => 0,
        ProcessMode::Sample(i) => i as int,
    }
}

/// Whether a buffer is long enough for the mode: in sample mode it must hold the sample.
pub open spec fn fits_mode(mode: ProcessMode, b: BufferValue) -> bool {
    match mode {
        ProcessMode::Block => true,
        ProcessMode::Sample(i) => i < b.len(),
    }
}

/// The samples of `b` that a read in `mode` yields.
pub open spec fn read_samples(mode: ProcessMode, b: BufferValue) -> Seq<SignalValue> {
    match mode {
        ProcessMode::Block => Seq::new(b.len(), |j: int| b.at(j)),
        ProcessMode::Sample(i) => seq![b.at(i as int)],
    }
}

/// Whether sample `j` of a buffer of length `len` is written by a write of `n` values in `mode`.
pub open spec fn written_at(mode: ProcessMode, len: nat, n: nat, j: int) -> bool {
    match mode {
        ProcessMode::Block => 0 <= j < len && j < n,
        ProcessMode::Sample(i) => j == i && i < len && n >= 1,
    }
}

/// The buffer `b` after writing `values` (taken in order from the first addressed sample) in `mode`.
pub open spec fn write_result(old_b: BufferValue, new_b: BufferValue, mode: ProcessMode, values: Seq<SignalValue>) -> bool {
    &&& new_b.len() == old_b.len()
    &&& new_b.signal_type() == old_b.signal_type()
    &&& forall|j: int| 0 <= j < old_b.len() ==> #[trigger] new_b.at(j) == (
        if written_at(mode, old_b.len(), values.len(), j) { values[j - addressed_start(mode)] } else { old_b.at(j) })
}

/// Like [`write_result`], but a value of another type than the buffer leaves its sample unchanged.
pub open spec fn write_any_result(old_b: BufferValue, new_b: BufferValue, mode: ProcessMode, values: Seq<SignalValue>) -> bool {
    &&& new_b.len() == old_b.len()
    &&& new_b.signal_type() == old_b.signal_type()
    &&& forall|j: int| 0 <= j < old_b.len() ==> #[trigger] new_b.at(j) == (
        if written_at(mode, old_b.len(), values.len(), j) && values[j - addressed_start(mode)].signal_type() == old_b.signal_type() {
            values[j - addressed_start(mode)]
        } else {
            old_b.at(j)
        })
}

/// The buffer `b` after writing `v` at sample `sample` in block mode, or at the addressed
/// sample in sample mode; unchanged when that position is out of range (and, by
/// [`BufferValue::with_at`], when `v` has another type).
pub open spec fn set_result(b: BufferValue, mode: ProcessMode, sample: int, v: SignalValue) -> BufferValue {
    let pos = match mode {
        ProcessMode::Sample(i) => i as int,
        ProcessMode::Block => sample,
    };
    if 0 <= pos < b.len() { b.with_at(pos, v) } else { b }
}

/// A collection of input signals for a [`Processor`] and their specifications.
#[derive(Clone, Copy)]
pub struct ProcessorInputs<'a, 'b> {
    input_specs: &'a [SignalSpec],
    inputs: &'a [Option<&'b SignalBuffer>],
    mode: ProcessMode,
    sample_rate: Float,
    block_size: usize,
}

impl<'a, 'b> ProcessorInputs<'a, 'b> {
    /// The input buffers (`None` for an unconnected input).
    pub closed spec fn buffers(self) -> Seq<Option<&'b SignalBuffer>> {
        self.inputs@
    }

    /// The input specifications.
    pub closed spec fn specs(self) -> Seq<SignalSpec> {
        self.input_specs@
    }

    /// The processing mode.
    pub closed spec fn mode_spec(self) -> ProcessMode {
        self.mode
    }

    /// The block size.
    pub closed spec fn block_size_spec(self) -> nat {
        self.block_size as nat
    }

    /// The sample rate.
    pub closed spec fn sample_rate_spec(self) -> Float {
        self.sample_rate
    }

    /// The values of the input buffers (`None` for an unconnected input).
    pub open spec fn buffer_values(self) -> Seq<Option<BufferValue>> {
        self.buffers().map_values(|o: Option<&SignalBuffer>| match o {
            Some(b) => Some(b@),
            None => None,
        })
    }

    /// Every connected input buffer holds the sample the mode addresses.
    pub open spec fn wf(self) -> bool {
        forall|k: int| 0 <= k < self.buffers().len() && (#[trigger] self.buffers()[k]) is Some
            ==> fits_mode(self.mode_spec(), self.buffers()[k]->0@)
    }

    /// Creates the inputs of one processing call.
    pub fn new(
        input_specs: &'a [SignalSpec],
        inputs: &'a [Option<&'b SignalBuffer>],
        mode: ProcessMode,
        sample_rate: Float,
        block_size: usize,
    ) -> (r: Self)
        ensures
            r.buffers() == inputs@,
            r.specs() == input_specs@,
            r.mode_spec() == mode,
            r.sample_rate_spec() == sample_rate,
            r.block_size_spec() == block_size,
    {
        ProcessorInputs { input_specs, inputs, mode, sample_rate, block_size }
    }

    /// Returns the number of input buffers handed to the processor.
    pub fn num_buffers(&self) -> (r: usize)
        ensures
            r == self.buffers().len(),
    {
        self.inputs.len()
    }

    /// Returns the number of input signals.
    pub fn num_inputs(&self) -> (r: usize)
        ensures
            r == self.specs().len(),
    {
        self.input_specs.len()
    }

    /// Returns the specification of the input signal at the given index.
    pub fn input_spec(&self, index: usize) -> (r: &SignalSpec)
        requires
            index < self.specs().len(),
        ensures
            *r == self.specs()[index as int],
    {
        &self.input_specs[index]
    }

    /// Returns the processing mode.
    pub fn mode(&self) -> (r: ProcessMode)
        ensures
            r == self.mode_spec(),
    {
        self.mode
    }

    /// Returns the current sample rate.
    pub fn sample_rate(&self) -> (r: Float)
        ensures
            r == self.sample_rate_spec(),
    {
        self.sample_rate
    }

    /// Returns the current block size.
    pub fn block_size(&self) -> (r: usize)
        ensures
            r == self.block_size_spec(),
    {
        self.block_size
    }

    /// Returns the number of samples a read of an unconnected input yields.
    pub fn addressed_len(&self) -> (r: usize)
        ensures
            r == addressed_len(self.mode_spec(), self.block_size_spec()),
    {
        match self.mode {
            ProcessMode::Block => self.block_size,
            ProcessMode::Sample(_) => 1,
        }
    }

    /// Returns the input signal at the given index; unconnected or missing inputs are `None`.
    pub fn input(&self, index: usize) -> (r: Option<&'b SignalBuffer>)
        ensures
            index < self.buffers().len() ==> r == self.buffers()[index as int],
            index >= self.buffers().len() ==> r is None,
    {
        if index < self.inputs.len() {
            self.inputs[index]
        } else {
            None
        }
    }

    /// Returns the samples of the input at `index` that the mode addresses, or, for an
    /// unconnected input, one absent value per addressed sample.
    pub fn iter_input(&self, index: usize) -> (r: Vec<Option<AnySignal>>)
        requires
            index < self.buffers().len(),
            self.wf(),
        ensures
            r@.len() == self.input_any(index).len(),
            r@.map_values(|o: Option<AnySignal>| opt_any_view(o)) == self.input_any(index),
    {
        let mut r: Vec<Option<AnySignal>> = Vec::new();
        match self.inputs[index] {
            None => {
                let n = self.addressed_len();
                let mut k: usize = 0;
                while k < n
                    invariant
                        k <= n,
                        r@.len() == k,
                        forall|j: int| 0 <= j < r@.len() ==> #[trigger] r@[j] is None,
                    decreases n - k,
                {
                    r.push(None);
                    k += 1;
                }
            },
            Some(buffer) => {
                assert(fits_mode(self.mode, buffer@));
                match self.mode {
                    ProcessMode::Sample(i) => {
                        r.push(buffer.get(i));
                    },
                    ProcessMode::Block => {
                        let n = buffer.len();
                        let mut k: usize = 0;
                        while k < n
                            invariant
                                k <= n,
                                n == buffer@.len(),
                                r@.len() == k,
                                forall|j: int| 0 <= j < r@.len() ==> opt_any_view(#[trigger] r@[j]) == Some(buffer@.at(j)),
                            decreases n - k,
                        {
                            r.push(buffer.get(k));
                            k += 1;
                        }
                    },
                }
            },
        }
        proof {
            assert(r@.map_values(|o: Option<AnySignal>| opt_any_view(o)) =~= self.input_any(index));
        }
        r
    }

    /// Returns the samples of the input at `index` that the mode addresses, if the input
    /// holds signals of type `S`; an unconnected input yields one absent value per addressed
    /// sample.
    pub fn iter_input_as<S: Signal>(&self, index: usize) -> (r: Result<Vec<Option<S>>, ProcessorError>)
        requires
            index < self.buffers().len(),
            self.wf(),
        ensures
            self.iter_input_as_post(index, r),
    {
        let mut r: Vec<Option<S>> = Vec::new();
        match self.inputs[index] {
            None => {
                let n = self.addressed_len();
                let mut k: usize = 0;
                while k < n
                    invariant
                        k <= n,
                        r@.len() == k,
                        forall|j: int| 0 <= j < r@.len() ==> #[trigger] r@[j] is None,
                    decreases n - k,
                {
                    r.push(None);
                    k += 1;
                }
                proof {
                    assert(r@.map_values(|v: Option<S>| S::sample_value(v)) =~= self.input_read::<S>(index));
                }
                Ok(r)
            },
            Some(buffer) => {
                let actual = buffer.signal_type();
                let expected = S::signal_type();
                if !actual.is_compatible_with(&expected) {
                    return Err(ProcessorError::InputSpecMismatch { index, expected, actual });
                }
                assert(fits_mode(self.mode, buffer@));
                let samples = S::samples_of(buffer);
                let samples = match samples {
                    Some(v) => v,
                    None => { return Err(ProcessorError::InputSpecMismatch { index, expected, actual }); },
                };
                match self.mode {
                    ProcessMode::Sample(i) => {
                        r.push(S::copy_sample(&samples[i]));
                    },
                    ProcessMode::Block => {
                        let n = samples.len();
                        let mut k: usize = 0;
                        while k < n
                            invariant
                                k <= n,
                                n == buffer@.len(),
                                samples@.len() == n,
                                r@.len() == k,
                                forall|i: int| 0 <= i < buffer@.len() ==> #[trigger] buffer@.at(i) == S::sample_value(samples@[i]),
                                forall|j: int| 0 <= j < k ==> S::sample_value(#[trigger] r@[j]) == buffer@.at(j),
                            decreases n - k,
                        {
                            r.push(S::copy_sample(&samples[k]));
                            k += 1;
                        }
                    },
                }
                proof {
                    assert(r@.map_values(|v: Option<S>| S::sample_value(v)) =~= self.input_read::<S>(index));
                }
                Ok(r)
            },
        }
    }

    /// The samples of the input at `index` as floats (see [`Self::iter_input_as`]).
    pub fn iter_input_as_floats(&self, index: usize) -> (r: Result<Vec<Option<Float>>, ProcessorError>)
        requires
            index < self.buffers().len(),
            self.wf(),
        ensures
            self.iter_input_as_post(index, r),
    {
        self.iter_input_as::<Float>(index)
    }

    /// The samples of the input at `index` as integers (see [`Self::iter_input_as`]).
    pub fn iter_input_as_ints(&self, index: usize) -> (r: Result<Vec<Option<i64>>, ProcessorError>)
        requires
            index < self.buffers().len(),
            self.wf(),
        ensures
            self.iter_input_as_post(index, r),
    {
        self.iter_input_as::<i64>(index)
    }

    /// The samples of the input at `index` as booleans (see [`Self::iter_input_as`]).
    pub fn iter_input_as_bools(&self, index: usize) -> (r: Result<Vec<Option<bool>>, ProcessorError>)
        requires
            index < self.buffers().len(),
            self.wf(),
        ensures
            self.iter_input_as_post(index, r),
    {
        self.iter_input_as::<bool>(index)
    }

    /// The samples of the input at `index` as strings (see [`Self::iter_input_as`]).
    pub fn iter_input_as_strings(&self, index: usize) -> (r: Result<Vec<Option<String>>, ProcessorError>)
        requires
            index < self.buffers().len(),
            self.wf(),
        ensures
            self.iter_input_as_post(index, r),
    {
        self.iter_input_as::<String>(index)
    }

    /// The samples of the input at `index` as lists (see [`Self::iter_input_as`]).
    pub fn iter_input_as_lists(&self, index: usize) -> (r: Result<Vec<Option<List>>, ProcessorError>)
        requires
            index < self.buffers().len(),
            self.wf(),
        ensures
            self.iter_input_as_post(index, r),
    {
        self.iter_input_as::<List>(index)
    }

    /// The samples of the input at `index` as MIDI messages (see [`Self::iter_input_as`]).
    pub fn iter_input_as_midi(&self, index: usize) -> (r: Result<Vec<Option<MidiMessage>>, ProcessorError>)
        requires
            index < self.buffers().len(),
            self.wf(),
        ensures
            self.iter_input_as_post(index, r),
    {
        self.iter_input_as::<MidiMessage>(index)
    }

    /// The postcondition of [`Self::iter_input_as`].
    pub open spec fn iter_input_as_post<S: Signal>(self, index: usize, r: Result<Vec<Option<S>>, ProcessorError>) -> bool {
        &&& self.buffers()[index as int] is None ==> r is Ok
                && r->Ok_0@.len() == addressed_len(self.mode_spec(), self.block_size_spec())
                && forall|k: int| 0 <= k < r->Ok_0@.len() ==> #[trigger] r->Ok_0@[k] is None
        &&& self.buffers()[index as int] is Some ==> {
                let b = self.buffers()[index as int]->0@;
                let samples = read_samples(self.mode_spec(), b);
                &&& b.signal_type() == S::type_spec() ==> r is Ok
                    && r->Ok_0@.len() == samples.len()
                    && forall|k: int| 0 <= k < samples.len() ==> S::sample_value(#[trigger] r->Ok_0@[k]) == samples[k]
                &&& b.signal_type() != S::type_spec() ==> r == Err::<Vec<Option<S>>, ProcessorError>(
                    ProcessorError::InputSpecMismatch { index, expected: S::type_spec(), actual: b.signal_type() })
            }
        &&& (r is Ok) == self.input_ok::<S>(index)
        &&& r is Ok ==> r->Ok_0@.map_values(|v: Option<S>| S::sample_value(v)) == self.input_read::<S>(index)
    }

    /// The values an untyped read of the input at `index` yields: `None` when the input is
    /// unconnected, else each addressed sample (which may hold no value).
    pub open spec fn input_any(self, index: usize) -> Seq<Option<SignalValue>> {
        match self.buffers()[index as int] {
            None => Seq::new(addressed_len(self.mode_spec(), self.block_size_spec()), |k: int| None::<SignalValue>),
            Some(b) => read_samples(self.mode_spec(), b@).map_values(|v: SignalValue| Some(v)),
        }
    }

    /// Whether the input at `index` is unconnected or holds signals of type `S`.
    pub open spec fn input_ok<S: Signal>(self, index: usize) -> bool {
        self.buffers()[index as int] matches Some(b) ==> b@.signal_type() == S::type_spec()
    }

    /// The error a read of the input at `index` as type `S` gives when the type does not match.
    pub open spec fn input_error<S: Signal>(self, index: usize) -> ProcessorError {
        ProcessorError::InputSpecMismatch { index, expected: S::type_spec(), actual: self.buffers()[index as int]->0@.signal_type() }
    }

    /// The values a read of the input at `index` as type `S` yields.
    pub open spec fn input_read<S: Signal>(self, index: usize) -> Seq<SignalValue> {
        match self.buffers()[index as int] {
            None => Seq::new(addressed_len(self.mode_spec(), self.block_size_spec()), |k: int| S::sample_value(None)),
            Some(b) => read_samples(self.mode_spec(), b@),
        }
    }
}


/// A collection of output buffers for a [`Processor`] and their specifications.
pub struct ProcessorOutputs<'a> {
    output_spec: &'a [SignalSpec],
    outputs: Vec<SignalBuffer>,
    mode: ProcessMode,
}

impl<'a> ProcessorOutputs<'a> {
    /// The values of the output buffers.
    pub closed spec fn buffers(&self) -> Seq<BufferValue> {
        self.outputs@.map_values(|b: SignalBuffer| b@)
    }

    /// The output specifications.
    pub closed spec fn specs(&self) -> Seq<SignalSpec> {
        self.output_spec@
    }

    /// The processing mode.
    pub closed spec fn mode_spec(&self) -> ProcessMode {
        self.mode
    }

    /// Every output buffer holds the sample the mode addresses.
    pub open spec fn wf(&self) -> bool {
        forall|k: int| 0 <= k < self.buffers().len() ==> fits_mode(self.mode_spec(), #[trigger] self.buffers()[k])
    }

    /// Whether `other` is `self` with output `index` replaced by `b`.
    pub open spec fn replaced(&self, other: &Self, index: int, b: BufferValue) -> bool {
        &&& other.buffers() == self.buffers().update(index, b)
        &&& other.specs() == self.specs()
        &&& other.mode_spec() == self.mode_spec()
    }

    /// Whether the output at `index` holds signals of type `S`.
    pub open spec fn output_ok<S: Signal>(&self, index: usize) -> bool {
        self.buffers()[index as int].signal_type() == S::type_spec()
    }

    /// The error a write of type `S` to the output at `index` gives when the type does not match.
    pub open spec fn output_error<S: Signal>(&self, index: usize) -> ProcessorError {
        ProcessorError::OutputSpecMismatch { index, expected: S::type_spec(), actual: self.buffers()[index as int].signal_type() }
    }

    /// Whether `after` is `self` with `vals` written to the output at `index` in the current mode.
    pub open spec fn written(&self, after: &Self, index: usize, vals: Seq<SignalValue>) -> bool {
        exists|b: BufferValue| #[trigger] self.replaced(after, index as int, b)
            && write_result(self.buffers()[index as int], b, self.mode_spec(), vals)
    }

    /// Writes `values` into the output at `index`, starting at the first sample the mode
    /// addresses; a value of another type than the output leaves its sample unchanged.
    pub fn iter_output(&mut self, index: usize, values: &Vec<AnySignal>)
        requires
            index < old(self).buffers().len(),
            old(self).wf(),
        ensures
            old(self).written_any(final(self), index, values@.map_values(|v: AnySignal| v@)),
            final(self).wf(),
    {
        let ghost vals = values@.map_values(|v: AnySignal| v@);
        let mut buf = SignalBuffer::Float(Vec::new());
        std::mem::swap(&mut buf, &mut self.outputs[index]);
        let ghost old_b = buf@;
        proof { assert(old_b == old(self).buffers()[index as int]); }
        let len = buf.len();
        match self.mode {
            ProcessMode::Sample(i) => {
                proof { assert(fits_mode(old(self).mode_spec(), old(self).buffers()[index as int])); }
                if values.len() >= 1 {
                    buf.set(i, &values[0]);
                }
            },
            ProcessMode::Block => {
                let n = if values.len() < len { values.len() } else { len };
                let mut k: usize = 0;
                while k < n
                    invariant
                        k <= n,
                        n <= len,
                        n <= values@.len(),
                        n == values@.len() || n == len,
                        len == old_b.len(),
                        buf@.len() == len,
                        buf@.signal_type() == old_b.signal_type(),
                        vals == values@.map_values(|v: AnySignal| v@),
                        forall|j: int| 0 <= j < k ==> #[trigger] buf@.at(j) == (if vals[j].signal_type() == old_b.signal_type() { vals[j] } else { old_b.at(j) }),
                        forall|j: int| k <= j < len ==> #[trigger] buf@.at(j) == old_b.at(j),
                    decreases n - k,
                {
                    proof {
                        if vals[k as int].signal_type() == buf@.signal_type() {
                            lemma_buffer_with_at(buf@, k as int, vals[k as int]);
                        }
                    }
                    buf.set(k, &values[k]);
                    k += 1;
                }
            },
        }
        let ghost new_b = buf@;
        self.outputs.set(index, buf);
        proof {
            assert(self.buffers() =~= old(self).buffers().update(index as int, new_b));
            assert(old(self).replaced(self, index as int, new_b));
            assert(write_any_result(old_b, new_b, old(self).mode_spec(), vals));
            assert forall|k: int| 0 <= k < self.buffers().len() implies fits_mode(self.mode_spec(), #[trigger] self.buffers()[k]) by {
                if k != index {
                    assert(fits_mode(old(self).mode_spec(), old(self).buffers()[k]));
                }
            }
        }
    }

    /// Writes `value` at sample `sample` of the output at `index` in block mode, or at the
    /// addressed sample in sample mode; does nothing if the position is out of range or the
    /// value has another type than the output.
    pub fn set_sample(&mut self, index: usize, sample: usize, value: &AnySignal)
        requires
            index < old(self).buffers().len(),
            old(self).wf(),
        ensures
            old(self).replaced(final(self), index as int, set_result(old(self).buffers()[index as int], old(self).mode_spec(), sample as int, value@)),
            final(self).wf(),
    {
        let mut buf = SignalBuffer::Float(Vec::new());
        std::mem::swap(&mut buf, &mut self.outputs[index]);
        let ghost old_b = buf@;
        proof { assert(old_b == old(self).buffers()[index as int]); }
        let pos = match self.mode {
            ProcessMode::Sample(i) => i,
            ProcessMode::Block => sample,
        };
        buf.set(pos, value);
        let ghost new_b = buf@;
        self.outputs.set(index, buf);
        proof {
            if pos < old_b.len() && value@.signal_type() == old_b.signal_type() {
                lemma_buffer_with_at(old_b, pos as int, value@);
            }
            assert(self.buffers() =~= old(self).buffers().update(index as int, new_b));
            assert forall|k: int| 0 <= k < self.buffers().len() implies fits_mode(self.mode_spec(), #[trigger] self.buffers()[k]) by {
                if k != index {
                    assert(fits_mode(old(self).mode_spec(), old(self).buffers()[k]));
                } else {
                    assert(fits_mode(old(self).mode_spec(), old(self).buffers()[k]));
                    if pos < old_b.len() && value@.signal_type() != old_b.signal_type() {
                        assert(new_b == old_b);
                    }
                }
            }
        }
    }

    /// Whether `after` is `self` with `vals` written to the output at `index` in the current
    /// mode, values of another type than the output being skipped.
    pub open spec fn written_any(&self, after: &Self, index: usize, vals: Seq<SignalValue>) -> bool {
        exists|b: BufferValue| #[trigger] self.replaced(after, index as int, b)
            && write_any_result(self.buffers()[index as int], b, self.mode_spec(), vals)
    }

    /// Whether `after` holds the same buffers, specifications and mode as `self`.
    pub open spec fn same(&self, after: &Self) -> bool {
        &&& after.buffers() == self.buffers()
        &&& after.specs() == self.specs()
        &&& after.mode_spec() == self.mode_spec()
    }

    /// Creates the outputs of one processing call from the buffers to write.
    pub fn new(output_spec: &'a [SignalSpec], outputs: Vec<SignalBuffer>, mode: ProcessMode) -> (r: Self)
        ensures
            r.buffers() == outputs@.map_values(|b: SignalBuffer| b@),
            r.specs() == output_spec@,
            r.mode_spec() == mode,
    {
        ProcessorOutputs { output_spec, outputs, mode }
    }

    /// Gives back the output buffers.
    pub fn into_buffers(self) -> (r: Vec<SignalBuffer>)
        ensures
            r@.map_values(|b: SignalBuffer| b@) == self.buffers(),
    {
        self.outputs
    }

    /// Returns the number of output buffers.
    pub fn num_outputs(&self) -> (r: usize)
        ensures
            r == self.buffers().len(),
    {
        self.outputs.len()
    }

    /// Returns the processing mode.
    pub fn mode(&self) -> (r: ProcessMode)
        ensures
            r == self.mode_spec(),
    {
        self.mode
    }

    /// Returns the specification of the output signal at the given index.
    pub fn output_spec(&self, index: usize) -> (r: &SignalSpec)
        requires
            index < self.specs().len(),
        ensures
            *r == self.specs()[index as int],
    {
        &self.output_spec[index]
    }

    /// Returns the output buffer at the given index.
    pub fn buffer(&self, index: usize) -> (r: &SignalBuffer)
        requires
            index < self.buffers().len(),
        ensures
            r@ == self.buffers()[index as int],
    {
        &self.outputs[index]
    }

    /// Returns the output at the given index, for writing in the current mode.
    pub fn output(&mut self, index: usize) -> (r: ProcessorOutput<'_>)
        requires
            index < old(self).buffers().len(),
        ensures
            r.buffer_spec() == old(self).buffers()[index as int],
            r.sample_index() == (match old(self).mode_spec() { ProcessMode::Block => None, ProcessMode::Sample(i) => Some(i) }),
            final(self).buffers() == old(self).buffers().update(index as int, match r {
                ProcessorOutput::Block(b) => (*final(b))@,
                ProcessorOutput::Sample(b, _) => (*final(b))@,
            }),
            final(self).specs() == old(self).specs(),
            final(self).mode_spec() == old(self).mode_spec(),
    {
        let mode = self.mode;
        let b = &mut self.outputs[index];
        match mode {
            ProcessMode::Sample(i) => ProcessorOutput::Sample(b, i),
            ProcessMode::Block => ProcessorOutput::Block(b),
        }
    }


    /// The postcondition of [`Self::iter_output_as`]: on a matching type the output at
    /// `index` holds `values` at the addressed samples and nothing else changes; otherwise
    /// nothing changes and the error names the mismatch.
    pub open spec fn iter_output_as_post<S: Signal>(&self, after: &Self, index: usize, values: Seq<Option<S>>, r: Result<(), ProcessorError>) -> bool {
        &&& self.buffers()[index as int].signal_type() == S::type_spec() ==> r is Ok
            && self.written(after, index, values.map_values(|v: Option<S>| S::sample_value(v)))
        &&& self.buffers()[index as int].signal_type() != S::type_spec() ==> self.same(after)
            && r == Err::<(), ProcessorError>(ProcessorError::OutputSpecMismatch {
                index, expected: S::type_spec(), actual: self.buffers()[index as int].signal_type() })
        &&& after.wf()
    }

    /// Writes `values` into the output at `index`, starting at the first sample the mode
    /// addresses (the whole block, or the one sample of sample mode), if the output holds
    /// signals of type `S`.
    pub fn iter_output_as<S: Signal>(&mut self, index: usize, values: &Vec<Option<S>>) -> (r: Result<(), ProcessorError>)
        requires
            index < old(self).buffers().len(),
            old(self).wf(),
        ensures
            old(self).iter_output_as_post(final(self), index, values@, r),
    {
        let ghost vals = values@.map_values(|v: Option<S>| S::sample_value(v));
        let expected = S::signal_type();
        let actual = self.outputs[index].signal_type();
        proof { assert(self.outputs@[index as int]@ == self.buffers()[index as int]); }
        if actual != expected {
            return Err(ProcessorError::OutputSpecMismatch { index, expected, actual });
        }
        let mut buf = SignalBuffer::Float(Vec::new());
        std::mem::swap(&mut buf, &mut self.outputs[index]);
        let ghost old_b = buf@;
        proof { assert(old_b == old(self).buffers()[index as int]); }
        let len = buf.len();
        match self.mode {
            ProcessMode::Sample(i) => {
                proof { assert(fits_mode(old(self).mode_spec(), old(self).buffers()[index as int])); }
                if values.len() >= 1 {
                    let v = S::into_any(S::copy_sample(&values[0]));
                    proof {
                        S::lemma_sample_typed(values@[0]);
                        lemma_buffer_with_at(buf@, i as int, v@);
                    }
                    buf.set(i, &v);
                }
            },
            ProcessMode::Block => {
                let n = if values.len() < len { values.len() } else { len };
                let mut k: usize = 0;
                while k < n
                    invariant
                        k <= n,
                        n <= len,
                        n <= values@.len(),
                        n == values@.len() || n == len,
                        len == old_b.len(),
                        buf@.len() == len,
                        buf@.signal_type() == old_b.signal_type(),
                        old_b.signal_type() == S::type_spec(),
                        vals == values@.map_values(|v: Option<S>| S::sample_value(v)),
                        forall|j: int| 0 <= j < k ==> #[trigger] buf@.at(j) == vals[j],
                        forall|j: int| k <= j < len ==> #[trigger] buf@.at(j) == old_b.at(j),
                    decreases n - k,
                {
                    let v = S::into_any(S::copy_sample(&values[k]));
                    proof {
                        S::lemma_sample_typed(values@[k as int]);
                        lemma_buffer_with_at(buf@, k as int, v@);
                    }
                    buf.set(k, &v);
                    k += 1;
                }
            },
        }
        let ghost new_b = buf@;
        self.outputs.set(index, buf);
        proof {
            assert(self.buffers() =~= old(self).buffers().update(index as int, new_b));
            assert(old(self).replaced(self, index as int, new_b));
            assert(write_result(old_b, new_b, old(self).mode_spec(), vals));
            assert forall|k: int| 0 <= k < self.buffers().len() implies fits_mode(self.mode_spec(), #[trigger] self.buffers()[k]) by {
                if k != index {
                    assert(fits_mode(old(self).mode_spec(), old(self).buffers()[k]));
                }
            }
        }
        Ok(())
    }
    /// Writes floats into the output at `index` (see [`Self::iter_output_as`]).
    pub fn iter_output_mut_as_floats(&mut self, index: usize, values: &Vec<Option<Float>>) -> (r: Result<(), ProcessorError>)
        requires
            index < old(self).buffers().len(),
            old(self).wf(),
        ensures
            old(self).iter_output_as_post(final(self), index, values@, r),
    {
        self.iter_output_as::<Float>(index, values)
    }

    /// Writes integers into the output at `index` (see [`Self::iter_output_as`]).
    pub fn iter_output_mut_as_ints(&mut self, index: usize, values: &Vec<Option<i64>>) -> (r: Result<(), ProcessorError>)
        requires
            index < old(self).buffers().len(),
            old(self).wf(),
        ensures
            old(self).iter_output_as_post(final(self), index, values@, r),
    {
        self.iter_output_as::<i64>(index, values)
    }

    /// Writes booleans into the output at `index` (see [`Self::iter_output_as`]).
    pub fn iter_output_mut_as_bools(&mut self, index: usize, values: &Vec<Option<bool>>) -> (r: Result<(), ProcessorError>)
        requires
            index < old(self).buffers().len(),
            old(self).wf(),
        ensures
            old(self).iter_output_as_post(final(self), index, values@, r),
    {
        self.iter_output_as::<bool>(index, values)
    }

    /// Writes strings into the output at `index` (see [`Self::iter_output_as`]).
    pub fn iter_output_mut_as_strings(&mut self, index: usize, values: &Vec<Option<String>>) -> (r: Result<(), ProcessorError>)
        requires
            index < old(self).buffers().len(),
            old(self).wf(),
        ensures
            old(self).iter_output_as_post(final(self), index, values@, r),
    {
        self.iter_output_as::<String>(index, values)
    }

    /// Writes lists into the output at `index` (see [`Self::iter_output_as`]).
    pub fn iter_output_mut_as_lists(&mut self, index: usize, values: &Vec<Option<List>>) -> (r: Result<(), ProcessorError>)
        requires
            index < old(self).buffers().len(),
            old(self).wf(),
        ensures
            old(self).iter_output_as_post(final(self), index, values@, r),
    {
        self.iter_output_as::<List>(index, values)
    }

    /// Writes MIDI messages into the output at `index` (see [`Self::iter_output_as`]).
    pub fn iter_output_mut_as_midi(&mut self, index: usize, values: &Vec<Option<MidiMessage>>) -> (r: Result<(), ProcessorError>)
        requires
            index < old(self).buffers().len(),
            old(self).wf(),
        ensures
            old(self).iter_output_as_post(final(self), index, values@, r),
    {
        self.iter_output_as::<MidiMessage>(index, values)
    }
}

/// The output of a [`Processor`] at one index, for writing in the current mode.
pub enum ProcessorOutput<'a> {
    /// A whole block of samples.
    Block(&'a mut SignalBuffer),
    /// A single sample of the block.
    Sample(&'a mut SignalBuffer, usize),
}

impl<'a> ProcessorOutput<'a> {
    /// The value of the buffer written through this output.
    pub open spec fn buffer_spec(&self) -> BufferValue {
        match self {
            ProcessorOutput::Block(b) => (**b)@,
            ProcessorOutput::Sample(b, _) => (**b)@,
        }
    }

    /// The sample written in sample mode.
    pub open spec fn sample_index(&self) -> Option<usize> {
        match self {
            ProcessorOutput::Block(_) => None,
            ProcessorOutput::Sample(_, i) => Some(*i),
        }
    }

    /// Returns the type of the output signal.
    pub fn signal_type(&self) -> (r: SignalType)
        ensures
            r == self.buffer_spec().signal_type(),
    {
        match self {
            ProcessorOutput::Block(buffer) => buffer.signal_type(),
            ProcessorOutput::Sample(buffer, _) => buffer.signal_type(),
        }
    }

    /// The position a write at `index` addresses: `index` in block mode, the addressed
    /// sample in sample mode.
    pub open spec fn write_pos(&self, index: usize) -> usize {
        match self.sample_index() { Some(i) => i, None => index }
    }

    /// Writes `value` at `index` in block mode, or at the addressed sample in sample mode.
    /// The position must be in range and the value must have the buffer's type.
    pub fn set(&mut self, index: usize, value: &AnySignal)
        requires
            old(self).write_pos(index) < old(self).buffer_spec().len(),
            value@.signal_type() == old(self).buffer_spec().signal_type(),
        ensures
            final(self).sample_index() == old(self).sample_index(),
            final(self).buffer_spec() == old(self).buffer_spec().with_at(old(self).write_pos(index) as int, value@),
    {
        match self {
            ProcessorOutput::Block(buffer) => buffer.set(index, value),
            ProcessorOutput::Sample(buffer, sample_index) => buffer.set(*sample_index, value),
        }
    }

    /// Writes a sample of type `S` (see [`Self::set`]); the buffer must hold samples of type `S`.
    pub fn set_as<S: Signal>(&mut self, index: usize, value: Option<S>)
        requires
            old(self).write_pos(index) < old(self).buffer_spec().len(),
            old(self).buffer_spec().signal_type() == S::type_spec(),
        ensures
            final(self).sample_index() == old(self).sample_index(),
            final(self).buffer_spec() == old(self).buffer_spec().with_at(old(self).write_pos(index) as int, S::sample_value(value)),
    {
        proof { S::lemma_sample_typed(value); }
        let v = S::into_any(value);
        self.set(index, &v);
    }

    /// Makes the sample absent (see [`Self::set`]).
    pub fn set_none(&mut self, index: usize)
        ensures
            final(self).sample_index() == old(self).sample_index(),
            ({
                let pos = match old(self).sample_index() { Some(i) => i, None => index };
                let none = SignalValue::none_of_type(old(self).buffer_spec().signal_type());
                &&& pos < old(self).buffer_spec().len() ==> final(self).buffer_spec() == old(self).buffer_spec().with_at(pos as int, none)
                &&& pos >= old(self).buffer_spec().len() ==> final(self).buffer_spec() == old(self).buffer_spec()
            }),
    {
        match self {
            ProcessorOutput::Block(buffer) => buffer.set_none(index),
            ProcessorOutput::Sample(buffer, sample_index) => buffer.set_none(*sample_index),
        }
    }

    /// Writes `value` at every sample in block mode, or at the addressed sample in sample
    /// mode; the value must have the buffer's type.
    pub fn fill(&mut self, value: &AnySignal)
        requires
            value@.signal_type() == old(self).buffer_spec().signal_type(),
            old(self).sample_index() matches Some(i) ==> i < old(self).buffer_spec().len(),
        ensures
            final(self).sample_index() == old(self).sample_index(),
            old(self).sample_index() is None ==> final(self).buffer_spec() == old(self).buffer_spec().filled(value@),
            old(self).sample_index() matches Some(i) ==> {
                &&& i < old(self).buffer_spec().len() ==> final(self).buffer_spec() == old(self).buffer_spec().with_at(i as int, value@)
                &&& i >= old(self).buffer_spec().len() ==> final(self).buffer_spec() == old(self).buffer_spec()
            },
    {
        match self {
            ProcessorOutput::Block(buffer) => buffer.fill(value),
            ProcessorOutput::Sample(buffer, sample_index) => buffer.set(*sample_index, value),
        }
    }

    /// Writes a sample of type `S` everywhere the mode addresses (see [`Self::fill`]); the
    /// buffer must hold samples of type `S`.
    pub fn fill_as<S: Signal>(&mut self, value: Option<S>)
        requires
            old(self).buffer_spec().signal_type() == S::type_spec(),
            old(self).sample_index() matches Some(i) ==> i < old(self).buffer_spec().len(),
        ensures
            final(self).sample_index() == old(self).sample_index(),
            old(self).sample_index() is None ==> final(self).buffer_spec() == old(self).buffer_spec().filled(S::sample_value(value)),
            old(self).sample_index() matches Some(i) ==> {
                &&& i < old(self).buffer_spec().len() ==> final(self).buffer_spec() == old(self).buffer_spec().with_at(i as int, S::sample_value(value))
                &&& i >= old(self).buffer_spec().len() ==> final(self).buffer_spec() == old(self).buffer_spec()
            },
    {
        proof { S::lemma_sample_typed(value); }
        let v = S::into_any(value);
        self.fill(&v);
    }
}

/// Whether `after` has the same outputs as `before`, of the same types and lengths, in the
/// same mode: what every processing call must keep.
pub open spec fn outputs_kept(before: &ProcessorOutputs, after: &ProcessorOutputs) -> bool {
    &&& after.buffers().len() == before.buffers().len()
    &&& after.specs() == before.specs()
    &&& after.mode_spec() == before.mode_spec()
    &&& forall|k: int| 0 <= k < before.buffers().len() ==> (#[trigger] after.buffers()[k]).signal_type() == before.buffers()[k].signal_type()
        && after.buffers()[k].len() == before.buffers()[k].len()
    &&& after.wf()
}

/// The names and types of a list of signal specifications.
pub open spec fn signature(specs: Seq<SignalSpec>) -> Seq<(Seq<char>, SignalType)> {
    specs.map_values(|s: SignalSpec| (s.name@, s.signal_type))
}

/// Whether a call hands a processor `n_in` input buffers and `n_out` output buffers.
pub open spec fn io_counts(inputs: ProcessorInputs, outputs: ProcessorOutputs, n_in: nat, n_out: nat) -> bool {
    inputs.buffers().len() == n_in && outputs.buffers().len() == n_out
}

/// The error of a call that hands a processor the wrong numbers of buffers: the inputs are
/// checked first.
pub open spec fn io_count_error(inputs: ProcessorInputs, n_in: nat) -> ProcessorError {
    if inputs.buffers().len() != n_in { ProcessorError::NumInputsMismatch } else { ProcessorError::NumOutputsMismatch }
}

/// Checks that a call hands a processor `n_in` input buffers and `n_out` output buffers.
pub fn check_io_counts(inputs: &ProcessorInputs, outputs: &ProcessorOutputs, n_in: usize, n_out: usize) -> (r: Result<(), ProcessorError>)
    ensures
        (r is Ok) == io_counts(*inputs, *outputs, n_in as nat, n_out as nat),
        r is Err ==> r == Err::<(), ProcessorError>(io_count_error(*inputs, n_in as nat)),
{
    if inputs.num_buffers() != n_in {
        Err(ProcessorError::NumInputsMismatch)
    } else if outputs.num_outputs() != n_out {
        Err(ProcessorError::NumOutputsMismatch)
    } else {
        Ok(())
    }
}

/// A processor that can process audio signals.
///
/// A processor checks what it is handed: [`Processor::process`] may be called with any
/// numbers of buffers, and a processor returns [`ProcessorError::NumInputsMismatch`] or
/// [`ProcessorError::NumOutputsMismatch`] when they are not the ones it declares.
pub trait Processor {
    /// The name of the processor, where it states one (a processor defined outside this
    /// library states none, and then nothing is claimed of its name).
    open spec fn name_spec(&self) -> Option<Seq<char>> {
        None
    }

    /// The names and types of the inputs, where the processor states them.
    open spec fn inputs_spec(&self) -> Option<Seq<(Seq<char>, SignalType)>> {
        None
    }

    /// The names and types of the outputs, where the processor states them.
    open spec fn outputs_spec(&self) -> Option<Seq<(Seq<char>, SignalType)>> {
        None
    }

    /// What [`Processor::process`] returns when called with these inputs and outputs, where
    /// the processor states it.
    open spec fn process_result(&self, inputs: ProcessorInputs, outputs: ProcessorOutputs) -> Option<Result<(), ProcessorError>> {
        None
    }

    /// Returns the name of the processor.
    fn name(&self) -> (r: &str)
        ensures
            self.name_spec() matches Some(n) ==> r@ == n;

    /// Returns the specifications of the input signals of the processor.
    fn input_spec(&self) -> (r: Vec<SignalSpec>)
        ensures
            self.inputs_spec() matches Some(s) ==> signature(r@) == s;

    /// Returns the specifications of the output signals of the processor.
    fn output_spec(&self) -> (r: Vec<SignalSpec>)
        ensures
            self.outputs_spec() matches Some(s) ==> signature(r@) == s;

    /// Returns the number of input signals required by the processor.
    fn num_inputs(&self) -> (r: usize)
        ensures
            self.inputs_spec() matches Some(s) ==> r == s.len(),
    {
        self.input_spec().len()
    }

    /// Returns the number of output signals produced by the processor.
    fn num_outputs(&self) -> (r: usize)
        ensures
            self.outputs_spec() matches Some(s) ==> r == s.len(),
    {
        self.output_spec().len()
    }

    /// Prepares the processor for processing; called once before processing begins.
    fn prepare(&mut self) {
    }

    /// Called anytime the sample rate or block size changes.
    fn resize_buffers(&mut self, sample_rate: Float, block_size: usize) {
    }

    /// Processes the input signals and writes the output signals.
    fn process(&mut self, inputs: &ProcessorInputs, outputs: &mut ProcessorOutputs) -> (r: Result<(), ProcessorError>)
        requires
            inputs.wf(),
            old(outputs).wf(),
        ensures
            outputs_kept(old(outputs), final(outputs)),
            old(self).process_result(*inputs, *old(outputs)) matches Some(res) ==> r == res;
}

/// Marker for processors that can be serialized (here: every type).
pub trait GraphSerde {
}

impl<T: ?Sized> GraphSerde for T {
}

} // verus!
