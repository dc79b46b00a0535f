//! The [`ProcessorNode`] type: a node of the audio graph that processes signals.

use vstd::prelude::*;

use crate::processor::{signature, ProcessMode, Processor, ProcessorError, ProcessorInputs, ProcessorOutputs, SignalSpec, outputs_kept};
use crate::signal::{BufferValue, Float};

verus! {

/// A call that a node hands on to its processor.
pub enum ProcessorCall {
    /// `resize_buffers` with a sample rate and a block size.
    ResizeBuffers(Float, nat),
    /// `prepare`.
    Prepare,
    /// `process` on input buffers of these values (`None` for an unconnected input), output
    /// buffers of these values, in this mode, at this sample rate and block size.
    Process(Seq<Option<BufferValue>>, Seq<BufferValue>, ProcessMode, Float, nat),
}

/// A node in the audio graph that processes signals.
pub struct ProcessorNode {
    processor: Box<dyn Processor>,
    input_spec: Vec<SignalSpec>,
    output_spec: Vec<SignalSpec>,
    name: String,
    calls: Ghost<Seq<ProcessorCall>>,
}

impl ProcessorNode {
    /// The calls the node has handed on to its processor since the node was made, in order.
    /// The processor is opaque: its state is what these calls made of the processor the node
    /// was made with.
    pub closed spec fn calls(&self) -> Seq<ProcessorCall> {
        self.calls@
    }

    /// The name of the processor, as given when the node was made.
    pub closed spec fn name_spec(&self) -> Seq<char> {
        self.name@
    }

    /// What the boxed processor states its `process` returns for these inputs and outputs.
    pub closed spec fn process_result(&self, inputs: ProcessorInputs, outputs: ProcessorOutputs) -> Option<Result<(), ProcessorError>> {
        self.processor.process_result(inputs, outputs)
    }

    /// The number of inputs of the node: the length of its cached input specifications.
    pub open spec fn input_count(&self) -> nat {
        self.input_specs().len()
    }

    /// The number of outputs of the node: the length of its cached output specifications.
    pub open spec fn output_count(&self) -> nat {
        self.output_specs().len()
    }

    /// The cached input specifications.
    pub closed spec fn input_specs(&self) -> Seq<SignalSpec> {
        self.input_spec@
    }

    /// The cached output specifications.
    pub closed spec fn output_specs(&self) -> Seq<SignalSpec> {
        self.output_spec@
    }

    /// Creates a new `ProcessorNode` with the given processor.
    pub fn new<P: Processor + 'static>(processor: P) -> (r: ProcessorNode)
        ensures
            processor.inputs_spec() matches Some(s) ==> signature(r.input_specs()) == s,
            processor.outputs_spec() matches Some(s) ==> signature(r.output_specs()) == s,
            processor.name_spec() matches Some(n) ==> r.name_spec() == n,
            r.calls() == Seq::<ProcessorCall>::empty(),
    {
        let input_spec = processor.input_spec();
        let output_spec = processor.output_spec();
        let name = String::from_str(processor.name());
        let boxed: Box<dyn Processor> = Box::new(processor);
        ProcessorNode { processor: boxed, input_spec, output_spec, name, calls: Ghost(Seq::empty()) }
    }

    /// Creates a new `ProcessorNode` with the given boxed processor.
    pub fn new_from_boxed(processor: Box<dyn Processor>) -> (r: ProcessorNode)
        ensures
            processor.inputs_spec() matches Some(s) ==> signature(r.input_specs()) == s,
            processor.outputs_spec() matches Some(s) ==> signature(r.output_specs()) == s,
            processor.name_spec() matches Some(n) ==> r.name_spec() == n,
            r.calls() == Seq::<ProcessorCall>::empty(),
    {
        let input_spec = processor.input_spec();
        let output_spec = processor.output_spec();
        let name = String::from_str(processor.name());
        ProcessorNode { processor, input_spec, output_spec, name, calls: Ghost(Seq::empty()) }
    }

    /// Returns the name of the processor (the one it gave when the node was made).
    pub fn name(&self) -> (r: &str)
        ensures
            r@ == self.name_spec(),
    {
        self.name.as_str()
    }

    /// Returns information about the input signals of the processor.
    pub fn input_spec(&self) -> (r: &[SignalSpec])
        ensures
            r@ == self.input_specs(),
    {
        self.input_spec.as_slice()
    }

    /// Returns information about the output signals of the processor.
    pub fn output_spec(&self) -> (r: &[SignalSpec])
        ensures
            r@ == self.output_specs(),
    {
        self.output_spec.as_slice()
    }

    /// Returns the number of input signals of the processor.
    pub fn num_inputs(&self) -> (r: usize)
        ensures
            r == self.input_count(),
    {
        self.input_spec.len()
    }

    /// Returns the number of output signals of the processor.
    pub fn num_outputs(&self) -> (r: usize)
        ensures
            r == self.output_count(),
    {
        self.output_spec.len()
    }

    /// Updates the sample rate and block size of the processor.
    pub fn resize_buffers(&mut self, sample_rate: Float, block_size: usize)
        ensures
            final(self).input_specs() == old(self).input_specs(),
            final(self).output_specs() == old(self).output_specs(),
            final(self).name_spec() == old(self).name_spec(),
            final(self).calls() == old(self).calls().push(ProcessorCall::ResizeBuffers(sample_rate, block_size as nat)),
    {
        self.processor.resize_buffers(sample_rate, block_size);
        proof { self.calls@ = self.calls@.push(ProcessorCall::ResizeBuffers(sample_rate, block_size as nat)); }
    }

    /// Prepares the processor for processing.
    pub fn prepare(&mut self)
        ensures
            final(self).input_specs() == old(self).input_specs(),
            final(self).output_specs() == old(self).output_specs(),
            final(self).name_spec() == old(self).name_spec(),
            final(self).calls() == old(self).calls().push(ProcessorCall::Prepare),
    {
        self.processor.prepare();
        proof { self.calls@ = self.calls@.push(ProcessorCall::Prepare); }
    }

    /// Processes the input signals and writes the output signals to the given buffers.
    pub fn process(&mut self, inputs: &ProcessorInputs, outputs: &mut ProcessorOutputs) -> (r: Result<(), ProcessorError>)
        requires
            inputs.wf(),
            old(outputs).wf(),
        ensures
            outputs_kept(old(outputs), final(outputs)),
            old(self).process_result(*inputs, *old(outputs)) matches Some(res) ==> r == res,
            final(self).input_specs() == old(self).input_specs(),
            final(self).output_specs() == old(self).output_specs(),
            final(self).name_spec() == old(self).name_spec(),
            final(self).calls() == old(self).calls().push(ProcessorCall::Process(
                inputs.buffer_values(), old(outputs).buffers(), inputs.mode_spec(),
                inputs.sample_rate_spec(), inputs.block_size_spec())),
    {
        let ghost handed = ProcessorCall::Process(
            inputs.buffer_values(), outputs.buffers(), inputs.mode_spec(),
            inputs.sample_rate_spec(), inputs.block_size_spec());
        let r = self.processor.process(inputs, outputs);
        proof { self.calls@ = self.calls@.push(handed); }
        r
    }
}

} // verus!
