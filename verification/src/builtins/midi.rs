//! Built-in processors for MIDI messages.

use vstd::prelude::*;

use crate::builtins::time::min2;
use crate::builtins::{first_error2, in_err, lemma_row1, lemma_run_steps_next, out_err, run_steps};
use crate::processor::{signature, check_io_counts, io_count_error, io_counts, Processor, ProcessorError, ProcessorInputs, ProcessorOutputs, SignalSpec};
use crate::signal::{Float, MidiMessage, Signal, SignalType, SignalValue, byte_float_bits};

verus! {

/// The status of a note-on message.
pub const NOTE_ON: u8 = 0x90;

/// The byte `b` converted to a sample.
pub open spec fn byte_float(b: u8) -> Float {
    Float { bits: byte_float_bits(b) }
}

/// The samples a MIDI processor writes for a run of `n` samples: the output of every step.
pub open spec fn midi_steps<St>(step: spec_fn(St, Seq<SignalValue>) -> (St, SignalValue), st: St, inputs: ProcessorInputs, n: nat) -> (St, Seq<SignalValue>) {
    run_steps(step, st, seq![inputs.input_read::<MidiMessage>(0)], n)
}

/// One sample of [`MidiNote`]: a note-on message sets the note to its first data byte; the
/// note is output.
pub open spec fn midi_note_step(note: Float, row: Seq<SignalValue>) -> (Float, SignalValue) {
    let n = match row[0] {
        SignalValue::Midi(Some(m)) => if m.status_spec() == NOTE_ON { byte_float(m.data_byte1) } else { note },
        _ => note,
    };
    (n, SignalValue::Float(Some(n)))
}

/// Only a note-on message changes the note held by [`MidiNote`]: one whose status (channel
/// bits cleared) is `0x90` sets it to the message's first data byte; any other message, or
/// no message, leaves the held note, and so the output, unchanged.
pub proof fn lemma_midi_note_only_note_on(note: Float, row: Seq<SignalValue>)
    requires
        row.len() >= 1,
    ensures
        ({
            let r = midi_note_step(note, row);
            &&& r.1 == SignalValue::Float(Some(r.0))
            &&& (row[0] matches SignalValue::Midi(Some(m)) && (m.status_byte / 16) * 16 == 0x90)
                ==> r.0 == byte_float(row[0]->Midi_0->0.data_byte1)
            &&& !(row[0] matches SignalValue::Midi(Some(m)) && (m.status_byte / 16) * 16 == 0x90)
                ==> r.0 == note
        }),
{
}

/// [`midi_note_step`] as a step function.
pub open spec fn midi_note_step_fn() -> spec_fn(Float, Seq<SignalValue>) -> (Float, SignalValue) {
    |note: Float, row: Seq<SignalValue>| midi_note_step(note, row)
}

/// One sample of [`MidiVelocity`]: any message sets the velocity to its second data byte;
/// the velocity is output.
pub open spec fn midi_velocity_step(velocity: Float, row: Seq<SignalValue>) -> (Float, SignalValue) {
    let v = match row[0] {
        SignalValue::Midi(Some(m)) => byte_float(m.data_byte2),
        _ => velocity,
    };
    (v, SignalValue::Float(Some(v)))
}

/// Every message sets the velocity held by [`MidiVelocity`] to its second data byte; without a
/// message the held velocity, and so the output, stays.
pub proof fn lemma_midi_velocity_any_message(velocity: Float, row: Seq<SignalValue>)
    requires
        row.len() >= 1,
    ensures
        midi_velocity_step(velocity, row).1 == SignalValue::Float(Some(midi_velocity_step(velocity, row).0)),
        row[0] matches SignalValue::Midi(Some(m)) ==> midi_velocity_step(velocity, row).0 == byte_float(m.data_byte2),
        !(row[0] matches SignalValue::Midi(Some(_))) ==> midi_velocity_step(velocity, row).0 == velocity,
{
}

/// [`midi_velocity_step`] as a step function.
pub open spec fn midi_velocity_step_fn() -> spec_fn(Float, Seq<SignalValue>) -> (Float, SignalValue) {
    |velocity: Float, row: Seq<SignalValue>| midi_velocity_step(velocity, row)
}

/// Whether a message is a note-on with a non-zero velocity.
pub open spec fn is_sounding_note_on(m: MidiMessage) -> bool {
    m.status_spec() == NOTE_ON && m.data_byte2 > 0
}

/// One sample of [`MidiGate`]: any message sets the held state to whether it is a sounding
/// note-on; the held state is output.
pub open spec fn midi_gate_step(gate: bool, row: Seq<SignalValue>) -> (bool, SignalValue) {
    let g = match row[0] {
        SignalValue::Midi(Some(m)) => is_sounding_note_on(m),
        _ => gate,
    };
    (g, SignalValue::Bool(Some(g)))
}

/// [`MidiGate`] sets its gate to `true` at a note-on (status `0x90`, channel bits cleared)
/// whose velocity is above `0`, and to `false` at every other message (note-off, a note-on
/// with velocity `0`, any other status); without a message its gate is kept. It outputs its
/// gate.
pub proof fn lemma_midi_gate_opens_and_closes(gate: bool, row: Seq<SignalValue>)
    requires
        row.len() >= 1,
    ensures
        midi_gate_step(gate, row).1 == SignalValue::Bool(Some(midi_gate_step(gate, row).0)),
        row[0] matches SignalValue::Midi(Some(m)) ==> midi_gate_step(gate, row).0
            == ((m.status_byte / 16) * 16 == 0x90 && m.data_byte2 > 0),
        !(row[0] matches SignalValue::Midi(Some(_))) ==> midi_gate_step(gate, row).0 == gate,
{
}

/// [`midi_gate_step`] as a step function.
pub open spec fn midi_gate_step_fn() -> spec_fn(bool, Seq<SignalValue>) -> (bool, SignalValue) {
    |gate: bool, row: Seq<SignalValue>| midi_gate_step(gate, row)
}

/// One sample of [`MidiTrigger`]: `true` for a sounding note-on, else nothing.
pub open spec fn midi_trigger_step(st: (), row: Seq<SignalValue>) -> ((), SignalValue) {
    match row[0] {
        SignalValue::Midi(Some(m)) => if is_sounding_note_on(m) { ((), SignalValue::Bool(Some(true))) } else { ((), SignalValue::Bool(None)) },
        _ => ((), SignalValue::Bool(None)),
    }
}

/// [`MidiTrigger`] outputs `true` exactly at a note-on (status `0x90`, channel bits cleared)
/// with a non-zero velocity, and nothing at any other sample.
pub proof fn lemma_midi_trigger_on_note_on(row: Seq<SignalValue>)
    requires
        row.len() >= 1,
    ensures
        (midi_trigger_step((), row).1 == SignalValue::Bool(Some(true)))
            <==> (row[0] matches SignalValue::Midi(Some(m)) && (m.status_byte / 16) * 16 == 0x90 && m.data_byte2 > 0),
        midi_trigger_step((), row).1 != SignalValue::Bool(Some(true)) ==> midi_trigger_step((), row).1 == SignalValue::Bool(None),
{
}

/// [`midi_trigger_step`] as a step function.
pub open spec fn midi_trigger_step_fn() -> spec_fn((), Seq<SignalValue>) -> ((), SignalValue) {
    |st: (), row: Seq<SignalValue>| midi_trigger_step(st, row)
}

/// One sample of [`MidiChannel`]: the channel of a message, else nothing.
pub open spec fn midi_channel_step(st: (), row: Seq<SignalValue>) -> ((), SignalValue) {
    match row[0] {
        SignalValue::Midi(Some(m)) => ((), SignalValue::Float(Some(byte_float((m.status_byte % 16) as u8)))),
        _ => ((), SignalValue::Float(None)),
    }
}

/// [`MidiChannel`] outputs the low four bits of a message's status byte, and nothing where
/// there is no message.
pub proof fn lemma_midi_channel_low_bits(row: Seq<SignalValue>)
    requires
        row.len() >= 1,
    ensures
        row[0] matches SignalValue::Midi(Some(m)) ==> midi_channel_step((), row).1
            == SignalValue::Float(Some(byte_float((m.status_byte % 16) as u8))),
        !(row[0] matches SignalValue::Midi(Some(_))) ==> midi_channel_step((), row).1 == SignalValue::Float(None),
{
}

/// [`midi_channel_step`] as a step function.
pub open spec fn midi_channel_step_fn() -> spec_fn((), Seq<SignalValue>) -> ((), SignalValue) {
    |st: (), row: Seq<SignalValue>| midi_channel_step(st, row)
}

/// Reads the MIDI input and the length the output allows.
fn read_midi(inputs: &ProcessorInputs, outputs: &ProcessorOutputs) -> (r: Result<(Vec<Option<MidiMessage>>, usize), ProcessorError>)
    requires
        inputs.wf(),
        inputs.buffers().len() == 1,
        outputs.buffers().len() == 1,
    ensures
        r is Err <==> !inputs.input_ok::<MidiMessage>(0),
        r is Err ==> r == Err::<(Vec<Option<MidiMessage>>, usize), ProcessorError>(inputs.input_error::<MidiMessage>(0)),
        r matches Ok((v, n)) ==> {
            &&& v@.map_values(|m: Option<MidiMessage>| MidiMessage::sample_value(m)) == inputs.input_read::<MidiMessage>(0)
            &&& n == min2(outputs.buffers()[0].len(), v@.len())
        },
{
    let v = inputs.iter_input_as_midi(0)?;
    let out_len = outputs.buffer(0).len();
    let n = if out_len < v.len() { out_len } else { v.len() };
    Ok((v, n))
}

/// A processor that outputs the note number of the last note-on message.
#[derive(Clone, Debug)]
pub struct MidiNote {
    note: Float,
}

impl Default for MidiNote {
    fn default() -> (r: Self)
        ensures
            r.note_spec() == Float::zero_spec(),
    {
        MidiNote { note: Float::zero() }
    }
}

impl MidiNote {
    /// The current note.
    pub closed spec fn note_spec(&self) -> Float {
        self.note
    }
}

impl Processor for MidiNote {
    open spec fn name_spec(&self) -> Option<Seq<char>> {
        Some("MidiNote"@)
    }

    open spec fn inputs_spec(&self) -> Option<Seq<(Seq<char>, SignalType)>> {
        Some(seq![("midi"@, SignalType::Midi)])
    }

    open spec fn outputs_spec(&self) -> Option<Seq<(Seq<char>, SignalType)>> {
        Some(seq![("note"@, SignalType::Float)])
    }

    open spec fn process_result(&self, inputs: ProcessorInputs, outputs: ProcessorOutputs) -> Option<Result<(), ProcessorError>> {
        Some(if io_counts(inputs, outputs, 1, 1) { first_error2(in_err::<MidiMessage>(inputs, 0), out_err::<Float>(outputs, 0)) } else { Err(io_count_error(inputs, 1)) })
    }

    fn name(&self) -> (r: &str)
        ensures
            r@ == "MidiNote"@,
    {
        "MidiNote"
    }

    fn input_spec(&self) -> (r: Vec<SignalSpec>)
        ensures
            r@.len() == 1,
            r@[0].name@ == "midi"@,
            r@[0].signal_type == SignalType::Midi,
    {
        let mut v = Vec::new();
        v.push(SignalSpec::new("midi", SignalType::Midi));
        let v_out = v;
        proof { assert(signature(v_out@) =~= seq![("midi"@, SignalType::Midi)]); }
        v_out
    }

    fn output_spec(&self) -> (r: Vec<SignalSpec>)
        ensures
            r@.len() == 1,
            r@[0].name@ == "note"@,
            r@[0].signal_type == SignalType::Float,
    {
        let mut v = Vec::new();
        v.push(SignalSpec::new("note", SignalType::Float));
        let v_out = v;
        proof { assert(signature(v_out@) =~= seq![("note"@, SignalType::Float)]); }
        v_out
    }

    fn process(&mut self, inputs: &ProcessorInputs, outputs: &mut ProcessorOutputs) -> (r: Result<(), ProcessorError>)
        ensures
            !io_counts(*inputs, *old(outputs), 1, 1) ==> r == Err::<(), ProcessorError>(io_count_error(*inputs, 1)) && old(outputs).same(final(outputs)) && *final(self) == *old(self),
            io_counts(*inputs, *old(outputs), 1, 1) ==> (r == first_error2(in_err::<MidiMessage>(*inputs, 0), out_err::<Float>(*old(outputs), 0))),
            io_counts(*inputs, *old(outputs), 1, 1) ==> (r is Err ==> old(outputs).same(final(outputs)) && final(self).note_spec() == old(self).note_spec()),
            io_counts(*inputs, *old(outputs), 1, 1) ==> (r is Ok ==> ({
                let res = midi_steps(midi_note_step_fn(), old(self).note_spec(), *inputs,
                    min2(old(outputs).buffers()[0].len(), inputs.input_read::<MidiMessage>(0).len()));
                &&& final(self).note_spec() == res.0
                &&& old(outputs).written(final(outputs), 0, res.1)
            })),
    {
        check_io_counts(inputs, outputs, 1, 1)?;
        let (input, n) = read_midi(inputs, outputs)?;
        let ghost cols = seq![inputs.input_read::<MidiMessage>(0)];
        let init = self.note;
        let mut note = self.note;
        let mut out: Vec<Option<Float>> = Vec::new();
        let mut k: usize = 0;
        while k < n
            invariant
                k <= n,
                n <= input@.len(),
                cols.len() == 1,
                cols[0] == input@.map_values(|m: Option<MidiMessage>| MidiMessage::sample_value(m)),
                out@.len() == k,
                note == run_steps(midi_note_step_fn(), init, cols, k as nat).0,
                run_steps(midi_note_step_fn(), init, cols, k as nat).1.len() == k,
                forall|j: int| 0 <= j < k ==> Float::sample_value(#[trigger] out@[j]) == run_steps(midi_note_step_fn(), init, cols, k as nat).1[j],
            decreases n - k,
        {
            proof {
                lemma_row1(cols[0], k as int);
                lemma_run_steps_next(midi_note_step_fn(), init, cols, k as nat);
            }
            if let Some(msg) = input[k] {
                if msg.status() == NOTE_ON {
                    note = Float::from_u8(msg.data1());
                }
            }
            out.push(Some(note));
            k += 1;
        }
        proof {
            assert(out@.map_values(|v: Option<Float>| Float::sample_value(v)) =~= run_steps(midi_note_step_fn(), init, cols, n as nat).1);
        }
        outputs.iter_output_mut_as_floats(0, &out)?;
        self.note = note;
        Ok(())
    }
}

/// A processor that outputs the velocity of the last MIDI message.
#[derive(Clone, Debug)]
pub struct MidiVelocity {
    velocity: Float,
}

impl Default for MidiVelocity {
    fn default() -> (r: Self)
        ensures
            r.velocity_spec() == Float::zero_spec(),
    {
        MidiVelocity { velocity: Float::zero() }
    }
}

impl MidiVelocity {
    /// The current velocity.
    pub closed spec fn velocity_spec(&self) -> Float {
        self.velocity
    }
}

impl Processor for MidiVelocity {
    open spec fn name_spec(&self) -> Option<Seq<char>> {
        Some("MidiVelocity"@)
    }

    open spec fn inputs_spec(&self) -> Option<Seq<(Seq<char>, SignalType)>> {
        Some(seq![("midi"@, SignalType::Midi)])
    }

    open spec fn outputs_spec(&self) -> Option<Seq<(Seq<char>, SignalType)>> {
        Some(seq![("velocity"@, SignalType::Float)])
    }

    open spec fn process_result(&self, inputs: ProcessorInputs, outputs: ProcessorOutputs) -> Option<Result<(), ProcessorError>> {
        Some(if io_counts(inputs, outputs, 1, 1) { first_error2(in_err::<MidiMessage>(inputs, 0), out_err::<Float>(outputs, 0)) } else { Err(io_count_error(inputs, 1)) })
    }

    fn name(&self) -> (r: &str)
        ensures
            r@ == "MidiVelocity"@,
    {
        "MidiVelocity"
    }

    fn input_spec(&self) -> (r: Vec<SignalSpec>)
        ensures
            r@.len() == 1,
            r@[0].name@ == "midi"@,
            r@[0].signal_type == SignalType::Midi,
    {
        let mut v = Vec::new();
        v.push(SignalSpec::new("midi", SignalType::Midi));
        let v_out = v;
        proof { assert(signature(v_out@) =~= seq![("midi"@, SignalType::Midi)]); }
        v_out
    }

    fn output_spec(&self) -> (r: Vec<SignalSpec>)
        ensures
            r@.len() == 1,
            r@[0].name@ == "velocity"@,
            r@[0].signal_type == SignalType::Float,
    {
        let mut v = Vec::new();
        v.push(SignalSpec::new("velocity", SignalType::Float));
        let v_out = v;
        proof { assert(signature(v_out@) =~= seq![("velocity"@, SignalType::Float)]); }
        v_out
    }

    fn process(&mut self, inputs: &ProcessorInputs, outputs: &mut ProcessorOutputs) -> (r: Result<(), ProcessorError>)
        ensures
            !io_counts(*inputs, *old(outputs), 1, 1) ==> r == Err::<(), ProcessorError>(io_count_error(*inputs, 1)) && old(outputs).same(final(outputs)) && *final(self) == *old(self),
            io_counts(*inputs, *old(outputs), 1, 1) ==> (r == first_error2(in_err::<MidiMessage>(*inputs, 0), out_err::<Float>(*old(outputs), 0))),
            io_counts(*inputs, *old(outputs), 1, 1) ==> (r is Err ==> old(outputs).same(final(outputs)) && final(self).velocity_spec() == old(self).velocity_spec()),
            io_counts(*inputs, *old(outputs), 1, 1) ==> (r is Ok ==> ({
                let res = midi_steps(midi_velocity_step_fn(), old(self).velocity_spec(), *inputs,
                    min2(old(outputs).buffers()[0].len(), inputs.input_read::<MidiMessage>(0).len()));
                &&& final(self).velocity_spec() == res.0
                &&& old(outputs).written(final(outputs), 0, res.1)
            })),
    {
        check_io_counts(inputs, outputs, 1, 1)?;
        let (input, n) = read_midi(inputs, outputs)?;
        let ghost cols = seq![inputs.input_read::<MidiMessage>(0)];
        let init = self.velocity;
        let mut velocity = self.velocity;
        let mut out: Vec<Option<Float>> = Vec::new();
        let mut k: usize = 0;
        while k < n
            invariant
                k <= n,
                n <= input@.len(),
                cols.len() == 1,
                cols[0] == input@.map_values(|m: Option<MidiMessage>| MidiMessage::sample_value(m)),
                out@.len() == k,
                velocity == run_steps(midi_velocity_step_fn(), init, cols, k as nat).0,
                run_steps(midi_velocity_step_fn(), init, cols, k as nat).1.len() == k,
                forall|j: int| 0 <= j < k ==> Float::sample_value(#[trigger] out@[j]) == run_steps(midi_velocity_step_fn(), init, cols, k as nat).1[j],
            decreases n - k,
        {
            proof {
                lemma_row1(cols[0], k as int);
                lemma_run_steps_next(midi_velocity_step_fn(), init, cols, k as nat);
            }
            if let Some(msg) = input[k] {
                velocity = Float::from_u8(msg.data2());
            }
            out.push(Some(velocity));
            k += 1;
        }
        proof {
            assert(out@.map_values(|v: Option<Float>| Float::sample_value(v)) =~= run_steps(midi_velocity_step_fn(), init, cols, n as nat).1);
        }
        outputs.iter_output_mut_as_floats(0, &out)?;
        self.velocity = velocity;
        Ok(())
    }
}

/// A processor that outputs whether a note is held: opened by a note-on message with a
/// non-zero velocity, closed by any other message.
#[derive(Clone, Debug)]
pub struct MidiGate {
    gate: bool,
}

impl Default for MidiGate {
    fn default() -> (r: Self)
        ensures
            !r.gate_spec(),
    {
        MidiGate { gate: false }
    }
}

impl MidiGate {
    /// Whether a note is held.
    pub closed spec fn gate_spec(&self) -> bool {
        self.gate
    }
}

impl Processor for MidiGate {
    open spec fn name_spec(&self) -> Option<Seq<char>> {
        Some("MidiGate"@)
    }

    open spec fn inputs_spec(&self) -> Option<Seq<(Seq<char>, SignalType)>> {
        Some(seq![("midi"@, SignalType::Midi)])
    }

    open spec fn outputs_spec(&self) -> Option<Seq<(Seq<char>, SignalType)>> {
        Some(seq![("gate"@, SignalType::Bool)])
    }

    open spec fn process_result(&self, inputs: ProcessorInputs, outputs: ProcessorOutputs) -> Option<Result<(), ProcessorError>> {
        Some(if io_counts(inputs, outputs, 1, 1) { first_error2(in_err::<MidiMessage>(inputs, 0), out_err::<bool>(outputs, 0)) } else { Err(io_count_error(inputs, 1)) })
    }

    fn name(&self) -> (r: &str)
        ensures
            r@ == "MidiGate"@,
    {
        "MidiGate"
    }

    fn input_spec(&self) -> (r: Vec<SignalSpec>)
        ensures
            r@.len() == 1,
            r@[0].name@ == "midi"@,
            r@[0].signal_type == SignalType::Midi,
    {
        let mut v = Vec::new();
        v.push(SignalSpec::new("midi", SignalType::Midi));
        let v_out = v;
        proof { assert(signature(v_out@) =~= seq![("midi"@, SignalType::Midi)]); }
        v_out
    }

    fn output_spec(&self) -> (r: Vec<SignalSpec>)
        ensures
            r@.len() == 1,
            r@[0].name@ == "gate"@,
            r@[0].signal_type == SignalType::Bool,
    {
        let mut v = Vec::new();
        v.push(SignalSpec::new("gate", SignalType::Bool));
        let v_out = v;
        proof { assert(signature(v_out@) =~= seq![("gate"@, SignalType::Bool)]); }
        v_out
    }

    fn process(&mut self, inputs: &ProcessorInputs, outputs: &mut ProcessorOutputs) -> (r: Result<(), ProcessorError>)
        ensures
            !io_counts(*inputs, *old(outputs), 1, 1) ==> r == Err::<(), ProcessorError>(io_count_error(*inputs, 1)) && old(outputs).same(final(outputs)) && *final(self) == *old(self),
            io_counts(*inputs, *old(outputs), 1, 1) ==> (r == first_error2(in_err::<MidiMessage>(*inputs, 0), out_err::<bool>(*old(outputs), 0))),
            io_counts(*inputs, *old(outputs), 1, 1) ==> (r is Err ==> old(outputs).same(final(outputs)) && final(self).gate_spec() == old(self).gate_spec()),
            io_counts(*inputs, *old(outputs), 1, 1) ==> (r is Ok ==> ({
                let res = midi_steps(midi_gate_step_fn(), old(self).gate_spec(), *inputs,
                    min2(old(outputs).buffers()[0].len(), inputs.input_read::<MidiMessage>(0).len()));
                &&& final(self).gate_spec() == res.0
                &&& old(outputs).written(final(outputs), 0, res.1)
            })),
    {
        check_io_counts(inputs, outputs, 1, 1)?;
        let (input, n) = read_midi(inputs, outputs)?;
        let ghost cols = seq![inputs.input_read::<MidiMessage>(0)];
        let init = self.gate;
        let mut gate = self.gate;
        let mut out: Vec<Option<bool>> = Vec::new();
        let mut k: usize = 0;
        while k < n
            invariant
                k <= n,
                n <= input@.len(),
                cols.len() == 1,
                cols[0] == input@.map_values(|m: Option<MidiMessage>| MidiMessage::sample_value(m)),
                out@.len() == k,
                gate == run_steps(midi_gate_step_fn(), init, cols, k as nat).0,
                run_steps(midi_gate_step_fn(), init, cols, k as nat).1.len() == k,
                forall|j: int| 0 <= j < k ==> bool::sample_value(#[trigger] out@[j]) == run_steps(midi_gate_step_fn(), init, cols, k as nat).1[j],
            decreases n - k,
        {
            proof {
                lemma_row1(cols[0], k as int);
                lemma_run_steps_next(midi_gate_step_fn(), init, cols, k as nat);
            }
            if let Some(msg) = input[k] {
                gate = msg.status() == NOTE_ON && msg.data2() > 0;
            }
            out.push(Some(gate));
            k += 1;
        }
        proof {
            assert(out@.map_values(|v: Option<bool>| bool::sample_value(v)) =~= run_steps(midi_gate_step_fn(), init, cols, n as nat).1);
        }
        outputs.iter_output_mut_as_bools(0, &out)?;
        self.gate = gate;
        Ok(())
    }
}

/// A processor that outputs `true` for every note-on message with a non-zero velocity.
#[derive(Clone, Debug)]
pub struct MidiTrigger;

impl Default for MidiTrigger {
    fn default() -> (r: Self) {
        MidiTrigger
    }
}

impl Processor for MidiTrigger {
    open spec fn name_spec(&self) -> Option<Seq<char>> {
        Some("MidiTrigger"@)
    }

    open spec fn inputs_spec(&self) -> Option<Seq<(Seq<char>, SignalType)>> {
        Some(seq![("midi"@, SignalType::Midi)])
    }

    open spec fn outputs_spec(&self) -> Option<Seq<(Seq<char>, SignalType)>> {
        Some(seq![("trigger"@, SignalType::Bool)])
    }

    open spec fn process_result(&self, inputs: ProcessorInputs, outputs: ProcessorOutputs) -> Option<Result<(), ProcessorError>> {
        Some(if io_counts(inputs, outputs, 1, 1) { first_error2(in_err::<MidiMessage>(inputs, 0), out_err::<bool>(outputs, 0)) } else { Err(io_count_error(inputs, 1)) })
    }

    fn name(&self) -> (r: &str)
        ensures
            r@ == "MidiTrigger"@,
    {
        "MidiTrigger"
    }

    fn input_spec(&self) -> (r: Vec<SignalSpec>)
        ensures
            r@.len() == 1,
            r@[0].name@ == "midi"@,
            r@[0].signal_type == SignalType::Midi,
    {
        let mut v = Vec::new();
        v.push(SignalSpec::new("midi", SignalType::Midi));
        let v_out = v;
        proof { assert(signature(v_out@) =~= seq![("midi"@, SignalType::Midi)]); }
        v_out
    }

    fn output_spec(&self) -> (r: Vec<SignalSpec>)
        ensures
            r@.len() == 1,
            r@[0].name@ == "trigger"@,
            r@[0].signal_type == SignalType::Bool,
    {
        let mut v = Vec::new();
        v.push(SignalSpec::new("trigger", SignalType::Bool));
        let v_out = v;
        proof { assert(signature(v_out@) =~= seq![("trigger"@, SignalType::Bool)]); }
        v_out
    }

    fn process(&mut self, inputs: &ProcessorInputs, outputs: &mut ProcessorOutputs) -> (r: Result<(), ProcessorError>)
        ensures
            !io_counts(*inputs, *old(outputs), 1, 1) ==> r == Err::<(), ProcessorError>(io_count_error(*inputs, 1)) && old(outputs).same(final(outputs)) && *final(self) == *old(self),
            io_counts(*inputs, *old(outputs), 1, 1) ==> (r == first_error2(in_err::<MidiMessage>(*inputs, 0), out_err::<bool>(*old(outputs), 0))),
            io_counts(*inputs, *old(outputs), 1, 1) ==> (r is Err ==> old(outputs).same(final(outputs))),
            io_counts(*inputs, *old(outputs), 1, 1) ==> (r is Ok ==> old(outputs).written(final(outputs), 0, midi_steps(midi_trigger_step_fn(), (), *inputs,
                min2(old(outputs).buffers()[0].len(), inputs.input_read::<MidiMessage>(0).len())).1)),
    {
        check_io_counts(inputs, outputs, 1, 1)?;
        let (input, n) = read_midi(inputs, outputs)?;
        let ghost cols = seq![inputs.input_read::<MidiMessage>(0)];
        let mut out: Vec<Option<bool>> = Vec::new();
        let mut k: usize = 0;
        while k < n
            invariant
                k <= n,
                n <= input@.len(),
                cols.len() == 1,
                cols[0] == input@.map_values(|m: Option<MidiMessage>| MidiMessage::sample_value(m)),
                out@.len() == k,
                run_steps(midi_trigger_step_fn(), (), cols, k as nat).1.len() == k,
                forall|j: int| 0 <= j < k ==> bool::sample_value(#[trigger] out@[j]) == run_steps(midi_trigger_step_fn(), (), cols, k as nat).1[j],
            decreases n - k,
        {
            proof {
                lemma_row1(cols[0], k as int);
                lemma_run_steps_next(midi_trigger_step_fn(), (), cols, k as nat);
            }
            let mut o: Option<bool> = None;
            if let Some(msg) = input[k] {
                if msg.status() == NOTE_ON && msg.data2() > 0 {
                    o = Some(true);
                }
            }
            out.push(o);
            k += 1;
        }
        proof {
            assert(out@.map_values(|v: Option<bool>| bool::sample_value(v)) =~= run_steps(midi_trigger_step_fn(), (), cols, n as nat).1);
        }
        outputs.iter_output_mut_as_bools(0, &out)?;
        Ok(())
    }
}

/// A processor that outputs the channel of every MIDI message.
#[derive(Clone, Debug)]
pub struct MidiChannel;

impl Processor for MidiChannel {
    open spec fn name_spec(&self) -> Option<Seq<char>> {
        Some("MidiChannel"@)
    }

    open spec fn inputs_spec(&self) -> Option<Seq<(Seq<char>, SignalType)>> {
        Some(seq![("midi"@, SignalType::Midi)])
    }

    open spec fn outputs_spec(&self) -> Option<Seq<(Seq<char>, SignalType)>> {
        Some(seq![("channel"@, SignalType::Float)])
    }

    open spec fn process_result(&self, inputs: ProcessorInputs, outputs: ProcessorOutputs) -> Option<Result<(), ProcessorError>> {
        Some(if io_counts(inputs, outputs, 1, 1) { first_error2(in_err::<MidiMessage>(inputs, 0), out_err::<Float>(outputs, 0)) } else { Err(io_count_error(inputs, 1)) })
    }

    fn name(&self) -> (r: &str)
        ensures
            r@ == "MidiChannel"@,
    {
        "MidiChannel"
    }

    fn input_spec(&self) -> (r: Vec<SignalSpec>)
        ensures
            r@.len() == 1,
            r@[0].name@ == "midi"@,
            r@[0].signal_type == SignalType::Midi,
    {
        let mut v = Vec::new();
        v.push(SignalSpec::new("midi", SignalType::Midi));
        let v_out = v;
        proof { assert(signature(v_out@) =~= seq![("midi"@, SignalType::Midi)]); }
        v_out
    }

    fn output_spec(&self) -> (r: Vec<SignalSpec>)
        ensures
            r@.len() == 1,
            r@[0].name@ == "channel"@,
            r@[0].signal_type == SignalType::Float,
    {
        let mut v = Vec::new();
        v.push(SignalSpec::new("channel", SignalType::Float));
        let v_out = v;
        proof { assert(signature(v_out@) =~= seq![("channel"@, SignalType::Float)]); }
        v_out
    }

    fn process(&mut self, inputs: &ProcessorInputs, outputs: &mut ProcessorOutputs) -> (r: Result<(), ProcessorError>)
        ensures
            !io_counts(*inputs, *old(outputs), 1, 1) ==> r == Err::<(), ProcessorError>(io_count_error(*inputs, 1)) && old(outputs).same(final(outputs)) && *final(self) == *old(self),
            io_counts(*inputs, *old(outputs), 1, 1) ==> (r == first_error2(in_err::<MidiMessage>(*inputs, 0), out_err::<Float>(*old(outputs), 0))),
            io_counts(*inputs, *old(outputs), 1, 1) ==> (r is Err ==> old(outputs).same(final(outputs))),
            io_counts(*inputs, *old(outputs), 1, 1) ==> (r is Ok ==> old(outputs).written(final(outputs), 0, midi_steps(midi_channel_step_fn(), (), *inputs,
                min2(old(outputs).buffers()[0].len(), inputs.input_read::<MidiMessage>(0).len())).1)),
    {
        check_io_counts(inputs, outputs, 1, 1)?;
        let (input, n) = read_midi(inputs, outputs)?;
        let ghost cols = seq![inputs.input_read::<MidiMessage>(0)];
        let mut out: Vec<Option<Float>> = Vec::new();
        let mut k: usize = 0;
        while k < n
            invariant
                k <= n,
                n <= input@.len(),
                cols.len() == 1,
                cols[0] == input@.map_values(|m: Option<MidiMessage>| MidiMessage::sample_value(m)),
                out@.len() == k,
                run_steps(midi_channel_step_fn(), (), cols, k as nat).1.len() == k,
                forall|j: int| 0 <= j < k ==> Float::sample_value(#[trigger] out@[j]) == run_steps(midi_channel_step_fn(), (), cols, k as nat).1[j],
            decreases n - k,
        {
            proof {
                lemma_row1(cols[0], k as int);
                lemma_run_steps_next(midi_channel_step_fn(), (), cols, k as nat);
            }
            match input[k] {
                Some(msg) => out.push(Some(Float::from_u8(msg.channel()))),
                None => out.push(None),
            }
            k += 1;
        }
        proof {
            assert(out@.map_values(|v: Option<Float>| Float::sample_value(v)) =~= run_steps(midi_channel_step_fn(), (), cols, n as nat).1);
        }
        outputs.iter_output_mut_as_floats(0, &out)?;
        Ok(())
    }
}

} // verus!
