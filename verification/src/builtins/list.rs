//! Processors for working with lists.

use vstd::prelude::*;

use crate::builtins::time::min2;
use crate::builtins::{
    first_error2, in_err, lemma_row1, lemma_row2, lemma_run_steps_next, lemma_zip_len1, lemma_zip_len2,
    out_err, run_steps, zip_len,
};
use crate::processor::{signature, check_io_counts, io_count_error, io_counts, ProcessMode, Processor, ProcessorError, ProcessorInputs, ProcessorOutputs, SignalSpec, addressed_len, set_result};
use crate::signal::{lemma_buffer_with_at, AnySignal, BufferValue, ListValue, List, Signal, SignalBuffer, SignalType, SignalValue, is_list_element_type};

verus! {

/// The character of a decimal digit.
pub open spec fn digit_char(d: nat) -> char {
    if d == 0 { '0' } else if d == 1 { '1' } else if d == 2 { '2' } else if d == 3 { '3' }
    else if d == 4 { '4' } else if d == 5 { '5' } else if d == 6 { '6' } else if d == 7 { '7' }
    else if d == 8 { '8' } else { '9' }
}

/// The decimal representation of `n`, without leading zeros.
pub open spec fn decimal(n: nat) -> Seq<char>
    decreases n,
{
    if n < 10 { seq![digit_char(n)] } else { decimal(n / 10).push(digit_char(n % 10)) }
}

/// The string of one decimal digit.
fn digit_str(d: u64) -> (r: &'static str)
    requires
        d < 10,
    ensures
        r@ == seq![digit_char(d as nat)],
{
    proof {
        reveal_strlit("0"); reveal_strlit("1"); reveal_strlit("2"); reveal_strlit("3"); reveal_strlit("4");
        reveal_strlit("5"); reveal_strlit("6"); reveal_strlit("7"); reveal_strlit("8"); reveal_strlit("9");
    }
    if d == 0 { "0" } else if d == 1 { "1" } else if d == 2 { "2" } else if d == 3 { "3" }
    else if d == 4 { "4" } else if d == 5 { "5" } else if d == 6 { "6" } else if d == 7 { "7" }
    else if d == 8 { "8" } else { "9" }
}

/// Formats `n` in decimal (as `n.to_string()` does).
pub fn decimal_string(n: u64) -> (r: String)
    ensures
        r@ == decimal(n as nat),
    decreases n,
{
    if n < 10 {
        let mut s = String::new();
        s.append(digit_str(n));
        proof { assert(s@ =~= decimal(n as nat)); }
        s
    } else {
        let mut s = decimal_string(n / 10);
        s.append(digit_str(n % 10));
        s
    }
}

/// The message of the error for an index outside the list.
pub const INDEX_OUT_OF_RANGE: &'static str = "list index out of range";

/// One sample of [`Len`]: the number of elements of a present list.
pub open spec fn len_step(st: (), row: Seq<SignalValue>) -> ((), SignalValue) {
    match row[0] {
        SignalValue::List(Some(l)) => ((), SignalValue::Int(Some(l.len() as i64))),
        _ => ((), SignalValue::Int(None)),
    }
}

/// [`Len`] outputs the number of elements of a present list, and nothing where the list is
/// missing.
pub proof fn lemma_len_counts(row: Seq<SignalValue>)
    requires
        row.len() >= 1,
    ensures
        row[0] matches SignalValue::List(Some(l)) ==> len_step((), row).1 == SignalValue::Int(Some(l.len() as i64)),
        !(row[0] matches SignalValue::List(Some(_))) ==> len_step((), row).1 == SignalValue::Int(None),
{
}

/// [`len_step`] as a step function.
pub open spec fn len_step_fn() -> spec_fn((), Seq<SignalValue>) -> ((), SignalValue) {
    |st: (), row: Seq<SignalValue>| len_step(st, row)
}

/// A processor that outputs the length of a list.
#[derive(Clone, Debug)]
pub struct Len;

impl Default for Len {
    fn default() -> (r: Self) {
        Len
    }
}

impl Processor for Len {
    open spec fn name_spec(&self) -> Option<Seq<char>> {
        Some("Len"@)
    }

    open spec fn inputs_spec(&self) -> Option<Seq<(Seq<char>, SignalType)>> {
        Some(seq![("list"@, SignalType::List)])
    }

    open spec fn outputs_spec(&self) -> Option<Seq<(Seq<char>, SignalType)>> {
        Some(seq![("out"@, SignalType::Int)])
    }

    open spec fn process_result(&self, inputs: ProcessorInputs, outputs: ProcessorOutputs) -> Option<Result<(), ProcessorError>> {
        Some(if io_counts(inputs, outputs, 1, 1) { first_error2(in_err::<List>(inputs, 0), out_err::<i64>(outputs, 0)) } else { Err(io_count_error(inputs, 1)) })
    }

    fn name(&self) -> (r: &str)
        ensures
            r@ == "Len"@,
    {
        "Len"
    }

    fn input_spec(&self) -> (r: Vec<SignalSpec>)
        ensures
            r@.len() == 1,
            r@[0].name@ == "list"@,
            r@[0].signal_type == SignalType::List,
    {
        let mut v = Vec::new();
        v.push(SignalSpec::new("list", SignalType::List));
        let v_out = v;
        proof { assert(signature(v_out@) =~= seq![("list"@, SignalType::List)]); }
        v_out
    }

    fn output_spec(&self) -> (r: Vec<SignalSpec>)
        ensures
            r@.len() == 1,
            r@[0].name@ == "out"@,
            r@[0].signal_type == SignalType::Int,
    {
        let mut v = Vec::new();
        v.push(SignalSpec::new("out", SignalType::Int));
        let v_out = v;
        proof { assert(signature(v_out@) =~= seq![("out"@, SignalType::Int)]); }
        v_out
    }

    fn process(&mut self, inputs: &ProcessorInputs, outputs: &mut ProcessorOutputs) -> (r: Result<(), ProcessorError>)
        ensures
            !io_counts(*inputs, *old(outputs), 1, 1) ==> r == Err::<(), ProcessorError>(io_count_error(*inputs, 1)) && old(outputs).same(final(outputs)) && *final(self) == *old(self),
            io_counts(*inputs, *old(outputs), 1, 1) ==> (r == first_error2(in_err::<List>(*inputs, 0), out_err::<i64>(*old(outputs), 0))),
            io_counts(*inputs, *old(outputs), 1, 1) ==> (r is Err ==> old(outputs).same(final(outputs))),
            io_counts(*inputs, *old(outputs), 1, 1) ==> (r is Ok ==> ({
                let cols = seq![inputs.input_read::<List>(0)];
                old(outputs).written(final(outputs), 0, run_steps(len_step_fn(), (), cols, zip_len(cols)).1)
            })),
    {
        check_io_counts(inputs, outputs, 1, 1)?;
        let input = inputs.iter_input_as_lists(0)?;
        let ghost cols = seq![inputs.input_read::<List>(0)];
        let n = input.len();
        proof { lemma_zip_len1(cols[0]); }
        let mut out: Vec<Option<i64>> = Vec::new();
        let mut k: usize = 0;
        while k < n
            invariant
                k <= n,
                n == input@.len(),
                cols.len() == 1,
                cols[0] == input@.map_values(|v: Option<List>| List::sample_value(v)),
                n == zip_len(cols),
                out@.len() == k,
                run_steps(len_step_fn(), (), cols, k as nat).1.len() == k,
                forall|j: int| 0 <= j < k ==> i64::sample_value(#[trigger] out@[j]) == run_steps(len_step_fn(), (), cols, k as nat).1[j],
            decreases n - k,
        {
            proof {
                lemma_row1(cols[0], k as int);
                lemma_run_steps_next(len_step_fn(), (), cols, k as nat);
            }
            match &input[k] {
                Some(l) => {
                    let len = l.len();
                    out.push(Some(len as i64));
                },
                None => out.push(None),
            }
            k += 1;
        }
        proof {
            assert(out@.map_values(|v: Option<i64>| i64::sample_value(v)) =~= run_steps(len_step_fn(), (), cols, n as nat).1);
        }
        outputs.iter_output_mut_as_ints(0, &out)?;
        Ok(())
    }
}

/// The error of row `k` of [`Get`] reading elements of type `vt`, if any: a present list of
/// another element type, or a present index outside a present list.
pub open spec fn get_fault(cols: Seq<Seq<SignalValue>>, vt: SignalType, k: int) -> Option<ProcessorError> {
    match cols[0][k] {
        SignalValue::List(Some(l)) => if l.elem_type() != vt {
            Some(ProcessorError::InputSpecMismatch { index: 0, expected: vt, actual: l.elem_type() })
        } else {
            match cols[1][k] {
                SignalValue::Int(Some(i)) => if i < 0 || (i as usize) >= l.len() {
                    Some(ProcessorError::InvalidValue(INDEX_OUT_OF_RANGE))
                } else {
                    None
                },
                _ => None,
            }
        },
        _ => None,
    }
}

/// One sample of [`Get`] writing to an output of type `t`: the element at the index of a
/// present list and index, else nothing.
pub open spec fn get_step(t: SignalType, row: Seq<SignalValue>) -> ((), SignalValue) {
    match (row[0], row[1]) {
        (SignalValue::List(Some(l)), SignalValue::Int(Some(i))) => ((), l.at((i as usize) as int)),
        _ => ((), SignalValue::none_of_type(t)),
    }
}

/// [`Get`] outputs the element of a present list at a present index inside it (one that a
/// `usize` holds), and the absent
/// value of its type where the list or the index is missing.
pub proof fn lemma_get_element(t: SignalType, row: Seq<SignalValue>)
    requires
        row.len() >= 2,
    ensures
        (row[0] matches SignalValue::List(Some(l)) && row[1] matches SignalValue::Int(Some(i)) && 0 <= i < l.len() && i <= usize::MAX)
            ==> get_step(t, row).1 == row[0]->List_0->0.at(row[1]->Int_0->0 as int),
        !(row[0] matches SignalValue::List(Some(_))) ==> get_step(t, row).1 == SignalValue::none_of_type(t),
        !(row[1] matches SignalValue::Int(Some(_))) ==> get_step(t, row).1 == SignalValue::none_of_type(t),
{
}

/// [`get_step`] as a step function.
pub open spec fn get_step_fn(t: SignalType) -> spec_fn((), Seq<SignalValue>) -> ((), SignalValue) {
    |st: (), row: Seq<SignalValue>| get_step(t, row)
}

/// A processor that outputs the element of a list at an index.
#[derive(Clone, Debug)]
pub struct Get {
    value: AnySignal,
}

impl Get {
    /// The type of the elements read.
    pub closed spec fn elem_type_spec(&self) -> SignalType {
        self.value@.signal_type()
    }

    /// Creates a new `Get` processor reading elements of the given type.
    pub fn new(signal_type: SignalType) -> (r: Self)
        requires
            !(signal_type is Dynamic),
        ensures
            r.elem_type_spec() == signal_type,
    {
        Get { value: AnySignal::default_of_type(&signal_type) }
    }
}

impl Processor for Get {
    open spec fn name_spec(&self) -> Option<Seq<char>> {
        Some("Get"@)
    }

    open spec fn inputs_spec(&self) -> Option<Seq<(Seq<char>, SignalType)>> {
        Some(seq![("list"@, SignalType::List), ("index"@, SignalType::Int)])
    }

    open spec fn outputs_spec(&self) -> Option<Seq<(Seq<char>, SignalType)>> {
        Some(seq![("out"@, self.elem_type_spec())])
    }

    fn name(&self) -> (r: &str)
        ensures
            r@ == "Get"@,
    {
        "Get"
    }

    fn input_spec(&self) -> (r: Vec<SignalSpec>)
        ensures
            r@.len() == 2,
            r@[0].name@ == "list"@,
            r@[0].signal_type == SignalType::List,
            r@[1].name@ == "index"@,
            r@[1].signal_type == SignalType::Int,
    {
        let mut v = Vec::new();
        v.push(SignalSpec::new("list", SignalType::List));
        v.push(SignalSpec::new("index", SignalType::Int));
        let v_out = v;
        proof { assert(signature(v_out@) =~= seq![("list"@, SignalType::List), ("index"@, SignalType::Int)]); }
        v_out
    }

    fn output_spec(&self) -> (r: Vec<SignalSpec>)
        ensures
            r@.len() == 1,
            r@[0].name@ == "out"@,
            r@[0].signal_type == self.elem_type_spec(),
    {
        let mut v = Vec::new();
        v.push(SignalSpec::new("out", self.value.signal_type()));
        let v_out = v;
        proof { assert(signature(v_out@) =~= seq![("out"@, self.elem_type_spec())]); }
        v_out
    }

    #[verifier::loop_isolation(false)]
    fn process(&mut self, inputs: &ProcessorInputs, outputs: &mut ProcessorOutputs) -> (r: Result<(), ProcessorError>)
        ensures
            !io_counts(*inputs, *old(outputs), 2, 1) ==> r == Err::<(), ProcessorError>(io_count_error(*inputs, 2)) && old(outputs).same(final(outputs)) && *final(self) == *old(self),
            io_counts(*inputs, *old(outputs), 2, 1) ==> (!inputs.input_ok::<List>(0) ==> r == Err::<(), ProcessorError>(inputs.input_error::<List>(0)) && old(outputs).same(final(outputs))),
            io_counts(*inputs, *old(outputs), 2, 1) ==> (inputs.input_ok::<List>(0) && !inputs.input_ok::<i64>(1) ==> r == Err::<(), ProcessorError>(inputs.input_error::<i64>(1)) && old(outputs).same(final(outputs))),
            io_counts(*inputs, *old(outputs), 2, 1) ==> (inputs.input_ok::<List>(0) && inputs.input_ok::<i64>(1) ==> ({
                let cols = seq![inputs.input_read::<List>(0), inputs.input_read::<i64>(1)];
                let n = min2(old(outputs).buffers()[0].len(), zip_len(cols));
                let vt = old(self).elem_type_spec();
                let t = old(outputs).buffers()[0].signal_type();
                &&& (forall|k: int| 0 <= k < n ==> #[trigger] get_fault(cols, vt, k) is None) ==> {
                    &&& r is Ok
                    &&& old(outputs).written_any(final(outputs), 0, run_steps(get_step_fn(t), (), cols, n).1)
                }
                &&& forall|k: int| 0 <= k < n && #[trigger] get_fault(cols, vt, k) is Some
                        && (forall|j: int| 0 <= j < k ==> get_fault(cols, vt, j) is None) ==> {
                    &&& r == Err::<(), ProcessorError>(get_fault(cols, vt, k)->0)
                    &&& old(outputs).written_any(final(outputs), 0, run_steps(get_step_fn(t), (), cols, k as nat).1)
                }
            })),
    {
        check_io_counts(inputs, outputs, 2, 1)?;
        let lists = inputs.iter_input_as_lists(0)?;
        let index = inputs.iter_input_as_ints(1)?;
        let t = outputs.buffer(0).signal_type();
        let out_len = outputs.buffer(0).len();
        let vt = self.value.signal_type();
        let ghost cols = seq![inputs.input_read::<List>(0), inputs.input_read::<i64>(1)];
        let ghost step = get_step_fn(t);
        let m = if lists.len() < index.len() { lists.len() } else { index.len() };
        let n = if out_len < m { out_len } else { m };
        proof { lemma_zip_len2(cols[0], cols[1]); }
        let mut out: Vec<AnySignal> = Vec::new();
        let mut k: usize = 0;
        while k < n
            invariant
                k <= n,
                n <= lists@.len(),
                n <= index@.len(),
                cols.len() == 2,
                cols[0] == lists@.map_values(|v: Option<List>| List::sample_value(v)),
                cols[1] == index@.map_values(|v: Option<i64>| i64::sample_value(v)),
                n == min2(old(outputs).buffers()[0].len(), zip_len(cols)),
                !(t is Dynamic),
                step == get_step_fn(t),
                vt == self.elem_type_spec(),
                *outputs == *old(outputs),
                out@.len() == k,
                run_steps(step, (), cols, k as nat).1.len() == k,
                forall|j: int| 0 <= j < k ==> (#[trigger] out@[j])@ == run_steps(step, (), cols, k as nat).1[j],
                forall|j: int| 0 <= j < k ==> #[trigger] get_fault(cols, vt, j) is None,
            decreases n - k,
        {
            proof {
                lemma_row2(cols[0], cols[1], k as int);
                lemma_run_steps_next(step, (), cols, k as nat);
            }
            match &lists[k] {
                Some(l) => {
                    let lt = l.signal_type();
                    if lt != vt {
                        proof {
                            assert(get_fault(cols, vt, k as int) is Some);
                            assert(out@.map_values(|v: AnySignal| v@) =~= run_steps(step, (), cols, k as nat).1);
                        }
                        outputs.iter_output(0, &out);
                        return Err(ProcessorError::InputSpecMismatch { index: 0, expected: vt, actual: lt });
                    }
                    match index[k] {
                        Some(i) => {
                            let iu = i as usize;
                            if i < 0 || iu >= l.len() {
                                proof {
                                    assert(get_fault(cols, vt, k as int) is Some);
                                    assert(out@.map_values(|v: AnySignal| v@) =~= run_steps(step, (), cols, k as nat).1);
                                }
                                outputs.iter_output(0, &out);
                                return Err(ProcessorError::InvalidValue(INDEX_OUT_OF_RANGE));
                            }
                            match l.get(iu) {
                                Some(v) => out.push(v),
                                None => out.push(AnySignal::default_of_type(&t)),
                            }
                        },
                        None => out.push(AnySignal::default_of_type(&t)),
                    }
                },
                None => out.push(AnySignal::default_of_type(&t)),
            }
            k += 1;
        }
        proof {
            assert(out@.map_values(|v: AnySignal| v@) =~= run_steps(step, (), cols, n as nat).1);
        }
        outputs.iter_output(0, &out);
        Ok(())
    }
}

/// The message of the error for an input shorter than the output.
pub const INPUT_TOO_SHORT: &'static str = "input buffer shorter than the output";

/// The values of the input buffers (`None` for an unconnected input).
pub open spec fn input_views(inputs: ProcessorInputs) -> Seq<Option<BufferValue>> {
    inputs.buffers().map_values(|o: Option<&SignalBuffer>| match o {
        Some(b) => Some(b@),
        None => None,
    })
}

/// The error [`Pack`] gives at sample `s` of input `i` for lists of element type `elem`, if
/// any: a connected input of another type, or one without sample `s`.
pub open spec fn pack_fault(bufs: Seq<Option<BufferValue>>, elem: SignalType, s: int, i: int) -> Option<ProcessorError> {
    match bufs[i] {
        Some(b) => if b.signal_type() != elem {
            Some(ProcessorError::InputSpecMismatch { index: i as usize, expected: elem, actual: b.signal_type() })
        } else if s >= b.len() {
            Some(ProcessorError::InvalidValue(INPUT_TOO_SHORT))
        } else {
            None
        },
        None => None,
    }
}

/// The list `l` with its first `i` elements taken from sample `s` of the connected inputs.
pub open spec fn pack_partial(l: ListValue, bufs: Seq<Option<BufferValue>>, s: int, i: nat) -> ListValue
    decreases i,
{
    if i == 0 {
        l
    } else {
        let prev = pack_partial(l, bufs, s, (i - 1) as nat);
        match bufs[i - 1] {
            Some(b) => prev.with_at(i - 1, b.at(s)),
            None => prev,
        }
    }
}

/// The list after packing the first `s` samples, starting from `l`.
pub open spec fn pack_lists(l: ListValue, bufs: Seq<Option<BufferValue>>, s: nat) -> ListValue
    decreases s,
{
    if s == 0 {
        l
    } else {
        let prev = pack_lists(l, bufs, (s - 1) as nat);
        pack_partial(prev, bufs, s - 1, prev.len())
    }
}

/// The output samples of the first `s` packed samples.
pub open spec fn pack_outputs(l: ListValue, bufs: Seq<Option<BufferValue>>, s: nat) -> Seq<SignalValue> {
    Seq::new(s, |j: int| SignalValue::List(Some(pack_lists(l, bufs, (j + 1) as nat))))
}

/// Whether packing reports no error before sample `s`, input `i`.
pub open spec fn pack_clear_until(bufs: Seq<Option<BufferValue>>, elem: SignalType, n_in: nat, s: int, i: int) -> bool {
    &&& forall|s2: int, i2: int| 0 <= s2 < s && 0 <= i2 < n_in ==> #[trigger] pack_fault(bufs, elem, s2, i2) is None
    &&& forall|i2: int| 0 <= i2 < i ==> #[trigger] pack_fault(bufs, elem, s, i2) is None
}

/// Replacing an element keeps the length and element type of a list.
pub proof fn lemma_with_at_shape(l: ListValue, i: int, v: SignalValue)
    requires
        0 <= i < l.len(),
    ensures
        l.with_at(i, v).len() == l.len(),
        l.with_at(i, v).elem_type() == l.elem_type(),
{
    match (l, v) {
        (ListValue::Float(a), SignalValue::Float(x)) => { assert(a.update(i, x).len() == a.len()); },
        (ListValue::Int(a), SignalValue::Int(x)) => { assert(a.update(i, x).len() == a.len()); },
        (ListValue::Bool(a), SignalValue::Bool(x)) => { assert(a.update(i, x).len() == a.len()); },
        (ListValue::String(a), SignalValue::String(x)) => { assert(a.update(i, x).len() == a.len()); },
        (ListValue::Midi(a), SignalValue::Midi(x)) => { assert(a.update(i, x).len() == a.len()); },
        _ => {},
    }
}

/// Packing keeps the length and element type of the list.
pub proof fn lemma_pack_partial_shape(l: ListValue, bufs: Seq<Option<BufferValue>>, s: int, i: nat)
    requires
        i <= l.len(),
    ensures
        pack_partial(l, bufs, s, i).len() == l.len(),
        pack_partial(l, bufs, s, i).elem_type() == l.elem_type(),
    decreases i,
{
    if i > 0 {
        lemma_pack_partial_shape(l, bufs, s, (i - 1) as nat);
        let prev = pack_partial(l, bufs, s, (i - 1) as nat);
        match bufs[i - 1] {
            Some(b) => { lemma_with_at_shape(prev, i - 1, b.at(s)); },
            None => {},
        }
    }
}

/// Packing keeps the length and element type of the list.
pub proof fn lemma_pack_lists_shape(l: ListValue, bufs: Seq<Option<BufferValue>>, s: nat)
    ensures
        pack_lists(l, bufs, s).len() == l.len(),
        pack_lists(l, bufs, s).elem_type() == l.elem_type(),
    decreases s,
{
    if s > 0 {
        lemma_pack_lists_shape(l, bufs, (s - 1) as nat);
        let prev = pack_lists(l, bufs, (s - 1) as nat);
        lemma_pack_partial_shape(prev, bufs, s - 1, prev.len());
    }
}

/// A processor that packs its inputs into a list, one element per input.
#[derive(Clone, Debug)]
pub struct Pack {
    inputs: List,
}

impl Pack {
    /// The list being packed.
    pub closed spec fn list_spec(&self) -> ListValue {
        self.inputs@
    }

    /// Creates a new `Pack` processor with `num_inputs` inputs of the given type.
    pub fn new(signal_type: SignalType, num_inputs: usize) -> (r: Self)
        requires
            is_list_element_type(signal_type),
        ensures
            r.list_spec() == ListValue::none_of_type(signal_type, num_inputs as nat),
    {
        Pack { inputs: List::new_of_type(signal_type, num_inputs) }
    }
}

impl Processor for Pack {
    open spec fn name_spec(&self) -> Option<Seq<char>> {
        Some("Pack"@)
    }

    open spec fn outputs_spec(&self) -> Option<Seq<(Seq<char>, SignalType)>> {
        Some(seq![("out"@, SignalType::List)])
    }

    open spec fn inputs_spec(&self) -> Option<Seq<(Seq<char>, SignalType)>> {
        Some(Seq::new(self.list_spec().len(), |i: int| (decimal(i as nat), self.list_spec().elem_type())))
    }

    fn name(&self) -> (r: &str)
        ensures
            r@ == "Pack"@,
    {
        "Pack"
    }

    fn input_spec(&self) -> (r: Vec<SignalSpec>)
        ensures
            r@.len() == self.list_spec().len(),
            forall|i: int| 0 <= i < r@.len() ==> (#[trigger] r@[i]).signal_type == self.list_spec().elem_type()
                && r@[i].name@ == decimal(i as nat),
    {
        let n = self.inputs.len();
        let t = self.inputs.signal_type();
        let mut v: Vec<SignalSpec> = Vec::new();
        let mut i: usize = 0;
        while i < n
            invariant
                i <= n,
                n == self.list_spec().len(),
                t == self.list_spec().elem_type(),
                v@.len() == i,
                forall|j: int| 0 <= j < i ==> (#[trigger] v@[j]).signal_type == t && v@[j].name@ == decimal(j as nat),
            decreases n - i,
        {
            v.push(SignalSpec::with_name(decimal_string(i as u64), t));
            i += 1;
        }
        proof { assert(signature(v@) =~= Seq::new(self.list_spec().len(), |i: int| (decimal(i as nat), self.list_spec().elem_type()))); }
        v
    }

    fn output_spec(&self) -> (r: Vec<SignalSpec>)
        ensures
            r@.len() == 1,
            r@[0].name@ == "out"@,
            r@[0].signal_type == SignalType::List,
    {
        let mut v = Vec::new();
        v.push(SignalSpec::new("out", SignalType::List));
        let v_out = v;
        proof { assert(signature(v_out@) =~= seq![("out"@, SignalType::List)]); }
        v_out
    }

    #[verifier::loop_isolation(false)]
    fn process(&mut self, inputs: &ProcessorInputs, outputs: &mut ProcessorOutputs) -> (r: Result<(), ProcessorError>)
        ensures
            !io_counts(*inputs, *old(outputs), old(self).list_spec().len(), 1) ==> r == Err::<(), ProcessorError>(io_count_error(*inputs, old(self).list_spec().len())) && old(outputs).same(final(outputs)) && *final(self) == *old(self),
            io_counts(*inputs, *old(outputs), old(self).list_spec().len(), 1) ==> (!old(outputs).output_ok::<List>(0) ==> r == Err::<(), ProcessorError>(old(outputs).output_error::<List>(0))
                && old(outputs).same(final(outputs)) && final(self).list_spec() == old(self).list_spec()),
            io_counts(*inputs, *old(outputs), old(self).list_spec().len(), 1) ==> (old(outputs).output_ok::<List>(0) ==> ({
                let bufs = input_views(*inputs);
                let l = old(self).list_spec();
                let n_out = addressed_len(old(outputs).mode_spec(), old(outputs).buffers()[0].len());
                &&& pack_clear_until(bufs, l.elem_type(), l.len(), n_out as int, 0) ==> {
                    &&& r is Ok
                    &&& final(self).list_spec() == pack_lists(l, bufs, n_out)
                    &&& old(outputs).written(final(outputs), 0, pack_outputs(l, bufs, n_out))
                }
                &&& forall|s: int, i: int| 0 <= s < n_out && 0 <= i < l.len()
                        && #[trigger] pack_fault(bufs, l.elem_type(), s, i) is Some
                        && pack_clear_until(bufs, l.elem_type(), l.len(), s, i) ==> {
                    &&& r == Err::<(), ProcessorError>(pack_fault(bufs, l.elem_type(), s, i)->0)
                    &&& final(self).list_spec() == pack_partial(pack_lists(l, bufs, s as nat), bufs, s, i as nat)
                    &&& old(outputs).written(final(outputs), 0, pack_outputs(l, bufs, s as nat))
                }
            })),
    {
        check_io_counts(inputs, outputs, self.inputs.len(), 1)?;
        let actual = outputs.buffer(0).signal_type();
        if actual != SignalType::List {
            return Err(ProcessorError::OutputSpecMismatch { index: 0, expected: SignalType::List, actual });
        }
        let n_out = match outputs.mode() {
            ProcessMode::Block => outputs.buffer(0).len(),
            ProcessMode::Sample(_) => 1,
        };
        let ghost bufs = input_views(*inputs);
        let ghost l0 = self.inputs@;
        let elem = self.inputs.signal_type();
        let n_in = self.inputs.len();
        let mut out: Vec<Option<List>> = Vec::new();
        let mut s: usize = 0;
        while s < n_out
            invariant
                s <= n_out,
                n_in == l0.len(),
                elem == l0.elem_type(),
                inputs.buffers().len() == n_in,
                *outputs == *old(outputs),
                self.inputs@ == pack_lists(l0, bufs, s as nat),
                pack_clear_until(bufs, elem, n_in as nat, s as int, 0),
                out@.map_values(|v: Option<List>| List::sample_value(v)) == pack_outputs(l0, bufs, s as nat),
            decreases n_out - s,
        {
            proof { lemma_pack_lists_shape(l0, bufs, s as nat); }
            let ghost start = self.inputs@;
            let mut i: usize = 0;
            while i < n_in
                invariant
                    i <= n_in,
                    s < n_out,
                    n_in == l0.len(),
                    start == pack_lists(l0, bufs, s as nat),
                    start.len() == n_in,
                    start.elem_type() == elem,
                    self.inputs@ == pack_partial(start, bufs, s as int, i as nat),
                    pack_clear_until(bufs, elem, n_in as nat, s as int, i as int),
                    *outputs == *old(outputs),
                    out@.map_values(|v: Option<List>| List::sample_value(v)) == pack_outputs(l0, bufs, s as nat),
                decreases n_in - i,
            {
                proof { lemma_pack_partial_shape(start, bufs, s as int, i as nat); }
                match inputs.input(i) {
                    Some(buf) => {
                        let bt = buf.signal_type();
                        if bt != elem {
                            proof {
                                assert(pack_fault(bufs, elem, s as int, i as int) is Some);
                                lemma_pack_partial_shape(start, bufs, s as int, i as nat);
                            }
                            outputs.iter_output_mut_as_lists(0, &out)?;
                            return Err(ProcessorError::InputSpecMismatch { index: i, expected: elem, actual: bt });
                        }
                        match buf.get(s) {
                            Some(v) => {
                                self.inputs.set(i, &v);
                            },
                            None => {
                                proof {
                                    assert(pack_fault(bufs, elem, s as int, i as int) is Some);
                                    lemma_pack_partial_shape(start, bufs, s as int, i as nat);
                                }
                                outputs.iter_output_mut_as_lists(0, &out)?;
                                return Err(ProcessorError::InvalidValue(INPUT_TOO_SHORT));
                            },
                        }
                    },
                    None => {},
                }
                proof {
                    assert(pack_fault(bufs, elem, s as int, i as int) is None);
                    assert forall|i2: int| 0 <= i2 < i + 1 implies #[trigger] pack_fault(bufs, elem, s as int, i2) is None by {}
                }
                i += 1;
            }
            proof {
                assert(self.inputs@ == pack_lists(l0, bufs, (s + 1) as nat));
            }
            let ghost before = out@;
            let c = self.inputs.clone();
            out.push(Some(c));
            proof {
                assert(out@ == before.push(Some(c)));
                assert(List::sample_value(Some(c)) == SignalValue::List(Some(pack_lists(l0, bufs, (s + 1) as nat))));
                let mapped = out@.map_values(|v: Option<List>| List::sample_value(v));
                assert forall|j: int| 0 <= j < s implies #[trigger] mapped[j]
                    == pack_outputs(l0, bufs, (s + 1) as nat)[j] by {
                    assert(out@[j] == before[j]);
                    assert(before.map_values(|v: Option<List>| List::sample_value(v))[j] == pack_outputs(l0, bufs, s as nat)[j]);
                }
                assert(out@.map_values(|v: Option<List>| List::sample_value(v)) =~= pack_outputs(l0, bufs, (s + 1) as nat));
            }
            s += 1;
        }
        proof { lemma_pack_lists_shape(l0, bufs, n_out as nat); }
        outputs.iter_output_mut_as_lists(0, &out)?;
        Ok(())
    }
}

/// The message of the error for an unconnected list input.
pub const LIST_NOT_CONNECTED: &'static str = "list input is not connected";

/// The message of the error for a list with fewer elements than outputs.
pub const LIST_TOO_SHORT: &'static str = "list has fewer elements than outputs";

/// The output buffers after writing the first `j` elements of `l` at sample `s`.
pub open spec fn unpack_sample(bufs: Seq<BufferValue>, mode: ProcessMode, l: ListValue, s: int, j: nat) -> Seq<BufferValue>
    decreases j,
{
    if j == 0 {
        bufs
    } else {
        let prev = unpack_sample(bufs, mode, l, s, (j - 1) as nat);
        prev.update(j - 1, set_result(prev[j - 1], mode, s, l.at(j - 1)))
    }
}

/// The output buffers after unpacking the first `s` samples of the list input into `no`
/// outputs.
pub open spec fn unpack_upto(bufs: Seq<BufferValue>, mode: ProcessMode, lists: Seq<SignalValue>, no: nat, s: nat) -> Seq<BufferValue>
    decreases s,
{
    if s == 0 {
        bufs
    } else {
        let prev = unpack_upto(bufs, mode, lists, no, (s - 1) as nat);
        match lists[s - 1] {
            SignalValue::List(Some(l)) => unpack_sample(prev, mode, l, s - 1, no),
            _ => prev,
        }
    }
}

/// Writing a sample keeps the length and type of a buffer.
pub proof fn lemma_set_result_shape(b: BufferValue, mode: ProcessMode, s: int, v: SignalValue)
    ensures
        set_result(b, mode, s, v).len() == b.len(),
        set_result(b, mode, s, v).signal_type() == b.signal_type(),
{
    let pos = match mode {
        ProcessMode::Sample(i) => i as int,
        ProcessMode::Block => s,
    };
    if 0 <= pos < b.len() && v.signal_type() == b.signal_type() {
        lemma_buffer_with_at(b, pos, v);
    }
}

/// Whether sample `s` of the list input holds a list with fewer than `no` elements.
pub open spec fn unpack_fault(lists: Seq<SignalValue>, no: nat, s: int) -> bool {
    match lists[s] {
        SignalValue::List(Some(l)) => l.len() < no,
        _ => false,
    }
}

/// Writing keeps the number of output buffers.
pub proof fn lemma_unpack_sample_len(bufs: Seq<BufferValue>, mode: ProcessMode, l: ListValue, s: int, j: nat)
    requires
        j <= bufs.len(),
    ensures
        unpack_sample(bufs, mode, l, s, j).len() == bufs.len(),
    decreases j,
{
    if j > 0 {
        lemma_unpack_sample_len(bufs, mode, l, s, (j - 1) as nat);
    }
}

/// Writing keeps the number of output buffers.
pub proof fn lemma_unpack_upto_len(bufs: Seq<BufferValue>, mode: ProcessMode, lists: Seq<SignalValue>, no: nat, s: nat)
    requires
        no <= bufs.len(),
    ensures
        unpack_upto(bufs, mode, lists, no, s).len() == bufs.len(),
    decreases s,
{
    if s > 0 {
        lemma_unpack_upto_len(bufs, mode, lists, no, (s - 1) as nat);
        let prev = unpack_upto(bufs, mode, lists, no, (s - 1) as nat);
        match lists[s - 1] {
            SignalValue::List(Some(l)) => { lemma_unpack_sample_len(prev, mode, l, s - 1, no); },
            _ => {},
        }
    }
}

/// A processor that unpacks a list into its outputs, one element per output.
#[derive(Clone, Debug)]
pub struct Unpack {
    num_outputs: usize,
    signal_type: SignalType,
}

impl Unpack {
    /// The number of outputs.
    pub closed spec fn num_outputs_spec(&self) -> nat {
        self.num_outputs as nat
    }

    /// The type of the elements.
    pub closed spec fn signal_type_spec(&self) -> SignalType {
        self.signal_type
    }

    /// Creates a new `Unpack` processor with `num_outputs` outputs of the given type.
    pub fn new(signal_type: SignalType, num_outputs: usize) -> (r: Self)
        ensures
            r.num_outputs_spec() == num_outputs,
            r.signal_type_spec() == signal_type,
    {
        Unpack { num_outputs, signal_type }
    }
}

impl Processor for Unpack {
    open spec fn name_spec(&self) -> Option<Seq<char>> {
        Some("Unpack"@)
    }

    open spec fn inputs_spec(&self) -> Option<Seq<(Seq<char>, SignalType)>> {
        Some(seq![("list"@, SignalType::List)])
    }

    open spec fn outputs_spec(&self) -> Option<Seq<(Seq<char>, SignalType)>> {
        Some(Seq::new(self.num_outputs_spec(), |i: int| (decimal(i as nat), self.signal_type_spec())))
    }

    fn name(&self) -> (r: &str)
        ensures
            r@ == "Unpack"@,
    {
        "Unpack"
    }

    fn input_spec(&self) -> (r: Vec<SignalSpec>)
        ensures
            r@.len() == 1,
            r@[0].name@ == "list"@,
            r@[0].signal_type == SignalType::List,
    {
        let mut v = Vec::new();
        v.push(SignalSpec::new("list", SignalType::List));
        let v_out = v;
        proof { assert(signature(v_out@) =~= seq![("list"@, SignalType::List)]); }
        v_out
    }

    fn output_spec(&self) -> (r: Vec<SignalSpec>)
        ensures
            r@.len() == self.num_outputs_spec(),
            forall|i: int| 0 <= i < r@.len() ==> (#[trigger] r@[i]).signal_type == self.signal_type_spec()
                && r@[i].name@ == decimal(i as nat),
    {
        let n = self.num_outputs;
        let mut v: Vec<SignalSpec> = Vec::new();
        let mut i: usize = 0;
        while i < n
            invariant
                i <= n,
                n == self.num_outputs_spec(),
                v@.len() == i,
                forall|j: int| 0 <= j < i ==> (#[trigger] v@[j]).signal_type == self.signal_type_spec() && v@[j].name@ == decimal(j as nat),
            decreases n - i,
        {
            v.push(SignalSpec::with_name(decimal_string(i as u64), self.signal_type));
            i += 1;
        }
        proof { assert(signature(v@) =~= Seq::new(self.num_outputs_spec(), |i: int| (decimal(i as nat), self.signal_type_spec()))); }
        v
    }

    #[verifier::loop_isolation(false)]
    fn process(&mut self, inputs: &ProcessorInputs, outputs: &mut ProcessorOutputs) -> (r: Result<(), ProcessorError>)
        ensures
            !io_counts(*inputs, *old(outputs), 1, old(self).num_outputs_spec()) ==> r == Err::<(), ProcessorError>(io_count_error(*inputs, 1)) && old(outputs).same(final(outputs)) && *final(self) == *old(self),
            io_counts(*inputs, *old(outputs), 1, old(self).num_outputs_spec()) ==> (inputs.buffers()[0] is None ==> r == Err::<(), ProcessorError>(ProcessorError::InvalidValue(LIST_NOT_CONNECTED))
                && old(outputs).same(final(outputs))),
            io_counts(*inputs, *old(outputs), 1, old(self).num_outputs_spec()) ==> (inputs.buffers()[0] matches Some(b) ==> ({
                let lists = Seq::new(b@.len(), |k: int| b@.at(k));
                let no = old(self).num_outputs_spec();
                let mode = old(outputs).mode_spec();
                let bufs0 = old(outputs).buffers();
                &&& b@.signal_type() != SignalType::List ==> r is Ok && old(outputs).same(final(outputs))
                &&& b@.signal_type() == SignalType::List && (forall|s: int| 0 <= s < lists.len() ==> !#[trigger] unpack_fault(lists, no, s)) ==> {
                    &&& r is Ok
                    &&& final(outputs).buffers() == unpack_upto(bufs0, mode, lists, no, lists.len())
                }
                &&& forall|s: int| 0 <= s < lists.len() && b@.signal_type() == SignalType::List && #[trigger] unpack_fault(lists, no, s)
                        && (forall|j: int| 0 <= j < s ==> !unpack_fault(lists, no, j)) ==> {
                    &&& r == Err::<(), ProcessorError>(ProcessorError::InvalidValue(LIST_TOO_SHORT))
                    &&& final(outputs).buffers() == unpack_sample(unpack_upto(bufs0, mode, lists, no, s as nat), mode,
                            lists[s]->List_0->0, s, lists[s]->List_0->0.len())
                }
                &&& final(outputs).specs() == old(outputs).specs()
                &&& final(outputs).mode_spec() == old(outputs).mode_spec()
            })),
    {
        check_io_counts(inputs, outputs, 1, self.num_outputs)?;
        let buf = match inputs.input(0) {
            Some(b) => b,
            None => { return Err(ProcessorError::InvalidValue(LIST_NOT_CONNECTED)); },
        };
        let samples = match List::samples_of(buf) {
            Some(v) => v,
            None => { return Ok(()); },
        };
        let ghost lists = Seq::new(buf@.len(), |k: int| buf@.at(k));
        let ghost mode = outputs.mode_spec();
        let ghost bufs0 = outputs.buffers();
        let no = self.num_outputs;
        let len = samples.len();
        let mut s: usize = 0;
        while s < len
            invariant
                s <= len,
                len == lists.len(),
                no == self.num_outputs_spec(),
                no == outputs.buffers().len(),
                outputs.wf(),
                outputs.specs() == old(outputs).specs(),
                outputs.mode_spec() == mode,
                outputs.buffers() == unpack_upto(bufs0, mode, lists, no as nat, s as nat),
                forall|j: int| 0 <= j < s ==> !#[trigger] unpack_fault(lists, no as nat, j),
                forall|k: int| 0 <= k < no ==> (#[trigger] outputs.buffers()[k]).signal_type() == bufs0[k].signal_type()
                    && outputs.buffers()[k].len() == bufs0[k].len(),
            decreases len - s,
        {
            match &samples[s] {
                Some(l) => {
                    let ghost start = outputs.buffers();
                    let ll = l.len();
                    let mut j: usize = 0;
                    while j < no
                        invariant
                            j <= no,
                            j <= ll,
                            s < len,
                            forall|k: int| 0 <= k < no ==> (#[trigger] outputs.buffers()[k]).signal_type() == bufs0[k].signal_type()
                                && outputs.buffers()[k].len() == bufs0[k].len(),
                            no == outputs.buffers().len(),
                            lists[s as int] == SignalValue::List(Some(l@)),
                            ll == l@.len(),
                            outputs.wf(),
                            outputs.specs() == old(outputs).specs(),
                            outputs.mode_spec() == mode,
                            start == unpack_upto(bufs0, mode, lists, no as nat, s as nat),
                            start.len() == no,
                            outputs.buffers() == unpack_sample(start, mode, l@, s as int, j as nat),
                            forall|k: int| 0 <= k < s ==> !#[trigger] unpack_fault(lists, no as nat, k),
                        decreases no - j,
                    {
                        proof { lemma_unpack_sample_len(start, mode, l@, s as int, j as nat); }
                        match l.get(j) {
                            Some(v) => {
                                let ghost before = outputs.buffers();
                                outputs.set_sample(j, s, &v);
                                proof {
                                    lemma_set_result_shape(before[j as int], mode, s as int, v@);
                                    assert forall|k: int| 0 <= k < no implies (#[trigger] outputs.buffers()[k]).signal_type() == bufs0[k].signal_type()
                                        && outputs.buffers()[k].len() == bufs0[k].len() by {
                                        if k != j {
                                            assert(outputs.buffers()[k] == before[k]);
                                        }
                                    }
                                }
                            },
                            None => {
                                proof {
                                    assert(unpack_fault(lists, no as nat, s as int));
                                    assert(j == ll);
                                }
                                return Err(ProcessorError::InvalidValue(LIST_TOO_SHORT));
                            },
                        }
                        j += 1;
                    }
                    proof { assert(!unpack_fault(lists, no as nat, s as int)); }
                },
                None => {},
            }
            s += 1;
        }
        Ok(())
    }
}

/// Replacing an element of a list by a value of its element type sets that element only.
pub proof fn lemma_list_with_at(l: ListValue, i: int, v: SignalValue, k: int)
    requires
        0 <= i < l.len(),
        0 <= k < l.len(),
        v.signal_type() == l.elem_type(),
    ensures
        l.with_at(i, v).at(k) == (if k == i { v } else { l.at(k) }),
{
}

/// The list packed from sample `s` holds, at each position up to `j`, the sample of the
/// matching input, when every input is connected, of the element type and has sample `s`.
pub proof fn lemma_pack_partial_at(l: ListValue, bufs: Seq<Option<BufferValue>>, s: int, j: nat, k: int)
    requires
        j <= l.len(),
        bufs.len() == l.len(),
        0 <= k < l.len(),
        0 <= s,
        forall|m: int| 0 <= m < bufs.len() ==> (#[trigger] bufs[m]) is Some
            && bufs[m]->0.signal_type() == l.elem_type() && s < bufs[m]->0.len(),
    ensures
        pack_partial(l, bufs, s, j).at(k) == (if k < j { bufs[k]->0.at(s) } else { l.at(k) }),
    decreases j,
{
    if j > 0 {
        let m = (j - 1) as nat;
        lemma_pack_partial_at(l, bufs, s, m, k);
        lemma_pack_partial_shape(l, bufs, s, m);
        let prev = pack_partial(l, bufs, s, m);
        let b = bufs[m as int]->0;
        assert(b.at(s).signal_type() == b.signal_type());
        lemma_list_with_at(prev, m as int, b.at(s), k);
    }
}

/// Unpacking `l` at sample `s` in block mode writes its element `k` at sample `s` of output
/// `k`, for each of the first `j` outputs, and leaves the other outputs alone.
pub proof fn lemma_unpack_sample_at(outs: Seq<BufferValue>, l: ListValue, s: int, j: nat, k: int)
    requires
        j <= outs.len(),
        0 <= k < outs.len(),
    ensures
        unpack_sample(outs, ProcessMode::Block, l, s, j)[k] == (if k < j { set_result(outs[k], ProcessMode::Block, s, l.at(k)) } else { outs[k] }),
    decreases j,
{
    if j > 0 {
        lemma_unpack_sample_at(outs, l, s, (j - 1) as nat, k);
        lemma_unpack_sample_len(outs, ProcessMode::Block, l, s, (j - 1) as nat);
    }
}

/// Unpacking undoes packing: when every input of a [`Pack`] is connected, holds the list's
/// element type and has sample `s`, the list it packs at sample `s` holds input `i`'s sample
/// at position `i`, and an [`Unpack`] in block mode writes that sample at sample `s` of its
/// output `i` (an output of the element type with that sample).
pub proof fn lemma_unpack_undoes_pack(l: ListValue, bufs: Seq<Option<BufferValue>>, outs: Seq<BufferValue>, s: int, i: int)
    requires
        bufs.len() == l.len(),
        outs.len() == l.len(),
        0 <= i < l.len(),
        0 <= s,
        forall|m: int| 0 <= m < bufs.len() ==> (#[trigger] bufs[m]) is Some
            && bufs[m]->0.signal_type() == l.elem_type() && s < bufs[m]->0.len(),
        outs[i].signal_type() == l.elem_type(),
        s < outs[i].len(),
    ensures
        pack_partial(l, bufs, s, l.len()).at(i) == bufs[i]->0.at(s),
        unpack_sample(outs, ProcessMode::Block, pack_partial(l, bufs, s, l.len()), s, l.len())[i].at(s) == bufs[i]->0.at(s),
{
    let packed = pack_partial(l, bufs, s, l.len());
    lemma_pack_partial_at(l, bufs, s, l.len(), i);
    lemma_unpack_sample_at(outs, packed, s, l.len(), i);
    let b = bufs[i]->0;
    assert(b.at(s).signal_type() == b.signal_type());
    lemma_buffer_with_at(outs[i], s, packed.at(i));
}

} // verus!
