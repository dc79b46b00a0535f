use raug::builtins::control::Cond;
use raug::builtins::list::{decimal_string, Get, Len, Pack, Unpack};
use raug::builtins::math::Constant;
use raug::builtins::midi::{MidiChannel, MidiGate, MidiNote, MidiTrigger, MidiVelocity};
use raug::builtins::storage::Register;
use raug::builtins::time::{SampleDelay, UnitDelay};
use raug::builtins::util::{
    int_to_string, parse_int, Cast, FloatCasts, Counter, Dedup, FiniteOrZero, IsNone, IsSome, Message, Null, OrElse, Passthrough, SampleAndHold, SampleRate,
    ZeroCrossing,
};
use raug::processor::{ProcessMode, Processor, ProcessorError, ProcessorInputs, ProcessorOutputs};
use raug::signal::{AnySignal, Float, List, ListItems, MidiMessage, SignalBuffer, SignalType};

fn f(x: f64) -> Float {
    Float::from_bits(x.to_bits())
}

fn fv(b: &SignalBuffer) -> Vec<Option<f64>> {
    match b {
        SignalBuffer::Float(v) => v.iter().map(|x| x.map(|y| f64::from_bits(y.to_bits()))).collect(),
        _ => panic!("not a float buffer"),
    }
}

fn iv(b: &SignalBuffer) -> Vec<Option<i64>> {
    match b {
        SignalBuffer::Int(v) => v.clone(),
        _ => panic!("not an int buffer"),
    }
}

fn bv(b: &SignalBuffer) -> Vec<Option<bool>> {
    match b {
        SignalBuffer::Bool(v) => v.clone(),
        _ => panic!("not a bool buffer"),
    }
}

fn floats(v: &[Option<f64>]) -> SignalBuffer {
    SignalBuffer::Float(v.iter().map(|x| x.map(f)).collect())
}

fn ints(v: &[Option<i64>]) -> SignalBuffer {
    SignalBuffer::Int(v.to_vec())
}

fn bools(v: &[Option<bool>]) -> SignalBuffer {
    SignalBuffer::Bool(v.to_vec())
}

fn int_list(v: &[i64]) -> List {
    List { items: ListItems::Int(v.iter().map(|x| Some(*x)).collect()) }
}

fn run<P: Processor>(p: &mut P, ins: &[Option<&SignalBuffer>], outs: Vec<SignalBuffer>) -> (Result<(), ProcessorError>, Vec<SignalBuffer>) {
    run_mode(p, ins, outs, ProcessMode::Block)
}

fn run_mode<P: Processor>(p: &mut P, ins: &[Option<&SignalBuffer>], outs: Vec<SignalBuffer>, mode: ProcessMode) -> (Result<(), ProcessorError>, Vec<SignalBuffer>) {
    let in_specs = p.input_spec();
    let out_specs = p.output_spec();
    let block = outs.first().map(|b| b.len()).unwrap_or(0);
    let inputs = ProcessorInputs::new(&in_specs, ins, mode, f(48000.0), block);
    let mut outputs = ProcessorOutputs::new(&out_specs, outs, mode);
    let r = p.process(&inputs, &mut outputs);
    (r, outputs.into_buffers())
}

#[test]
fn counter_counts_triggers_and_resets() {
    let mut c = Counter::default();
    let trig = bools(&[Some(true), Some(true), None, Some(true)]);
    let reset = bools(&[None, None, Some(true), None]);
    let (r, out) = run(&mut c, &[Some(&trig), Some(&reset)], vec![ints(&[None; 4])]);
    assert!(r.is_ok());
    assert_eq!(iv(&out[0]), vec![Some(0), Some(1), Some(0), Some(0)]);
    assert_eq!(c.count(), 1);
}

#[test]
fn counter_rejects_wrong_input_type() {
    let mut c = Counter::default();
    let trig = floats(&[Some(1.0)]);
    let (r, out) = run(&mut c, &[Some(&trig), None], vec![ints(&[Some(7)])]);
    assert!(matches!(r, Err(ProcessorError::InputSpecMismatch { index: 0, expected: SignalType::Bool, actual: SignalType::Float })));
    assert_eq!(iv(&out[0]), vec![Some(7)]);
}

#[test]
fn counter_rejects_wrong_output_type() {
    let mut c = Counter::default();
    let (r, _) = run(&mut c, &[None, None], vec![floats(&[None])]);
    assert!(matches!(r, Err(ProcessorError::OutputSpecMismatch { index: 0, expected: SignalType::Int, actual: SignalType::Float })));
}

#[test]
fn null_leaves_output_alone() {
    let mut n = Null;
    let (r, out) = run(&mut n, &[], vec![floats(&[Some(0.5)])]);
    assert!(r.is_ok());
    assert_eq!(fv(&out[0]), vec![Some(0.5)]);
}

#[test]
fn passthrough_copies_input() {
    let mut p = Passthrough::new(SignalType::Int);
    let input = ints(&[Some(1), None, Some(3)]);
    let (r, out) = run(&mut p, &[Some(&input)], vec![ints(&[Some(9); 3])]);
    assert!(r.is_ok());
    assert_eq!(iv(&out[0]), vec![Some(1), None, Some(3)]);
}

#[test]
fn sample_rate_fills_output() {
    let mut s = SampleRate;
    let (r, out) = run(&mut s, &[], vec![floats(&[None, None])]);
    assert!(r.is_ok());
    assert_eq!(fv(&out[0]), vec![Some(48000.0), Some(48000.0)]);
}

#[test]
fn zero_crossing_detects_sign_changes() {
    let mut z = ZeroCrossing::default();
    let input = floats(&[Some(-1.0), Some(1.0), None, Some(0.0), Some(0.0), Some(-2.0)]);
    let (r, out) = run(&mut z, &[Some(&input)], vec![bools(&[None; 6])]);
    assert!(r.is_ok());
    assert_eq!(bv(&out[0]), vec![None, Some(true), None, Some(true), None, None]);
}

#[test]
fn sample_and_hold_captures_on_trigger() {
    let mut s = SampleAndHold::default();
    let input = floats(&[Some(1.0), Some(2.0), Some(3.0)]);
    let trig = bools(&[None, Some(true), Some(false)]);
    let (r, out) = run(&mut s, &[Some(&input), Some(&trig)], vec![floats(&[None; 3])]);
    assert!(r.is_ok());
    assert_eq!(fv(&out[0]), vec![None, Some(2.0), Some(2.0)]);
}

#[test]
fn finite_or_zero_replaces_non_finite() {
    let mut p = FiniteOrZero;
    let input = floats(&[Some(f64::NAN), Some(f64::INFINITY), Some(-2.5), None]);
    let (r, out) = run(&mut p, &[Some(&input)], vec![floats(&[None; 4])]);
    assert!(r.is_ok());
    assert_eq!(fv(&out[0]), vec![Some(0.0), Some(0.0), Some(-2.5), None]);
}

#[test]
fn is_some_and_is_none() {
    let input = ints(&[Some(1), None]);
    let (r, out) = run(&mut IsSome::new(SignalType::Int), &[Some(&input)], vec![bools(&[None; 2])]);
    assert!(r.is_ok());
    assert_eq!(bv(&out[0]), vec![Some(true), Some(false)]);
    let (r, out) = run(&mut IsNone::new(SignalType::Int), &[Some(&input)], vec![bools(&[None; 2])]);
    assert!(r.is_ok());
    assert_eq!(bv(&out[0]), vec![Some(false), Some(true)]);
    let (r, out) = run(&mut IsSome::new(SignalType::Int), &[None], vec![bools(&[None; 2])]);
    assert!(r.is_ok());
    assert_eq!(bv(&out[0]), vec![Some(false), Some(false)]);
}

#[test]
fn or_else_fills_missing_values() {
    let mut p = OrElse::new(5i64);
    let input = ints(&[Some(1), None]);
    let (r, out) = run(&mut p, &[Some(&input)], vec![ints(&[None; 2])]);
    assert!(r.is_ok());
    assert_eq!(iv(&out[0]), vec![Some(1), Some(5)]);
}

#[test]
fn dedup_drops_values_equal_to_the_stored_one() {
    let mut p = Dedup::new(SignalType::Int);
    let input = ints(&[Some(1), Some(1), None]);
    let (r, out) = run(&mut p, &[Some(&input)], vec![ints(&[Some(0); 3])]);
    assert!(r.is_ok());
    assert_eq!(iv(&out[0]), vec![Some(1), Some(1), None]);
}

#[test]
fn message_outputs_on_trigger() {
    let mut m = Message::new(3i64);
    let trig = bools(&[Some(true), None, Some(true)]);
    let msg = ints(&[None, Some(4), None]);
    let (r, out) = run(&mut m, &[Some(&trig), None], vec![ints(&[Some(0); 3])]);
    assert!(r.is_ok());
    assert_eq!(iv(&out[0]), vec![Some(3), None, Some(3)]);
    // A connected message input replaces the stored message at every sample, empty ones too.
    let msg2 = ints(&[Some(4), Some(5), None]);
    let trig2 = bools(&[Some(true), Some(true), Some(true)]);
    let (r, out) = run(&mut m, &[Some(&trig2), Some(&msg2)], vec![ints(&[Some(0); 3])]);
    assert!(r.is_ok());
    assert_eq!(iv(&out[0]), vec![Some(4), Some(5), None]);
    let (r, out) = run(&mut m, &[Some(&trig), Some(&msg)], vec![ints(&[Some(0); 3])]);
    assert!(r.is_ok());
    assert_eq!(iv(&out[0]), vec![None, None, None]);
}

#[test]
fn message_rejects_message_of_other_type() {
    let mut m = Message::new(3i64);
    let trig = bools(&[Some(true), Some(true)]);
    let msg = floats(&[None, Some(1.0)]);
    let (r, out) = run(&mut m, &[Some(&trig), Some(&msg)], vec![ints(&[Some(0); 2])]);
    assert!(matches!(r, Err(ProcessorError::InputSpecMismatch { index: 1, expected: SignalType::Int, actual: SignalType::Float })));
    // The mismatch is found at the first sample, before anything is written.
    assert_eq!(iv(&out[0]), vec![Some(0), Some(0)]);
}

#[test]
fn register_holds_and_clears() {
    let mut reg = Register::new(SignalType::Int);
    let set = ints(&[Some(2), None, None, Some(5)]);
    let clear = bools(&[None, None, Some(false), None]);
    let (r, out) = run(&mut reg, &[Some(&set), Some(&clear)], vec![ints(&[None; 4])]);
    assert!(r.is_ok());
    assert_eq!(iv(&out[0]), vec![Some(2), None, None, Some(5)]);
    let (r, out) = run(&mut reg, &[None, Some(&clear)], vec![ints(&[None; 4])]);
    assert!(r.is_ok());
    assert_eq!(iv(&out[0]), vec![Some(5), Some(5), None, None]);
}

#[test]
fn constant_fills_output() {
    let mut c = Constant::new(7i64);
    let (r, out) = run(&mut c, &[], vec![ints(&[None; 3])]);
    assert!(r.is_ok());
    assert_eq!(iv(&out[0]), vec![Some(7); 3]);
    let mut c = Constant::new_any(AnySignal::Bool(Some(true)));
    let (r, out) = run(&mut c, &[], vec![bools(&[None; 2])]);
    assert!(r.is_ok());
    assert_eq!(bv(&out[0]), vec![Some(true); 2]);
}

#[test]
fn constant_in_sample_mode_writes_one_sample() {
    let mut c = Constant::new(7i64);
    let (r, out) = run_mode(&mut c, &[], vec![ints(&[None; 3])], ProcessMode::Sample(1));
    assert!(r.is_ok());
    assert_eq!(iv(&out[0]), vec![None, Some(7), None]);
}

#[test]
fn unit_delay_delays_by_one() {
    let mut d = UnitDelay::new();
    let input = floats(&[Some(1.0), Some(2.0), None]);
    let (r, out) = run(&mut d, &[Some(&input)], vec![floats(&[Some(9.0); 3])]);
    assert!(r.is_ok());
    assert_eq!(fv(&out[0]), vec![None, Some(1.0), Some(2.0)]);
    let (_, out) = run(&mut d, &[Some(&input)], vec![floats(&[None; 3])]);
    assert_eq!(fv(&out[0])[0], None);
}

#[test]
fn sample_delay_delays_by_delay_input() {
    let mut d = SampleDelay::new(4);
    let input = floats(&[Some(1.0), Some(2.0), Some(3.0), Some(4.0)]);
    let delay = ints(&[Some(2), Some(2), Some(2), Some(2)]);
    let (r, out) = run(&mut d, &[Some(&input), Some(&delay)], vec![floats(&[None; 4])]);
    assert!(r.is_ok());
    assert_eq!(fv(&out[0]), vec![Some(0.0), Some(0.0), Some(1.0), Some(2.0)]);
}

#[test]
fn sample_delay_rejects_negative_delay() {
    let mut d = SampleDelay::new(4);
    let input = floats(&[Some(1.0), Some(2.0)]);
    let delay = ints(&[Some(0), Some(-1)]);
    let (r, out) = run(&mut d, &[Some(&input), Some(&delay)], vec![floats(&[None; 2])]);
    assert!(matches!(r, Err(ProcessorError::InvalidValue(_))));
    assert_eq!(fv(&out[0]), vec![Some(0.0), None]);
}

#[test]
fn len_of_lists() {
    let lists = SignalBuffer::List(vec![Some(int_list(&[1, 2, 3])), None]);
    let (r, out) = run(&mut Len, &[Some(&lists)], vec![ints(&[Some(0); 2])]);
    assert!(r.is_ok());
    assert_eq!(iv(&out[0]), vec![Some(3), None]);
}

#[test]
fn get_reads_elements() {
    let mut g = Get::new(SignalType::Int);
    let lists = SignalBuffer::List(vec![Some(int_list(&[10, 20])), Some(int_list(&[10, 20])), None]);
    let index = ints(&[Some(1), None, Some(0)]);
    let (r, out) = run(&mut g, &[Some(&lists), Some(&index)], vec![ints(&[Some(0); 3])]);
    assert!(r.is_ok());
    assert_eq!(iv(&out[0]), vec![Some(20), None, None]);
}

#[test]
fn get_rejects_index_out_of_range() {
    let mut g = Get::new(SignalType::Int);
    let lists = SignalBuffer::List(vec![Some(int_list(&[10])), Some(int_list(&[10]))]);
    let index = ints(&[Some(0), Some(5)]);
    let (r, out) = run(&mut g, &[Some(&lists), Some(&index)], vec![ints(&[None; 2])]);
    assert!(matches!(r, Err(ProcessorError::InvalidValue(_))));
    assert_eq!(iv(&out[0]), vec![Some(10), None]);
}

#[test]
fn get_rejects_list_of_other_type() {
    let mut g = Get::new(SignalType::Float);
    let lists = SignalBuffer::List(vec![Some(int_list(&[10]))]);
    let index = ints(&[Some(0)]);
    let (r, _) = run(&mut g, &[Some(&lists), Some(&index)], vec![floats(&[None])]);
    assert!(matches!(r, Err(ProcessorError::InputSpecMismatch { index: 0, expected: SignalType::Float, actual: SignalType::Int })));
}

#[test]
fn pack_collects_inputs() {
    let mut p = Pack::new(SignalType::Int, 2);
    assert_eq!(p.num_inputs(), 2);
    assert_eq!(p.input_spec()[1].name, "1");
    let a = ints(&[Some(1), Some(2)]);
    let (r, out) = run(&mut p, &[Some(&a), None], vec![SignalBuffer::List(vec![None, None])]);
    assert!(r.is_ok());
    match &out[0] {
        SignalBuffer::List(v) => {
            let second = v[1].as_ref().unwrap();
            match &second.items {
                ListItems::Int(items) => assert_eq!(items, &vec![Some(2), None]),
                _ => panic!("wrong element type"),
            }
        },
        _ => panic!("not a list buffer"),
    }
}

#[test]
fn pack_rejects_input_of_other_type() {
    let mut p = Pack::new(SignalType::Int, 1);
    let a = floats(&[Some(1.0)]);
    let (r, _) = run(&mut p, &[Some(&a)], vec![SignalBuffer::List(vec![None])]);
    assert!(matches!(r, Err(ProcessorError::InputSpecMismatch { index: 0, expected: SignalType::Int, actual: SignalType::Float })));
}

#[test]
fn unpack_spreads_list() {
    let mut u = Unpack::new(SignalType::Int, 2);
    let lists = SignalBuffer::List(vec![Some(int_list(&[4, 5])), None]);
    let (r, out) = run(&mut u, &[Some(&lists)], vec![ints(&[None; 2]), ints(&[None; 2])]);
    assert!(r.is_ok());
    assert_eq!(iv(&out[0]), vec![Some(4), None]);
    assert_eq!(iv(&out[1]), vec![Some(5), None]);
}

#[test]
fn unpack_rejects_short_list_and_unconnected_input() {
    let mut u = Unpack::new(SignalType::Int, 2);
    let lists = SignalBuffer::List(vec![Some(int_list(&[4]))]);
    let (r, out) = run(&mut u, &[Some(&lists)], vec![ints(&[None]), ints(&[None])]);
    assert!(matches!(r, Err(ProcessorError::InvalidValue(_))));
    assert_eq!(iv(&out[0]), vec![Some(4)]);
    let (r, _) = run(&mut u, &[None], vec![ints(&[None]), ints(&[None])]);
    assert!(matches!(r, Err(ProcessorError::InvalidValue(_))));
}

#[test]
fn cond_selects_branch() {
    let mut c: Cond<i64> = Cond::new();
    let cond = bools(&[Some(true), Some(false), None]);
    let then_in = ints(&[Some(1), Some(1), Some(1)]);
    let else_in = ints(&[Some(2), Some(2), Some(2)]);
    let (r, out) = run(&mut c, &[Some(&cond), Some(&then_in), Some(&else_in)], vec![ints(&[Some(0); 3])]);
    assert!(r.is_ok());
    assert_eq!(iv(&out[0]), vec![Some(1), Some(2), None]);
}

fn midi(status: u8, d1: u8, d2: u8) -> Option<MidiMessage> {
    Some(MidiMessage::new(status, d1, d2))
}

#[test]
fn midi_processors() {
    let msgs = SignalBuffer::Midi(vec![midi(0x91, 60, 100), None, midi(0x80, 60, 0), midi(0x90, 62, 0)]);
    let (r, out) = run(&mut MidiNote::default(), &[Some(&msgs)], vec![floats(&[None; 4])]);
    assert!(r.is_ok());
    assert_eq!(fv(&out[0]), vec![Some(60.0), Some(60.0), Some(60.0), Some(62.0)]);
    let (r, out) = run(&mut MidiVelocity::default(), &[Some(&msgs)], vec![floats(&[None; 4])]);
    assert!(r.is_ok());
    assert_eq!(fv(&out[0]), vec![Some(100.0), Some(100.0), Some(0.0), Some(0.0)]);
    let (r, out) = run(&mut MidiGate::default(), &[Some(&msgs)], vec![bools(&[None; 4])]);
    assert!(r.is_ok());
    assert_eq!(bv(&out[0]), vec![Some(true), Some(true), Some(false), Some(false)]);
    let (r, out) = run(&mut MidiTrigger, &[Some(&msgs)], vec![bools(&[None; 4])]);
    assert!(r.is_ok());
    assert_eq!(bv(&out[0]), vec![Some(true), None, None, None]);
    let (r, out) = run(&mut MidiChannel, &[Some(&msgs)], vec![floats(&[None; 4])]);
    assert!(r.is_ok());
    assert_eq!(fv(&out[0]), vec![Some(1.0), None, Some(0.0), Some(0.0)]);
}

#[test]
fn float_from_u8_matches_ieee_conversion() {
    for n in 0..=255u8 {
        assert_eq!(Float::from_u8(n).to_bits(), (n as f64).to_bits());
    }
}

#[test]
fn float_comparisons_follow_ieee() {
    let nan = f(f64::NAN);
    assert!(!nan.float_eq(&nan));
    assert!(f(0.0).float_eq(&f(-0.0)));
    assert!(f(-1.0).float_lt(&f(0.5)));
    assert!(!f(0.0).float_lt(&f(-0.0)));
    assert!(f(f64::NEG_INFINITY).float_lt(&f(-1e300)));
    assert!(f(1.0).is_finite() && !f(f64::INFINITY).is_finite() && nan.is_nan());
}

#[test]
fn pack_and_unpack_name_ports_by_index() {
    let p = Pack::new(SignalType::Float, 12);
    let names: Vec<String> = p.input_spec().iter().map(|s| s.name.clone()).collect();
    assert_eq!(names[0], "0");
    assert_eq!(names[2], "2");
    assert_eq!(names[11], "11");
    let u = Unpack::new(SignalType::Int, 2);
    let names: Vec<String> = u.output_spec().iter().map(|s| s.name.clone()).collect();
    assert_eq!(names, vec!["0".to_string(), "1".to_string()]);
    assert_eq!(decimal_string(0), "0");
    assert_eq!(decimal_string(1234567), "1234567");
}

#[test]
fn processors_reject_wrong_numbers_of_buffers() {
    let mut p = Passthrough::new(SignalType::Int);
    let a = ints(&[Some(1)]);
    let (r, _) = run(&mut p, &[Some(&a), Some(&a)], vec![ints(&[None])]);
    assert!(matches!(r, Err(ProcessorError::NumInputsMismatch)));
    let (r, _) = run(&mut p, &[Some(&a)], vec![]);
    assert!(matches!(r, Err(ProcessorError::NumOutputsMismatch)));
}

#[test]
fn untyped_reads_keep_connected_empty_samples() {
    let specs: Vec<raug::processor::SignalSpec> = vec![];
    let b = ints(&[None, Some(3)]);
    let bufs = [Some(&b)];
    let inputs = ProcessorInputs::new(&specs, &bufs, ProcessMode::Block, f(48000.0), 2);
    let read = inputs.iter_input(0);
    assert_eq!(read.len(), 2);
    assert!(matches!(read[0], Some(AnySignal::Int(None))));
    assert!(matches!(read[1], Some(AnySignal::Int(Some(3)))));
    let none: [Option<&SignalBuffer>; 1] = [None];
    let inputs = ProcessorInputs::new(&specs, &none, ProcessMode::Block, f(48000.0), 2);
    assert!(inputs.iter_input(0).iter().all(|x| x.is_none()));
}

struct Casts;

impl FloatCasts for Casts {
    fn int_to_float(i: i64) -> Float {
        f(i as f64)
    }

    fn float_to_int(x: Float) -> i64 {
        f64::from_bits(x.to_bits()).round() as i64
    }

    fn float_to_string(x: Float) -> String {
        f64::from_bits(x.to_bits()).to_string()
    }

    fn parse_float(s: &str) -> Option<Float> {
        s.parse::<f64>().ok().map(f)
    }
}

#[test]
fn parse_int_follows_std() {
    for s in ["42", "-7", "+3", "", "-", "+", "1a", " 1", "007", "9223372036854775807", "9223372036854775808",
        "-9223372036854775808", "-9223372036854775809", "99999999999999999999"] {
        assert_eq!(parse_int(s), s.parse::<i64>().ok(), "{}", s);
    }
    for i in [0i64, 7, -15, 1234567890, i64::MAX, i64::MIN] {
        assert_eq!(int_to_string(i), i.to_string());
    }
}

#[test]
fn cast_converts_samples() {
    let mut c = Cast::<Casts>::new(SignalType::Bool, SignalType::Int);
    assert_eq!(c.input_spec()[0].signal_type, SignalType::Bool);
    assert_eq!(c.output_spec()[0].signal_type, SignalType::Int);
    let b = bools(&[Some(true), Some(false), None]);
    let (r, out) = run(&mut c, &[Some(&b)], vec![ints(&[Some(9); 3])]);
    assert!(r.is_ok());
    assert_eq!(iv(&out[0]), vec![Some(1), Some(0), None]);
    let mut c = Cast::<Casts>::new(SignalType::Int, SignalType::Float);
    let i = ints(&[Some(3), None]);
    let (r, out) = run(&mut c, &[Some(&i)], vec![floats(&[None; 2])]);
    assert!(r.is_ok());
    assert_eq!(fv(&out[0]), vec![Some(3.0), None]);
}

#[test]
fn cast_rejects_unparsable_text() {
    let mut c = Cast::<Casts>::new(SignalType::String, SignalType::Int);
    let t = SignalBuffer::String(vec![Some("12".to_string()), Some("x".to_string())]);
    let (r, out) = run(&mut c, &[Some(&t)], vec![ints(&[None; 2])]);
    assert!(matches!(r, Err(ProcessorError::InvalidCast(SignalType::String, SignalType::Int))));
    assert_eq!(iv(&out[0]), vec![Some(12), None]);
}
