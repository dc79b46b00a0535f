use raug::builtins::math::Constant;
use raug::builtins::util::{Counter, FloatCasts, Null};
use raug::signal::Float;
use raug::signal::SignalType;
use raug::graph::{Graph, NodeIndex};
use raug::message::MessageConversionError;

fn edges(g: &Graph) -> Vec<(u32, u32, u32, u32)> {
    let mut v: Vec<(u32, u32, u32, u32)> = g
        .digraph()
        .edge_indices()
        .map(|e| {
            let (s, t) = g.digraph().edge_endpoints(e).unwrap();
            let w = &g.digraph()[e];
            (s.index() as u32, t.index() as u32, w.source_output, w.target_input)
        })
        .collect();
    v.sort();
    v
}

#[test]
fn connect_replaces_existing_input_edge() {
    let mut g = Graph::new();
    let a = g.add_processor(Counter::default());
    let b = g.add_processor(Counter::default());
    let c = g.add_processor(Counter::default());
    assert!(g.connect(a, 0, c, 0).is_ok());
    assert!(g.connect(b, 0, c, 0).is_ok());
    assert_eq!(edges(&g), vec![(1, 2, 0, 0)]);
    assert_eq!(a, NodeIndex::new(0));
    assert_eq!(c.index(), 2);
}

#[test]
fn connect_twice_is_connect_once() {
    let mut g = Graph::new();
    let a = g.add_processor(Counter::default());
    let b = g.add_processor(Counter::default());
    g.connect(a, 0, b, 1).unwrap();
    let once = edges(&g);
    g.connect(a, 0, b, 1).unwrap();
    assert_eq!(edges(&g), once);
    assert_eq!(once.len(), 1);
}

#[test]
fn connect_keeps_edges_into_other_inputs() {
    let mut g = Graph::new();
    let a = g.add_processor(Counter::default());
    let b = g.add_processor(Counter::default());
    g.connect(a, 0, b, 0).unwrap();
    g.connect(a, 0, b, 1).unwrap();
    assert_eq!(edges(&g), vec![(0, 1, 0, 0), (0, 1, 0, 1)]);
}

#[test]
fn disconnect_undoes_connect() {
    let mut g = Graph::new();
    let a = g.add_processor(Counter::default());
    let b = g.add_processor(Counter::default());
    g.connect(a, 0, b, 1).unwrap();
    let before = edges(&g);
    g.connect(b, 0, a, 0).unwrap();
    g.disconnect(b, 0, a, 0);
    assert_eq!(edges(&g), before);
    g.disconnect(b, 0, a, 0);
    assert_eq!(edges(&g), before);
}

#[test]
fn disconnect_all_removes_edges_at_node() {
    let mut g = Graph::new();
    let a = g.add_processor(Counter::default());
    let b = g.add_processor(Counter::default());
    let c = g.add_processor(Counter::default());
    g.connect(a, 0, b, 0).unwrap();
    g.connect(b, 0, c, 0).unwrap();
    g.connect(a, 0, c, 1).unwrap();
    g.disconnect_all_inputs(b);
    assert_eq!(edges(&g), vec![(0, 2, 0, 1), (1, 2, 0, 0)]);
    g.disconnect_all_outputs(b);
    assert_eq!(edges(&g), vec![(0, 2, 0, 1)]);
    g.connect(b, 0, c, 0).unwrap();
    g.disconnect_all(c);
    assert_eq!(edges(&g), vec![]);
}

#[test]
fn params_are_found_by_name() {
    let mut g = Graph::new();
    let p = g.add_param("gain".to_string(), Constant::new(1i64));
    let q = g.add_midi_input("keys".to_string(), Null);
    assert_eq!(g.param_index("gain"), Some(p));
    assert_eq!(g.param_index("keys"), Some(q));
    assert_eq!(g.param_index("other"), None);
    assert_eq!(g.midi_input_index("keys"), Some(q));
    assert_eq!(g.midi_input_index("gain"), None);
    assert_eq!(g.num_params(), 2);
    let p2 = g.add_param("gain".to_string(), Constant::new(2i64));
    assert_eq!(g.param_index("gain"), Some(p2));
    assert_eq!(g.num_params(), 2);
}

#[test]
fn audio_inputs_and_outputs_are_listed() {
    let mut g = Graph::new();
    let i = g.add_audio_input();
    let o = g.add_audio_output();
    assert_eq!(g.num_audio_inputs(), 1);
    assert_eq!(g.num_audio_outputs(), 1);
    assert_eq!(g.input_indices(), &[i]);
    assert_eq!(g.output_indices(), &[o]);
    assert!(!g.needs_visitor_alloc());
    g.add_processor(Null);
    assert!(g.needs_visitor_alloc());
}

#[test]
fn prepare_allocates_visitor() {
    let mut g = Graph::default();
    let a = g.add_processor(Counter::default());
    let b = g.add_processor(Counter::default());
    g.connect(a, 0, b, 0).unwrap();
    assert!(g.needs_visitor_alloc());
    assert!(g.prepare().is_ok());
    assert!(!g.needs_visitor_alloc());
    assert!(g.resize_buffers(raug::signal::Float::zero(), 64).is_ok());
}

#[test]
fn message_conversion_error_messages() {
    assert_eq!(MessageConversionError::CannotConvertToMidi.message(), "Cannot convert message to MIDI");
    assert_eq!(MessageConversionError::CannotConvertToBool.message(), "Cannot convert message to boolean");
}

#[test]
fn add_cast_adds_a_node_only_between_castable_types() {
    let mut g = Graph::new();
    let a = g.add_processor(Counter::default());
    assert_eq!(g.add_cast::<TestCasts>(a, 0, SignalType::Int, SignalType::Int), Some(a));
    assert_eq!(g.num_nodes(), 1);
    assert_eq!(g.add_cast::<TestCasts>(a, 0, SignalType::Int, SignalType::Midi), None);
    assert_eq!(g.num_nodes(), 1);
    let c = g.add_cast::<TestCasts>(a, 0, SignalType::Int, SignalType::Float).unwrap();
    assert_eq!(c, NodeIndex::new(1));
    assert_eq!(edges(&g), vec![(0, 1, 0, 0)]);
    let node = &g.digraph()[petgraph::graph::NodeIndex::new(1)];
    assert_eq!(node.name(), "Cast");
    assert_eq!(node.input_spec()[0].signal_type, SignalType::Int);
    assert_eq!(node.output_spec()[0].signal_type, SignalType::Float);
    assert!(g.has_edge_room());
    assert!(g.can_connect(c, 0));
}

#[test]
fn prepare_visits_every_node_of_a_chain() {
    let mut g = Graph::new();
    let a = g.add_processor(Counter::default());
    let b = g.add_processor(Counter::default());
    let c = g.add_processor(Counter::default());
    assert!(g.connect(b, 0, c, 0).is_ok());
    assert!(g.connect(a, 0, b, 0).is_ok());
    assert!(g.prepare().is_ok());
    assert!(!g.needs_visitor_alloc());
}

struct TestCasts;

impl FloatCasts for TestCasts {
    fn int_to_float(i: i64) -> Float {
        Float::from_bits((i as f64).to_bits())
    }

    fn float_to_int(x: Float) -> i64 {
        f64::from_bits(x.to_bits()).round() as i64
    }

    fn float_to_string(x: Float) -> String {
        f64::from_bits(x.to_bits()).to_string()
    }

    fn parse_float(s: &str) -> Option<Float> {
        s.parse::<f64>().ok().map(|x| Float::from_bits(x.to_bits()))
    }
}

#[test]
fn builder_nodes_are_fed_by_their_source() {
    let mut g = Graph::new();
    let a = g.add_processor(Counter::default());
    let p = g.add_node_from(a, 0, SignalType::Int);
    let r = g.add_register_from(a, 0, SignalType::Int);
    let c = g.add_cond(a, 0, p, 0, r, 0, SignalType::Int).unwrap();
    assert_eq!(edges(&g), vec![(0, 1, 0, 0), (0, 2, 0, 0), (0, 3, 0, 0), (1, 3, 0, 1), (2, 3, 0, 2)]);
    assert_eq!(g.num_edges(), 5);
    assert_eq!(g.num_nodes(), 4);
    assert_eq!(g.digraph()[petgraph::graph::NodeIndex::new(c.index())].name(), "Cond");
    assert_eq!(g.add_cond(a, 0, p, 0, r, 0, SignalType::Dynamic), None);
}
