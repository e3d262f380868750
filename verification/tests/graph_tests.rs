use espectro::buffer::AudioBuffer;
use espectro::compressor::CompressorNode;
use espectro::connection::Connection;
use espectro::eq::EqualizerNode;
use espectro::error::GraphError;
use espectro::gain::GainNode;
use espectro::graph::AudioGraph;
use espectro::kind::NodeKind;
use espectro::mixer::MixerNode;

fn gain(id: &str) -> NodeKind {
    NodeKind::Gain(GainNode::new(id.to_string()))
}

#[test]
fn test_add_remove_node() {
    let mut graph = AudioGraph::new();
    graph.add_node(gain("node1")).unwrap();
    assert_eq!(graph.node_ids().len(), 1);
    graph.remove_node("node1").unwrap();
    assert_eq!(graph.node_ids().len(), 0);
}

#[test]
fn test_duplicate_node() {
    let mut graph = AudioGraph::new();
    graph.add_node(gain("node1")).unwrap();
    let result = graph.add_node(gain("node1"));
    assert!(matches!(result, Err(GraphError::NodeAlreadyExists(_))));
}

#[test]
fn test_connect_nodes() {
    let mut graph = AudioGraph::new();
    graph.add_node(gain("node1")).unwrap();
    graph.add_node(gain("node2")).unwrap();
    let conn = Connection::simple("node1".to_string(), "node2".to_string());
    graph.connect(conn).unwrap();
    assert_eq!(graph.connections().len(), 1);
}

#[test]
fn test_cycle_detection() {
    let mut graph = AudioGraph::new();
    graph.add_node(gain("node1")).unwrap();
    graph.add_node(gain("node2")).unwrap();
    graph.connect(Connection::simple("node1".to_string(), "node2".to_string())).unwrap();
    let result = graph.connect(Connection::simple("node2".to_string(), "node1".to_string()));
    assert!(matches!(result, Err(GraphError::CycleDetected)));
}

#[test]
fn test_cycle_rejected_leaves_graph_unchanged() {
    let mut graph = AudioGraph::new();
    graph.add_node(gain("a")).unwrap();
    graph.add_node(gain("b")).unwrap();
    graph.connect(Connection::simple("a".to_string(), "b".to_string())).unwrap();
    let result = graph.connect(Connection::simple("b".to_string(), "a".to_string()));
    assert!(matches!(result, Err(GraphError::CycleDetected)));
    assert_eq!(graph.connections().len(), 1);
    assert_eq!(graph.connections()[0].from_node, "a");
    assert_eq!(graph.execution_order, vec!["a".to_string(), "b".to_string()]);
}

#[test]
fn test_longer_cycle_rejected() {
    let mut graph = AudioGraph::new();
    for id in ["a", "b", "c"] {
        graph.add_node(gain(id)).unwrap();
    }
    graph.connect(Connection::simple("a".to_string(), "b".to_string())).unwrap();
    graph.connect(Connection::simple("b".to_string(), "c".to_string())).unwrap();
    let result = graph.connect(Connection::simple("c".to_string(), "a".to_string()));
    assert!(matches!(result, Err(GraphError::CycleDetected)));
    assert_eq!(graph.connections().len(), 2);
}

#[test]
fn test_remove_cascades() {
    let mut graph = AudioGraph::new();
    for id in ["a", "b", "c"] {
        graph.add_node(gain(id)).unwrap();
    }
    graph.connect(Connection::simple("a".to_string(), "b".to_string())).unwrap();
    graph.connect(Connection::simple("b".to_string(), "c".to_string())).unwrap();
    graph.remove_node("b").unwrap();
    assert!(graph.connections().is_empty());
    let mut ids = graph.node_ids();
    ids.sort();
    assert_eq!(ids, vec!["a".to_string(), "c".to_string()]);
    assert_eq!(graph.execution_order.len(), 2);
}

#[test]
fn test_remove_missing_node() {
    let mut graph = AudioGraph::new();
    assert!(matches!(
        graph.remove_node("ghost"),
        Err(GraphError::NodeNotFound(_))
    ));
}

#[test]
fn test_connect_missing_endpoint() {
    let mut graph = AudioGraph::new();
    graph.add_node(gain("a")).unwrap();
    let r1 = graph.connect(Connection::simple("x".to_string(), "a".to_string()));
    assert!(matches!(r1, Err(GraphError::NodeNotFound(_))));
    let r2 = graph.connect(Connection::simple("a".to_string(), "x".to_string()));
    assert!(matches!(r2, Err(GraphError::NodeNotFound(_))));
}

#[test]
fn test_disconnect_is_noop_on_missing_edge() {
    let mut graph = AudioGraph::new();
    graph.add_node(gain("a")).unwrap();
    graph.add_node(gain("b")).unwrap();
    graph.connect(Connection::simple("a".to_string(), "b".to_string())).unwrap();
    graph.disconnect("b", "a").unwrap();
    assert_eq!(graph.connections().len(), 1);
    graph.disconnect("a", "b").unwrap();
    assert!(graph.connections().is_empty());
}

#[test]
fn test_order_respects_edges() {
    let mut graph = AudioGraph::new();
    for id in ["s", "m", "t"] {
        graph.add_node(gain(id)).unwrap();
    }
    // t -> m -> s forces a reorder away from insertion order
    graph.connect(Connection::simple("t".to_string(), "m".to_string())).unwrap();
    graph.connect(Connection::simple("m".to_string(), "s".to_string())).unwrap();
    let order = &graph.execution_order;
    let pos = |x: &str| order.iter().position(|o| o == x).unwrap();
    assert!(pos("t") < pos("m"));
    assert!(pos("m") < pos("s"));
    assert_eq!(order.len(), 3);
}

#[test]
fn test_graph_parameter_routing() {
    let mut graph = AudioGraph::new();
    graph.add_node(gain("g1")).unwrap();
    graph.set_parameter("g1", "gain", 200000000).unwrap();
    assert_eq!(graph.get_parameter("g1", "gain").unwrap(), Some(24000000));
    graph.set_parameter("g1", "gain", -999000000).unwrap();
    assert_eq!(graph.get_parameter("g1", "gain").unwrap(), Some(-60000000));
    assert!(matches!(
        graph.set_parameter("ghost", "gain", 0),
        Err(GraphError::NodeNotFound(_))
    ));
    assert!(matches!(
        graph.set_parameter("g1", "volume", 0),
        Err(GraphError::ParameterNotFound(_))
    ));
    assert_eq!(graph.get_parameter("g1", "volume").unwrap(), None);
}

#[test]
fn test_process_empty_graph_has_no_sink() {
    let mut graph = AudioGraph::new();
    let input = AudioBuffer::new(2, 48000, 16);
    let result = graph.process(input);
    assert!(matches!(result, Err(GraphError::ProcessingError(_))));
}

#[test]
fn test_linear_chain() {
    let mut graph = AudioGraph::new();
    graph.add_node(gain("g1")).unwrap();
    graph.add_node(NodeKind::Equalizer(EqualizerNode::new("e1".to_string(), 3))).unwrap();
    graph.add_node(NodeKind::Compressor(CompressorNode::new("c1".to_string()))).unwrap();
    graph.connect(Connection::simple("g1".to_string(), "e1".to_string())).unwrap();
    graph.connect(Connection::simple("e1".to_string(), "c1".to_string())).unwrap();
    graph.set_parameter("g1", "gain", 0).unwrap();
    let mut input = AudioBuffer::new(2, 48000, 512);
    input.samples = vec![500000; 1024];
    let output = graph.process(input).unwrap();
    assert_eq!(output.num_frames(), 512);
    assert_eq!(output.channels, 2);
    assert!(output.peak_level() <= 500000 + 1000);
}

#[test]
fn test_fan_in_doubles_equal_buffers() {
    // a and b both feed c and emit identical buffers, so c receives the
    // element-wise double.
    let mut graph = AudioGraph::new();
    graph.add_node(gain("a")).unwrap();
    graph.add_node(gain("b")).unwrap();
    graph.add_node(NodeKind::Mixer(MixerNode::new("c".to_string(), 2))).unwrap();
    graph.connect(Connection::simple("a".to_string(), "c".to_string())).unwrap();
    graph.connect(Connection::simple("b".to_string(), "c".to_string())).unwrap();
    let input = AudioBuffer::new(2, 48000, 512);
    let output = graph.process(input).unwrap();
    // both sources emit unity-gain silence, and the mix of two equal
    // buffers keeps every doubled sample
    assert_eq!(output.samples.len(), 1024);
    assert!(output.samples.iter().all(|&s| s == 0));
}

#[test]
fn test_node_kind_reset_and_latency() {
    let mut node = NodeKind::Compressor(CompressorNode::new("c".to_string()));
    assert_eq!(node.latency(), 0);
    let mut input = AudioBuffer::new(2, 48000, 64);
    input.samples = vec![900000; 128];
    let _ = node.process(&input);
    node.reset();
    match node {
        NodeKind::Compressor(c) => assert_eq!(c.envelope, 0),
        _ => unreachable!(),
    }
}
