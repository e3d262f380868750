use espectro::buffer::AudioBuffer;
use espectro::gain::GainNode;

#[test]
fn test_gain_node() {
    let mut node = GainNode::new("gain1".to_string());
    assert_eq!(node.get_parameter("gain"), Some(0));
    assert!((node.gain_linear - 1000000).abs() < 1000);
    node.set_parameter("gain", 6000000).unwrap();
    assert!((node.gain_linear - 2000000).abs() < 10000);
    node.set_parameter("gain", -6000000).unwrap();
    assert!((node.gain_linear - 500000).abs() < 10000);
}

#[test]
fn test_gain_processing() {
    let mut node = GainNode::new("gain1".to_string());
    node.set_parameter("gain", 6000000).unwrap();
    let mut input = AudioBuffer::new(2, 48000, 4);
    input.samples = vec![500000; 8];
    let output = node.process(&input);
    assert!((output.samples[0] - 1000000).abs() < 100000);
}

#[test]
fn test_gain_exact_decades() {
    let mut node = GainNode::new("g".to_string());
    node.set_parameter("gain", 20000000).unwrap();
    assert_eq!(node.gain_linear, 10000000);
    node.set_parameter("gain", -20000000).unwrap();
    assert_eq!(node.gain_linear, 100000);
    node.set_parameter("gain", -60000000).unwrap();
    assert_eq!(node.gain_linear, 1000);
}

#[test]
fn test_gain_law_within_tolerance() {
    // peak(out) == 10^(g/20) * peak(in) within relative 1e-3, at an
    // off-grid gain value
    let mut node = GainNode::new("g".to_string());
    node.set_parameter("gain", 4999999).unwrap();
    let mut input = AudioBuffer::new(2, 48000, 2);
    input.samples = vec![500000, -500000, 250000, -250000];
    let output = node.process(&input);
    let expected = 0.5f64 * 10f64.powf(4.999999 / 20.0);
    let got = output.peak_level() as f64 / 1e6;
    assert!((got - expected).abs() <= expected * 1e-3, "{got} vs {expected}");
}

#[test]
fn test_gain_unknown_parameter() {
    let mut node = GainNode::new("g".to_string());
    assert!(matches!(
        node.set_parameter("volume", 1),
        Err(espectro::error::GraphError::ParameterNotFound(_))
    ));
    assert_eq!(node.get_parameter("volume"), None);
}
