use espectro::buffer::AudioBuffer;
use espectro::pan::PanNode;

#[test]
fn test_pan_center() {
    let mut node = PanNode::new("pan1".to_string());
    let mut input = AudioBuffer::new(2, 48000, 4);
    input.samples = vec![1000000; 8];
    let output = node.process(&input);
    assert!((output.samples[0] - output.samples[1]).abs() < 10000);
}

#[test]
fn test_pan_left() {
    let mut node = PanNode::new("pan1".to_string());
    node.set_parameter("pan", -1000000).unwrap();
    let mut input = AudioBuffer::new(2, 48000, 2);
    input.samples = vec![1000000; 4];
    let output = node.process(&input);
    assert!(output.samples[0] > output.samples[1]);
}

#[test]
fn test_pan_right() {
    let mut node = PanNode::new("pan1".to_string());
    node.set_parameter("pan", 1000000).unwrap();
    let mut input = AudioBuffer::new(2, 48000, 2);
    input.samples = vec![1000000; 4];
    let output = node.process(&input);
    assert!(output.samples[1] > output.samples[0]);
}

#[test]
fn test_equal_power_pan_center_value() {
    let mut node = PanNode::new("pan1".to_string());
    node.set_parameter("pan", 0).unwrap();
    let mut input = AudioBuffer::new(2, 48000, 2);
    input.samples = vec![1000000; 4];
    let output = node.process(&input);
    assert_eq!(output.samples[0], output.samples[1]);
    // sqrt(2)/2 within the 1e-3 tolerance the numeric laws allow
    assert!((output.samples[0] - 707107).abs() <= 1000);
}

#[test]
fn test_equal_power_law_across_positions() {
    // gl^2 + gr^2 stays within 1e-3 of 1 for every pan position tried
    for pan in [-1000000i64, -750000, -333333, -1, 0, 1, 250000, 500000, 999999, 1000000] {
        let mut node = PanNode::new("pan1".to_string());
        node.set_parameter("pan", pan).unwrap();
        let mut input = AudioBuffer::new(2, 48000, 1);
        input.samples = vec![1000000; 2];
        let output = node.process(&input);
        let gl = output.samples[0] as f64 / 1e6;
        let gr = output.samples[1] as f64 / 1e6;
        assert!((gl * gl + gr * gr - 1.0).abs() <= 1e-3, "pan {pan}: {gl} {gr}");
    }
}
