use espectro::buffer::AudioBuffer;
use espectro::compressor::CompressorNode;

#[test]
fn test_compressor_creation() {
    let comp = CompressorNode::new("comp1".to_string());
    assert_eq!(comp.id(), "comp1");
    assert_eq!(comp.get_parameter("threshold"), Some(-20000000));
    assert_eq!(comp.get_parameter("ratio"), Some(4000000));
}

#[test]
fn test_compressor_parameters() {
    let mut comp = CompressorNode::new("comp1".to_string());
    comp.set_parameter("threshold", -10000000).unwrap();
    assert_eq!(comp.get_parameter("threshold"), Some(-10000000));
    comp.set_parameter("ratio", 8000000).unwrap();
    assert_eq!(comp.get_parameter("ratio"), Some(8000000));
}

#[test]
fn test_compressor_below_threshold_transparent() {
    // Below the threshold with zero makeup, the compressor passes the
    // signal through unchanged.
    let mut comp = CompressorNode::new("c".to_string());
    let mut input = AudioBuffer::new(2, 48000, 16);
    input.samples = vec![50000; 32]; // 0.05, well under the -20 dB threshold (0.1)
    let output = comp.process(&input);
    assert_eq!(output.samples, input.samples);
}

#[test]
fn test_compressor_attenuates_loud_signal() {
    let mut comp = CompressorNode::new("c".to_string());
    comp.set_parameter("attack", 100000).unwrap(); // fastest attack
    let mut input = AudioBuffer::new(2, 48000, 512);
    input.samples = vec![900000; 1024];
    let output = comp.process(&input);
    let last = output.samples[1022];
    assert!(last > 0);
    assert!(last < 400000);
}

#[test]
fn test_compressor_makeup_below_threshold_within_tolerance() {
    // below threshold the output is input * 10^(makeup/20), within
    // relative 1e-3 even at the largest makeup gain
    let mut comp = CompressorNode::new("c".to_string());
    comp.set_parameter("makeup", 24000000).unwrap();
    let mut input = AudioBuffer::new(2, 48000, 4);
    input.samples = vec![99999; 8]; // just under the -20 dB threshold
    let output = comp.process(&input);
    let expected = 0.099999f64 * 10f64.powf(1.2);
    for &s in output.samples.iter() {
        let got = s as f64 / 1e6;
        assert!((got - expected).abs() <= expected * 1e-3, "{got} vs {expected}");
    }
}

#[test]
fn test_compressor_reset() {
    let mut comp = CompressorNode::new("c".to_string());
    let mut input = AudioBuffer::new(2, 48000, 64);
    input.samples = vec![900000; 128];
    let _ = comp.process(&input);
    assert!(comp.envelope > 0);
    comp.reset();
    assert_eq!(comp.envelope, 0);
}

#[test]
fn test_compressor_unknown_parameter() {
    let mut comp = CompressorNode::new("c".to_string());
    assert!(matches!(
        comp.set_parameter("knee", 1),
        Err(espectro::error::GraphError::ParameterNotFound(_))
    ));
    assert_eq!(comp.get_parameter("knee"), None);
}
