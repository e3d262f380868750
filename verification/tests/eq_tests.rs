use espectro::buffer::AudioBuffer;
use espectro::eq::EqualizerNode;
use espectro::error::GraphError;

#[test]
fn test_eq_creation() {
    let eq = EqualizerNode::new("eq1".to_string(), 5);
    assert_eq!(eq.bands.len(), 5);
    assert_eq!(eq.id(), "eq1");
}

#[test]
fn test_eq_parameters() {
    let mut eq = EqualizerNode::new("eq1".to_string(), 3);
    eq.set_parameter("band_0_gain", 6000000).unwrap();
    assert_eq!(eq.get_parameter("band_0_gain"), Some(6000000));
    eq.set_parameter("band_1_freq", 1000000000).unwrap();
    assert_eq!(eq.get_parameter("band_1_freq"), Some(1000000000));
    eq.set_parameter("band_2_q", 2000000).unwrap();
    assert_eq!(eq.get_parameter("band_2_q"), Some(2000000));
}

#[test]
fn test_eq_processing() {
    let mut eq = EqualizerNode::new("eq1".to_string(), 3);
    let input = AudioBuffer::new(2, 48000, 512);
    let output = eq.process(&input);
    assert_eq!(output.channels, 2);
    assert_eq!(output.sample_rate, 48000);
}

#[test]
fn test_eq_flat_is_identity() {
    // Every band at 0 dB: processing returns the input exactly.
    let mut eq = EqualizerNode::new("eq1".to_string(), 3);
    let mut input = AudioBuffer::new(2, 48000, 16);
    input.samples = (0..32).map(|i| (i as i64 - 16) * 10000).collect();
    let output = eq.process(&input);
    assert_eq!(output.samples, input.samples);
}

#[test]
fn test_eq_boosted_band_changes_signal() {
    let mut eq = EqualizerNode::new("eq1".to_string(), 3);
    eq.set_parameter("band_0_gain", 12000000).unwrap();
    let mut input = AudioBuffer::new(2, 48000, 64);
    input.samples = vec![400000; 128];
    let output = eq.process(&input);
    assert_ne!(output.samples, input.samples);
}

#[test]
fn test_eq_malformed_names() {
    let mut eq = EqualizerNode::new("eq1".to_string(), 3);
    for name in ["band", "band__gain", "band_x_gain", "band_00_gain", "band_3_gain", "band_0_width", "gain"] {
        assert!(matches!(
            eq.set_parameter(name, 0),
            Err(GraphError::ParameterNotFound(_))
        ), "{name}");
        assert_eq!(eq.get_parameter(name), None, "{name}");
    }
}

#[test]
fn test_eq_metadata_names() {
    let eq = EqualizerNode::new("eq1".to_string(), 2);
    let md = eq.metadata();
    assert_eq!(md.name, "2-Band Parametric EQ");
    assert_eq!(md.parameters.len(), 6);
    assert_eq!(md.parameters[0].name, "band_0_gain");
    assert_eq!(md.parameters[1].name, "band_0_freq");
    assert_eq!(md.parameters[2].name, "band_0_q");
    assert_eq!(md.parameters[3].name, "band_1_gain");
    assert_eq!(md.parameters[4].name, "band_1_freq");
    assert_eq!(md.parameters[5].name, "band_1_q");
    assert_eq!(md.parameters[1].default, 60000000);
    assert_eq!(md.parameters[4].default, 170000000);
}

#[test]
fn test_eq_reset_clears_history() {
    let mut eq = EqualizerNode::new("eq1".to_string(), 1);
    eq.set_parameter("band_0_gain", 12000000).unwrap();
    let mut input = AudioBuffer::new(2, 48000, 16);
    input.samples = vec![400000; 32];
    let _ = eq.process(&input);
    assert_ne!(eq.bands[0].filter.y1_l, 0);
    eq.reset();
    assert_eq!(eq.bands[0].filter.y1_l, 0);
    assert_eq!(eq.bands[0].filter.x1_r, 0);
}
