use espectro::buffer::AudioBuffer;
use espectro::mixer::MixerNode;

#[test]
fn test_mixer_creation() {
    let mixer = MixerNode::new("mixer1".to_string(), 4);
    assert_eq!(mixer.id(), "mixer1");
    assert_eq!(mixer.num_inputs, 4);
}

#[test]
fn test_mixer_passthrough() {
    let mut mixer = MixerNode::new("mixer1".to_string(), 2);
    let input = AudioBuffer::new(2, 48000, 512);
    let output = mixer.process(&input);
    assert_eq!(output.channels, input.channels);
    assert_eq!(output.sample_rate, input.sample_rate);
    assert_eq!(output.samples.len(), input.samples.len());
}

#[test]
fn test_mixer_metadata_name() {
    let mixer = MixerNode::new("bus".to_string(), 4);
    let md = mixer.metadata();
    assert_eq!(md.name, "4-Input Mixer");
    assert!(md.parameters.is_empty());
}
