use espectro::buffer::AudioBuffer;
use espectro::strip::ChannelStripNode;

#[test]
fn test_channel_strip_creation() {
    let strip = ChannelStripNode::new("ch1".to_string());
    assert_eq!(strip.id(), "ch1");
    assert_eq!(strip.get_parameter("gain"), Some(0));
    assert_eq!(strip.get_parameter("pan"), Some(0));
}

#[test]
fn test_mute() {
    let mut strip = ChannelStripNode::new("ch1".to_string());
    let input = AudioBuffer::new(2, 48000, 4);
    let output1 = strip.process(&input);
    assert_eq!(output1.samples.len(), input.samples.len());
    strip.set_parameter("mute", 1000000).unwrap();
    let output2 = strip.process(&input);
    assert!(output2.samples.iter().all(|&s| s == 0));
}

#[test]
fn test_gain_and_pan() {
    let mut strip = ChannelStripNode::new("ch1".to_string());
    strip.set_parameter("gain", 6000000).unwrap();
    strip.set_parameter("pan", 500000).unwrap();
    assert_eq!(strip.get_parameter("gain"), Some(6000000));
    assert_eq!(strip.get_parameter("pan"), Some(500000));
}

#[test]
fn test_mute_dominates_any_input() {
    let mut strip = ChannelStripNode::new("ch1".to_string());
    strip.set_parameter("mute", 1000000).unwrap();
    let mut input = AudioBuffer::new(2, 48000, 8);
    input.samples = vec![812345; 16];
    let output = strip.process(&input);
    assert_eq!(output.peak_level(), 0);
    assert_eq!(output.channels, 2);
    assert_eq!(output.samples.len(), 16);
}

#[test]
fn test_solo_flag_roundtrip() {
    let mut strip = ChannelStripNode::new("ch1".to_string());
    assert_eq!(strip.get_parameter("solo"), Some(0));
    strip.set_parameter("solo", 600000).unwrap();
    assert_eq!(strip.get_parameter("solo"), Some(1000000));
    strip.set_parameter("solo", 400000).unwrap();
    assert_eq!(strip.get_parameter("solo"), Some(0));
}
