use espectro::buffer::AudioBuffer;
use espectro::UNIT;

#[test]
fn test_buffer_creation() {
    let buffer = AudioBuffer::new(2, 48000, 1024);
    assert_eq!(buffer.channels, 2);
    assert_eq!(buffer.sample_rate, 48000);
    assert_eq!(buffer.num_frames(), 1024);
    assert_eq!(buffer.samples.len(), 2048);
}

#[test]
fn test_silence() {
    let buffer = AudioBuffer::silence(2, 48000, 512);
    assert!(buffer.samples.iter().all(|&s| s == 0));
}

#[test]
fn test_mix() {
    let mut buf1 = AudioBuffer::new(2, 48000, 4);
    buf1.samples = vec![500000; 8];
    let mut buf2 = AudioBuffer::new(2, 48000, 4);
    buf2.samples = vec![300000; 8];
    buf1.mix(&buf2);
    assert_eq!(buf1.samples[0], 800000);
}

#[test]
fn test_gain() {
    let mut buffer = AudioBuffer::new(1, 48000, 4);
    buffer.samples = vec![1000000, 500000, -500000, -1000000];
    buffer.apply_gain(500000);
    assert_eq!(buffer.samples[0], 500000);
    assert_eq!(buffer.samples[1], 250000);
    assert_eq!(buffer.samples[2], -250000);
    assert_eq!(buffer.samples[3], -500000);
}

#[test]
fn test_peak_level() {
    let mut buffer = AudioBuffer::new(1, 48000, 4);
    buffer.samples = vec![500000, -800000, 300000, -200000];
    assert_eq!(buffer.peak_level(), 800000);
}

#[test]
fn test_mix_doubles_identical_buffers() {
    let mut a = AudioBuffer::new(2, 48000, 2);
    a.samples = vec![250000, -125000, 60000, 0];
    let mut b = AudioBuffer::new(2, 48000, 2);
    b.samples = a.samples.clone();
    a.mix(&b);
    assert_eq!(a.samples, vec![500000, -250000, 120000, 0]);
}

#[test]
fn test_resize_and_clear() {
    let mut buffer = AudioBuffer::new(2, 48000, 2);
    buffer.samples = vec![1, 2, 3, 4];
    buffer.resize(3);
    assert_eq!(buffer.samples, vec![1, 2, 3, 4, 0, 0]);
    buffer.resize(1);
    assert_eq!(buffer.samples, vec![1, 2]);
    buffer.clear();
    assert_eq!(buffer.samples, vec![0, 0]);
    let _ = UNIT;
}
