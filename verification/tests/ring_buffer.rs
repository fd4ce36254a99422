use sootmix::plugin_stream::AudioRingBuffer;

#[test]
fn test_audio_ring_buffer() {
    let mut buffer = AudioRingBuffer::new(16, 0.0f32);

    // Write some samples
    let input = vec![1.0, 2.0, 3.0, 4.0]; // 2 frames
    buffer.write(&input);
    assert_eq!(buffer.available(), 2);

    // Read them back
    let mut output = vec![0.0; 4];
    let frames = buffer.read(&mut output);
    assert_eq!(frames, 2);
    assert_eq!(output, vec![1.0, 2.0, 3.0, 4.0]);
}

#[test]
fn test_audio_ring_buffer_underrun() {
    let mut buffer = AudioRingBuffer::new(16, 0.0f32);

    // Write 1 frame
    buffer.write(&[1.0, 2.0]);

    // Try to read 2 frames
    let mut output = vec![0.0; 4];
    let frames = buffer.read(&mut output);
    assert_eq!(frames, 1);
    // First frame is data, second is zeros
    assert_eq!(output[0], 1.0);
    assert_eq!(output[1], 2.0);
    assert_eq!(output[2], 0.0);
    assert_eq!(output[3], 0.0);
}

#[test]
fn ring_buffer_wraps_and_ignores_odd_sample() {
    let mut buffer = AudioRingBuffer::new(2, 0i32);
    buffer.write(&[1, 2, 3, 4, 99]);
    assert_eq!(buffer.available(), 2);
    let mut out = vec![7; 3];
    assert_eq!(buffer.read(&mut out), 1);
    assert_eq!(out, vec![1, 2, 7]);
    buffer.write(&[5, 6]);
    let mut out = vec![0; 6];
    assert_eq!(buffer.read(&mut out), 2);
    assert_eq!(out, vec![3, 4, 5, 6, 0, 0]);
    assert_eq!(buffer.available(), 0);
}

#[test]
fn ring_buffer_overwrites_oldest_when_full() {
    let mut buffer = AudioRingBuffer::new(2, 0i32);
    buffer.write(&[1, 1, 2, 2, 3, 3]);
    assert_eq!(buffer.available(), 3);
    let mut out = vec![0; 6];
    assert_eq!(buffer.read(&mut out), 3);
    assert_eq!(out, vec![3, 3, 2, 2, 3, 3]);
}
