use voicecore::video::{EncoderConfig, VideoEncoder, VideoFrame};

#[test]
fn test_encoder_creation() {
    let encoder = VideoEncoder::with_defaults();
    assert_eq!(encoder.fps(), 15);
    assert_eq!(encoder.frame_interval_ms(), 66);
}

#[test]
fn test_encode_frame() {
    let mut encoder = VideoEncoder::with_defaults();

    // Create a simple 100x100 red frame
    let mut data = Vec::with_capacity(100 * 100 * 4);
    for _ in 0..(100 * 100) {
        data.extend_from_slice(&[255, 0, 0, 255]); // RGBA red
    }

    let frame = VideoFrame::new(100, 100, data);
    let encoded = encoder.encode(&frame).expect("Encoding should succeed");

    assert!(encoded.is_keyframe); // First frame should be keyframe
    assert!(!encoded.data.is_empty());
    assert_eq!(encoded.width, 100);
    assert_eq!(encoded.height, 100);
}

#[test]
fn test_keyframe_interval() {
    let mut encoder = VideoEncoder::new(EncoderConfig { fps: 15, ..Default::default() });

    // Create a minimal frame
    let frame = VideoFrame::new(10, 10, vec![128; 10 * 10 * 4]);

    // Frame 0 should be keyframe
    assert!(encoder.should_be_keyframe());
    let _ = encoder.encode(&frame);

    // Frames 1-29 should not be keyframes
    for _ in 1..30 {
        assert!(!encoder.should_be_keyframe());
        let _ = encoder.encode(&frame);
    }

    // Frame 30 should be keyframe (at 15fps, every 2 seconds)
    assert!(encoder.should_be_keyframe());
}

#[test]
fn test_resize_large_frame() {
    let mut encoder = VideoEncoder::new(EncoderConfig {
        max_width: 1280,
        max_height: 720,
        ..Default::default()
    });

    // Create 4K frame
    let frame = VideoFrame::new(3840, 2160, vec![128; 3840 * 2160 * 4]);
    let encoded = encoder.encode(&frame).expect("Encoding should succeed");

    // Should be resized to fit within 1280x720 while maintaining aspect ratio
    assert!(encoded.width <= 1280);
    assert!(encoded.height <= 720);
}

#[test]
fn test_target_size_aspect_ratio() {
    let encoder = VideoEncoder::new(EncoderConfig {
        max_width: 1280,
        max_height: 720,
        ..Default::default()
    });
    // within bounds: untouched
    assert_eq!(encoder.calculate_target_size(640, 480), (640, 480));
    // 4K downscales exactly to the bound, same aspect ratio
    assert_eq!(encoder.calculate_target_size(3840, 2160), (1280, 720));
    // a tall frame is height-limited
    let (w, h) = encoder.calculate_target_size(1000, 2000);
    assert_eq!(h, 720);
    assert_eq!(w, 1000 * 720 / 2000);
}

#[test]
fn test_frame_length_mismatch_is_rejected() {
    let mut encoder = VideoEncoder::with_defaults();
    let bad = VideoFrame::new(10, 10, vec![0; 17]);
    assert!(encoder.encode(&bad).is_err());
}

#[test]
fn test_adapt_quality_steps() {
    let mut encoder = VideoEncoder::with_defaults();
    // default target: (4000 * 1000 / 8 / 15) * 8 = 266664 bytes per frame
    let start = encoder.config.quality;
    encoder.adapt_quality(10_000_000); // far over budget: quality drops
    assert_eq!(encoder.config.quality, start - 5);
    encoder.adapt_quality(10); // far under budget: quality climbs back
    assert_eq!(encoder.config.quality, start);
    encoder.adapt_quality(266_000); // near budget: unchanged
    assert_eq!(encoder.config.quality, start);
}

#[test]
fn test_encoder_reset() {
    let mut encoder = VideoEncoder::with_defaults();
    let frame = VideoFrame::new(10, 10, vec![128; 10 * 10 * 4]);
    let _ = encoder.encode(&frame);
    let _ = encoder.encode(&frame);
    assert!(!encoder.should_be_keyframe());
    encoder.reset();
    assert!(encoder.should_be_keyframe());
    assert_eq!(encoder.frame_count, 0);
}

#[test]
fn test_frame_and_encoded_sizes() {
    let frame = VideoFrame::new(4, 2, vec![7; 32]);
    assert_eq!(frame.size(), 32);
    let mut encoder = VideoEncoder::with_defaults();
    let encoded = encoder.encode(&VideoFrame::new(4, 2, vec![7; 32])).unwrap();
    assert_eq!(encoded.size(), encoded.data.len());
    assert_eq!(frame.width, 4);
}

#[test]
fn encoded_frames_are_jpeg() {
    let mut encoder = VideoEncoder::with_defaults();
    let frame = VideoFrame::new(16, 16, vec![200; 16 * 16 * 4]);
    let encoded = encoder.encode(&frame).unwrap();
    // JPEG start-of-image marker, and actual compression happened
    assert_eq!(&encoded.data[..2], &[0xFF, 0xD8]);
    assert_ne!(encoded.data.len(), 16 * 16 * 3);
}
