use voicecore::capture::{AudioPacket, CapturePipeline, OutboundQueue};
use voicecore::codec::check_frame_length;
use voicecore::denoise::AudioDenoiser;
use voicecore::level::{rms_value, speaking_flag};
use voicecore::mixer::AudioMixer;
use voicecore::playback::PlaybackBuffer;
use voicecore::resample::resample;
use voicecore::SAMPLES_PER_FRAME;

fn frame_of(amplitude: i16) -> Vec<i16> {
    vec![amplitude; SAMPLES_PER_FRAME]
}

// Resampling at ratio 1 is the identity on any input.
#[test]
fn resample_identity_at_unit_ratio() {
    let input: Vec<i16> = vec![5, -3, 32767, -32768, 0, 711];
    let out = resample(&input, 48000, 48000);
    assert_eq!(out, input);
}

#[test]
fn resample_doubles_length_with_interpolation() {
    let input: Vec<i16> = vec![0, 1000];
    let out = resample(&input, 96000, 48000);
    // ceil(2 * 2) = 4 samples; midpoints are linear interpolations and the
    // edge clamps at the last sample
    assert_eq!(out, vec![0, 500, 1000, 1000]);
}

#[test]
fn resample_downsamples_to_ceil_length() {
    let input: Vec<i16> = vec![0; 960];
    let out = resample(&input, 16000, 48000);
    assert_eq!(out.len(), 320);
}

#[test]
fn rms_of_silence_is_zero_and_constant_is_exact() {
    let silent = vec![0i16; 960];
    assert_eq!(rms_value(&silent, 960), 0);
    let loud = vec![1000i16; 960];
    assert_eq!(rms_value(&loud, 960), 1000);
    assert!(speaking_flag(1000, false));
    assert!(!speaking_flag(1000, true));
    assert!(!speaking_flag(100, false));
}

// Mixing an empty peer set produces a full frame of zeros.
#[test]
fn mix_of_no_peers_is_silence() {
    let mut mixer = AudioMixer::new();
    let out = mixer.get_mixed_samples();
    assert_eq!(out.len(), SAMPLES_PER_FRAME);
    assert!(out.iter().all(|&s| s == 0));
}

// One unmuted peer at gain 1.0 with a full buffer is reproduced unchanged.
#[test]
fn mix_of_single_peer_reproduces_samples() {
    let mut mixer = AudioMixer::new();
    mixer.add_peer_samples("p1", &frame_of(1234));
    let out = mixer.get_mixed_samples();
    assert!(out.iter().all(|&s| s == 1234));
}

// Four peers at constant amplitude a mix to a * 4 / sqrt(4), exactly in
// the fixed-point arithmetic: each contributes a/2.
#[test]
fn mix_of_four_uniform_peers_normalizes_loudness() {
    let mut mixer = AudioMixer::new();
    mixer.add_peer_samples("p1", &frame_of(1000));
    mixer.add_peer_samples("p2", &frame_of(1000));
    mixer.add_peer_samples("p3", &frame_of(1000));
    mixer.add_peer_samples("p4", &frame_of(1000));
    let out = mixer.get_mixed_samples();
    assert!(out.iter().all(|&s| s == 2000));
}

#[test]
fn mix_output_is_clamped() {
    let mut mixer = AudioMixer::new();
    mixer.add_peer_samples("p1", &frame_of(30000));
    mixer.add_peer_samples("p2", &frame_of(30000));
    let out = mixer.get_mixed_samples();
    // two peers: each contributes 30000 * isqrt(2^30 / 2) / 2^15 = 21213,
    // summing past the sample range, so the clamp holds at full scale
    assert!(out.iter().all(|&s| s == 32767));
}

// A peer below one frame contributes silence and keeps its samples.
#[test]
fn underrun_peer_is_skipped_without_data_loss() {
    let mut mixer = AudioMixer::new();
    mixer.add_peer_samples("p1", &vec![900i16; 500]);
    let out = mixer.get_mixed_samples();
    assert!(out.iter().all(|&s| s == 0));
    assert!(mixer.peer_has_audio("p1"));
    // topping the buffer up to one frame makes the samples audible
    mixer.add_peer_samples("p1", &vec![900i16; 460]);
    let out2 = mixer.get_mixed_samples();
    assert!(out2.iter().all(|&s| s == 900));
}

// Scenario: a peer streams 20 frames at about a tenth of full scale; each
// mixed frame returns that amplitude exactly, with no clipping.
#[test]
fn twenty_frames_stream_through_unclipped() {
    let mut mixer = AudioMixer::new();
    for _ in 0..20 {
        mixer.add_peer_samples("p1", &frame_of(3277));
        let out = mixer.get_mixed_samples();
        assert_eq!(out.len(), SAMPLES_PER_FRAME);
        assert!(out.iter().all(|&s| s == 3277));
    }
}

#[test]
fn peer_volume_and_master_volume_scale_the_mix() {
    let mut mixer = AudioMixer::new();
    mixer.add_peer_samples("p1", &frame_of(1000));
    mixer.set_peer_volume("p1", 16384); // half
    let out = mixer.get_mixed_samples();
    assert!(out.iter().all(|&s| s == 500));
    mixer.add_peer_samples("p1", &frame_of(1000));
    mixer.set_peer_volume("p1", 32768);
    mixer.set_master_volume(16384);
    let out2 = mixer.get_mixed_samples();
    assert!(out2.iter().all(|&s| s == 500));
    assert_eq!(mixer.get_master_volume(), 16384);
}

#[test]
fn muted_peer_is_skipped_and_keeps_samples() {
    let mut mixer = AudioMixer::new();
    mixer.add_peer_samples("p1", &frame_of(1000));
    mixer.set_peer_muted("p1", true);
    let out = mixer.get_mixed_samples();
    assert!(out.iter().all(|&s| s == 0));
    mixer.set_peer_muted("p1", false);
    let out2 = mixer.get_mixed_samples();
    assert!(out2.iter().all(|&s| s == 1000));
}

#[test]
fn mixer_peer_bookkeeping() {
    let mut mixer = AudioMixer::new();
    mixer.add_peer_samples("p1", &vec![100i16; 10]);
    mixer.add_peer_samples("p2", &vec![0i16; 10]);
    let peers = mixer.get_peers();
    assert_eq!(peers, vec!["p1".to_string(), "p2".to_string()]);
    assert_eq!(mixer.get_peer_level("p1"), 100);
    assert_eq!(mixer.get_peer_level("p2"), 0);
    assert_eq!(mixer.get_peer_level("nobody"), 0);
    mixer.remove_peer("p1");
    assert!(!mixer.peer_has_audio("p1"));
    mixer.clear();
    assert!(mixer.get_peers().is_empty());
}

#[test]
fn mixer_trims_oldest_beyond_cap() {
    let mut mixer = AudioMixer::new();
    let mut long: Vec<i16> = vec![1i16; 1000];
    long.extend(vec![2i16; 5760]);
    mixer.add_peer_samples("p1", &long);
    // only the newest 5760 samples stay, so every mixed frame reads 2
    let out = mixer.get_mixed_samples();
    assert!(out.iter().all(|&s| s == 2));
}

// Pass-through invariant: while disabled, the concatenation of outputs
// equals the concatenation of inputs exactly.
#[test]
fn disabled_denoiser_passes_audio_through() {
    let mut dn = AudioDenoiser::new();
    dn.set_enabled(false);
    assert!(!dn.is_enabled());
    let batches: Vec<Vec<i16>> = vec![vec![1, 2, 3], vec![], vec![-7; 481], vec![9; 10]];
    let mut all_in: Vec<i16> = Vec::new();
    let mut all_out: Vec<i16> = Vec::new();
    for b in &batches {
        all_in.extend(b.iter().copied());
        all_out.extend(dn.process(b));
    }
    assert_eq!(all_in, all_out);
}

#[test]
fn enabled_denoiser_buffers_partial_frames() {
    let mut dn = AudioDenoiser::new();
    assert!(dn.is_enabled());
    let out1 = dn.process(&vec![100i16; 500]);
    assert_eq!(out1.len(), 480); // one whole model frame; 20 samples stay
    let out2 = dn.process(&vec![100i16; 460]);
    assert_eq!(out2.len(), 480); // the tail completed a second frame
    dn.reset();
    let out3 = dn.process(&vec![100i16; 100]);
    assert_eq!(out3.len(), 0); // everything buffered again after reset
}

// Toggling mute while capturing zeroes the next level event.
#[test]
fn muted_capture_reports_zero_level_and_sends_nothing() {
    let mut pipe = CapturePipeline::new(48000, 1);
    assert!(pipe.is_muted());
    let outcomes = pipe.process_input(&frame_of(20000));
    assert_eq!(outcomes.len(), 1);
    assert_eq!(outcomes[0].event.rms, 0);
    assert!(!outcomes[0].event.is_speaking);
    assert!(outcomes[0].encodable.is_none());
    assert_eq!(pipe.current_level(), 0);

    pipe.set_muted(false);
    let outcomes2 = pipe.process_input(&frame_of(20000));
    assert_eq!(outcomes2.len(), 1);
    let encodable = outcomes2[0].encodable.as_ref().expect("unmuted frames reach the codec");
    assert_eq!(encodable.len(), SAMPLES_PER_FRAME);

    pipe.set_muted(true);
    let outcomes3 = pipe.process_input(&frame_of(20000));
    assert_eq!(outcomes3[0].event.rms, 0);
    assert!(!outcomes3[0].event.is_speaking);
    assert_eq!(pipe.current_level(), 0);
}

#[test]
fn capture_accumulates_partial_buffers() {
    let mut pipe = CapturePipeline::new(48000, 1);
    let outcomes = pipe.process_input(&vec![0i16; 500]);
    assert_eq!(outcomes.len(), 0); // less than one device frame
    let outcomes2 = pipe.process_input(&vec![0i16; 460]);
    assert_eq!(outcomes2.len(), 1);
}

#[test]
fn capture_downmixes_stereo() {
    let mut pipe = CapturePipeline::new(48000, 2);
    pipe.set_muted(false);
    pipe.denoiser.set_enabled(false);
    // interleaved stereo: left 1000, right 3000 averages to 2000
    let mut data: Vec<i16> = Vec::new();
    for _ in 0..SAMPLES_PER_FRAME {
        data.push(1000);
        data.push(3000);
    }
    let outcomes = pipe.process_input(&data);
    assert_eq!(outcomes.len(), 1);
    let frame = outcomes[0].encodable.as_ref().unwrap();
    assert!(frame.iter().all(|&s| s == 2000));
    assert_eq!(outcomes[0].event.rms, 2000);
    assert!(outcomes[0].event.is_speaking);
}

#[test]
fn timestamps_advance_by_one_frame_per_packet() {
    let mut pipe = CapturePipeline::new(48000, 1);
    assert_eq!(pipe.claim_timestamp(), 0);
    assert_eq!(pipe.claim_timestamp(), 960);
    assert_eq!(pipe.claim_timestamp(), 1920);
}

#[test]
fn outbound_queue_is_fifo_and_nonblocking() {
    let mut q = OutboundQueue::new();
    assert!(q.poll().is_none());
    q.push(AudioPacket { data: vec![1, 2], timestamp: 0 });
    q.push(AudioPacket { data: vec![3], timestamp: 960 });
    assert_eq!(q.len(), 2);
    let a = q.poll().unwrap();
    assert_eq!(a.data, vec![1, 2]);
    assert_eq!(a.timestamp, 0);
    let b = q.poll().unwrap();
    assert_eq!(b.timestamp, 960);
    assert!(q.poll().is_none());
}

#[test]
fn playback_buffer_pads_with_silence_on_underrun() {
    let mut pb = PlaybackBuffer::new();
    pb.push_samples(&vec![5i16; 100]);
    assert!(pb.needs_pull(960));
    let out = pb.fill_or_silence(960);
    assert_eq!(out.len(), 960);
    assert!(out[..100].iter().all(|&s| s == 5));
    assert!(out[100..].iter().all(|&s| s == 0));
    assert_eq!(pb.len(), 0);
}

#[test]
fn playback_buffer_keeps_excess_of_pulled_batch() {
    let mut pb = PlaybackBuffer::new();
    let out = pb.fill_with_pulled(4, &vec![1i16, 2, 3, 4, 5, 6]);
    assert_eq!(out, vec![1, 2, 3, 4]);
    assert_eq!(pb.len(), 2);
    let out2 = pb.fill_or_silence(2);
    assert_eq!(out2, vec![5, 6]);
}

#[test]
fn playback_buffer_trims_oldest_beyond_cap() {
    let mut pb = PlaybackBuffer::new();
    pb.push_samples(&vec![1i16; 19200]);
    pb.push_samples(&vec![2i16; 960]);
    assert_eq!(pb.len(), 19200);
    let out = pb.fill_or_silence(19200);
    assert!(out[..18240].iter().all(|&s| s == 1));
    assert!(out[18240..].iter().all(|&s| s == 2));
}

#[test]
fn codec_accepts_exactly_one_frame() {
    assert!(check_frame_length(&vec![0i16; 960]));
    assert!(!check_frame_length(&vec![0i16; 959]));
    assert!(!check_frame_length(&vec![0i16; 961]));
    assert!(!check_frame_length(&Vec::new()));
}

#[test]
fn enabled_denoiser_transforms_audio() {
    let mut dn = AudioDenoiser::new();
    let input = vec![5000i16; 480];
    let out = dn.process(&input);
    assert_eq!(out.len(), 480);
    // a recurrent noise model never returns a loud constant unchanged
    assert_ne!(out, input);
}
