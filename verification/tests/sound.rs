use nbp::audio_processing::normalizer::{lookahead_samples, DelayLine};
use nbp::audio_processing::realtime_mixer::{
    aligned, frames_to_drain, frames_to_mix, mixed_frames, window_size, LevelWindow,
};
use nbp::audio_processing::timeline::{
    frames_to_read, next_silence, samples_to_drain, Gatherer, Timeline, CHUNK_SAMPLES,
};
use nbp::mic_audio::{
    choose_input, needs_resampling, reset_audio_level, ring_capacity, to_planar_stereo,
    AudioLevel,
};
use nbp::playback::{audio_file, PlaybackStatus, Player, RangeCutter};

#[test]
fn a_timeline_catches_up_in_tenths_of_a_second() {
    let mut line = Timeline::new(48000);
    let expected = 10_000;
    assert_eq!(line.frames_needed(expected), Some(4800));
    assert_eq!(line.advance(expected, 4800, 3000), 1800);
    assert_eq!(line.frames_needed(expected), Some(4800));
    assert_eq!(line.advance(expected, 4800, 4800), 0);
    assert_eq!(line.frames_needed(expected), Some(400));
    assert_eq!(line.advance(expected, 400, 0), 400);
    assert_eq!(line.frames_needed(expected), None);
    line.drained(5);
    assert_eq!(line.written, 10_005);
    assert_eq!(line.missing(10_000), 0);
    assert_eq!(line.missing(10_010), 5);
}

#[test]
fn whole_frames_are_taken_from_a_queue() {
    assert_eq!(frames_to_read(101, 2, 1000), 50);
    assert_eq!(frames_to_read(101, 2, 10), 10);
    assert_eq!(frames_to_read(100_000, 2, 100_000), CHUNK_SAMPLES / 2);
    assert_eq!(samples_to_drain(101, 2), 100);
    assert_eq!(samples_to_drain(100_000, 3), 4095);
    assert_eq!(samples_to_drain(1, 2), 0);
    assert_eq!(next_silence(10), 10);
    assert_eq!(next_silence(10_000), CHUNK_SAMPLES);
}

#[test]
fn chunks_are_filled_up_at_the_end() {
    let mut g: Gatherer<u8> = Gatherer::new();
    g.put(1);
    g.gather(vec![2, 3, 4, 5]);
    assert_eq!(g.take_chunk(2).unwrap(), [1, 2]);
    assert_eq!(g.take_chunk(2).unwrap(), [3, 4]);
    assert!(g.take_chunk(2).is_none());
    let (chunk, count) = g.flush(3, 0).unwrap();
    assert_eq!((chunk.as_slice(), count), ([5, 0, 0].as_slice(), 1));
    assert!(g.flush(3, 0).is_none());
}

#[test]
fn a_delay_keeps_the_order() {
    let mut line = DelayLine::new(3, 0);
    let out: Vec<i32> = [1, 2, 3, 4].into_iter().map(|s| line.step(s)).collect();
    assert_eq!(out, [0, 0, 1, 2]);
    let mut none = DelayLine::new(1, 0);
    assert_eq!(none.step(7), 7);
    assert_eq!(lookahead_samples(48000), 480);
    assert_eq!(lookahead_samples(50), 1);
}

#[test]
fn a_window_lets_the_oldest_fall_out() {
    let mut w = LevelWindow::new(2);
    assert_eq!(w.push(1), None);
    assert_eq!(w.push(2), None);
    assert_eq!(w.push(3), Some(1));
    let mut none = LevelWindow::new(0);
    assert_eq!(none.push(1), Some(1));
    assert_eq!(window_size(48000), 14400);
}

#[test]
fn both_sides_are_mixed_to_the_longer_one() {
    assert_eq!(frames_to_mix(10, 20, 15), 15);
    assert_eq!(frames_to_mix(10, 20, 50), 20);
    assert_eq!(frames_to_drain(0, 0), 0);
    assert_eq!(frames_to_drain(3, 0), 3);
    assert_eq!(frames_to_drain(3, 100_000), CHUNK_SAMPLES);
    assert_eq!(mixed_frames(3, 5), 5);
    assert_eq!(aligned(&vec![1], &vec![2, 3], 0), [(1, 2), (0, 3)]);
    assert_eq!(aligned(&vec![1, 4], &vec![2], 0), [(1, 2), (4, 0)]);
}

#[test]
fn sound_is_split_into_two_sides() {
    assert_eq!(to_planar_stereo(&vec![1, 2, 3], 1), [[1, 2, 3], [1, 2, 3]]);
    assert_eq!(to_planar_stereo(&vec![1, 2, 3, 4], 2), [[1, 3], [2, 4]]);
    assert_eq!(to_planar_stereo(&vec![1, 2, 3, 4, 5, 6], 3), [[1, 4], [2, 5]]);
    assert_eq!(to_planar_stereo(&vec![1, 2, 3, 4, 5], 3), [[1, 4], [2, 5]]);
    assert_eq!(to_planar_stereo(&vec![1, 2, 3], 2), [[1], [2]]);
    assert!(to_planar_stereo::<i32>(&vec![], 2).iter().all(|s| s.is_empty()));
}

#[test]
fn the_microphone_is_chosen() {
    assert_eq!(choose_input(Some(1), Some(2)).unwrap(), 1);
    assert_eq!(choose_input(None, Some(2)).unwrap(), 2);
    assert_eq!(choose_input::<u8>(None, None).unwrap_err(), "No input device available");
    assert_eq!(ring_capacity(48000, 2), 768_000);
    assert!(!needs_resampling(48000));
    assert!(needs_resampling(44100));
    let mut level = AudioLevel::new();
    level.set(1.0f32.to_bits());
    assert_eq!(f32::from_bits(level.bits), 1.0);
    reset_audio_level(&mut level);
    assert_eq!(f32::from_bits(level.bits), 0.0);
}

#[test]
fn a_recording_is_played() {
    assert_eq!(audio_file("/r", true, true).unwrap(), "/r/audio_mix.ogg");
    assert_eq!(audio_file("/r", false, true).unwrap(), "/r/raw_mic.ogg");
    assert_eq!(audio_file("/r", false, false).unwrap_err(), "Audio file not found");
    let mut p = Player::new();
    assert!(p.get_playback_state().status == PlaybackStatus::Stopped);
    p.play("r".to_string(), 1000);
    p.tick(300);
    p.pause_audio();
    p.tick(300);
    let state = p.get_playback_state();
    assert!(state.status == PlaybackStatus::Paused);
    assert_eq!(state.current_position_ms, 300);
    assert_eq!(state.recording_id.as_deref(), Some("r"));
    p.resume_audio();
    p.tick(900);
    assert_eq!(p.get_playback_state().current_position_ms, 1000);
    assert!(p.get_playback_state().status == PlaybackStatus::Playing);
    p.begin_stop();
    p.stopped();
    assert!(p.get_playback_state().status == PlaybackStatus::Stopped);
    assert_eq!(p.get_playback_state().current_position_ms, 0);
    assert_eq!(p.play_segment(100, 400).unwrap(), 300);
    assert_eq!(p.play_segment(400, 400).unwrap_err(), "Invalid segment range");
}

#[test]
fn a_part_is_cut_however_the_packets_fall() {
    let all: Vec<i32> = (0..20).collect();
    let cut = |packets: &[Vec<i32>]| {
        let mut c = RangeCutter::begin(2, 2, 7).unwrap();
        for packet in packets {
            if !c.push(packet) {
                break;
            }
        }
        c.out
    };
    let expected: Vec<i32> = (4..14).collect();
    assert_eq!(cut(&[all.clone()]), expected);
    let small: Vec<Vec<i32>> = all.chunks(2).map(|c| c.to_vec()).collect();
    assert_eq!(cut(&small), expected);
    let uneven: Vec<Vec<i32>> = all.chunks(6).map(|c| c.to_vec()).collect();
    assert_eq!(cut(&uneven), expected);
    assert_eq!(RangeCutter::<i32>::begin(0, 0, 1).unwrap_err(), "Audio has no channels");
}
