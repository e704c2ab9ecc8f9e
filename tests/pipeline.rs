use rodio::{convert_channels, convert_sample_rate, Mixer, Sample, Sink};

#[test]
fn downmix_then_upmix_duplicates_first_channel() {
    let input: Vec<i16> = vec![0, 0, 100, -100, 200, -200];
    let mono = convert_channels(&input, 2, 1).unwrap();
    assert_eq!(mono, vec![0, 100, 200]);
    let stereo = convert_channels(&mono, 1, 2).unwrap();
    assert_eq!(stereo, vec![0, 0, 100, 100, 200, 200]);
}

#[test]
fn upmix_then_downmix_keeps_first_channel() {
    let input: Vec<i16> = vec![1, 2, 3, 4, 5, 6];
    let up = convert_channels(&input, 2, 3).unwrap();
    assert_eq!(up, vec![1, 2, 2, 3, 4, 4, 5, 6, 6]);
    let back = convert_channels(&up, 3, 2).unwrap();
    assert_eq!(back, input);
}

#[test]
fn channel_conversion_drops_partial_frame() {
    let input: Vec<u16> = vec![1, 2, 3, 4, 5];
    assert_eq!(convert_channels(&input, 2, 2).unwrap(), vec![1, 2, 3, 4]);
    assert_eq!(convert_channels(&input, 3, 1).unwrap(), vec![1]);
    let empty: Vec<u16> = Vec::new();
    assert_eq!(convert_channels(&empty, 2, 4).unwrap(), Vec::<u16>::new());
}

#[test]
fn channel_conversion_rejects_zero_channels() {
    let input: Vec<i16> = vec![1, 2];
    assert!(convert_channels(&input, 0, 2).is_none());
    assert!(convert_channels(&input, 2, 0).is_none());
}

#[test]
fn resample_mono_doubles_rate() {
    let input: Vec<i16> = vec![0, 100];
    assert_eq!(convert_sample_rate(&input, 1, 1, 2).unwrap(), vec![0, 50, 100]);
}

#[test]
fn resample_stereo_upsample() {
    let input: Vec<i16> = vec![2, 16, 4, 18, 6, 20, 8, 22];
    let out = convert_sample_rate(&input, 2, 1, 2).unwrap();
    assert_eq!(out, vec![2, 16, 3, 17, 4, 18, 5, 19, 6, 20, 7, 21, 8, 22]);
}

#[test]
fn resample_downsample_and_same_rate() {
    let input: Vec<i16> = vec![0, 10, 20, 30];
    assert_eq!(convert_sample_rate(&input, 1, 2, 1).unwrap(), vec![0, 20]);
    assert_eq!(convert_sample_rate(&input, 1, 44100, 44100).unwrap(), input);
    let out = convert_sample_rate(&input, 1, 3, 2).unwrap();
    assert_eq!(out, vec![0, 15, 30]);
}

#[test]
fn resample_frame_count_follows_rates() {
    let input: Vec<u16> = (0..100u16).collect();
    let out = convert_sample_rate(&input, 1, 48000, 44100).unwrap();
    assert_eq!(out.len(), 91);
    let empty: Vec<u16> = Vec::new();
    assert!(convert_sample_rate(&empty, 1, 1, 2).unwrap().is_empty());
}

#[test]
fn resample_rejects_zero_rates() {
    let input: Vec<i16> = vec![1, 2];
    assert!(convert_sample_rate(&input, 1, 0, 2).is_none());
    assert!(convert_sample_rate(&input, 1, 2, 0).is_none());
    assert!(convert_sample_rate(&input, 0, 2, 2).is_none());
}

#[test]
fn empty_mixer_is_endless_silence() {
    let mut mixer: Mixer<i16> = Mixer::new(2, 44100).unwrap();
    for _ in 0..1000 {
        assert_eq!(mixer.next(), 0);
    }
    assert_eq!(mixer.member_count(), 0);
    assert_eq!(mixer.channels(), 2);
    assert_eq!(mixer.sample_rate(), 44100);
}

#[test]
fn mixer_rejects_zero_format() {
    assert!(Mixer::<i16>::new(0, 44100).is_none());
    assert!(Mixer::<u16>::new(1, 0).is_none());
}

#[test]
fn mixer_sums_and_removes_finished_members() {
    let mut mixer: Mixer<i16> = Mixer::new(1, 8000).unwrap();
    mixer.add(vec![100, 200, 300]);
    mixer.add(vec![1000]);
    assert_eq!(mixer.member_count(), 2);
    assert_eq!(mixer.next(), 1100);
    assert_eq!(mixer.member_count(), 1);
    assert_eq!(mixer.next(), 200);
    assert_eq!(mixer.next(), 300);
    assert_eq!(mixer.member_count(), 0);
    assert_eq!(mixer.next(), 0);
}

#[test]
fn mixing_silence_gives_silence() {
    let mut mixer: Mixer<u16> = Mixer::new(1, 8000).unwrap();
    mixer.add(vec![32768, 32768]);
    mixer.add(vec![32768, 32768]);
    assert_eq!(mixer.next(), 32768);
    assert_eq!(mixer.next(), 32768);
    assert_eq!(mixer.next(), 32768);
}

#[test]
fn mixing_saturates_instead_of_wrapping() {
    let mut mixer: Mixer<i16> = Mixer::new(1, 8000).unwrap();
    mixer.add(vec![30000, i16::MIN, i16::MAX]);
    mixer.add(vec![30000, i16::MIN, i16::MIN]);
    assert_eq!(mixer.next(), i16::MAX);
    assert_eq!(mixer.next(), i16::MIN);
    assert_eq!(mixer.next(), -1);
}

#[test]
fn mixer_skips_empty_member() {
    let mut mixer: Mixer<i16> = Mixer::new(1, 8000).unwrap();
    mixer.add(Vec::new());
    mixer.add(vec![7]);
    assert_eq!(mixer.next(), 7);
    assert_eq!(mixer.member_count(), 0);
}

#[test]
fn sink_empty_until_appended_source_is_drained() {
    let mut sink: Sink<i16> = Sink::new();
    assert!(sink.empty());
    assert!(sink.append(vec![1, 2]));
    assert!(!sink.empty());
    assert_eq!(sink.len(), 1);
    assert_eq!(sink.next(), 1);
    assert!(!sink.empty());
    assert_eq!(sink.next(), 2);
    assert!(sink.empty());
    assert_eq!(sink.next(), 0);
}

#[test]
fn sink_plays_in_order_and_pauses() {
    let mut sink: Sink<u16> = Sink::new();
    sink.append(vec![10]);
    sink.append(vec![20, 30]);
    assert_eq!(sink.len(), 2);
    sink.pause();
    assert!(sink.is_paused());
    assert_eq!(sink.next(), 32768);
    assert_eq!(sink.len(), 2);
    sink.play();
    assert_eq!(sink.next(), 10);
    assert_eq!(sink.next(), 20);
    assert_eq!(sink.next(), 30);
    assert!(sink.empty());
}

#[test]
fn sink_skip_and_stop() {
    let mut sink: Sink<i16> = Sink::new();
    sink.append(vec![1, 2, 3]);
    sink.append(vec![4]);
    assert_eq!(sink.next(), 1);
    sink.skip_one();
    assert_eq!(sink.next(), 4);
    sink.append(vec![5]);
    sink.stop();
    assert!(sink.is_stopped());
    assert!(sink.empty());
    assert!(!sink.append(vec![6]));
    assert!(sink.empty());
    assert_eq!(sink.next(), 0);
}

#[test]
fn sink_ignores_empty_source() {
    let mut sink: Sink<i16> = Sink::new();
    assert!(sink.append(Vec::new()));
    assert!(sink.empty());
}
