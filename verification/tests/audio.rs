use cardinal::audio::{audio_frames, spread_stereo, MAX_FRAMES};

#[test]
fn frames_per_callback() {
    assert_eq!(audio_frames(1024, 2), 512);
    assert_eq!(audio_frames(7, 2), 3);
    assert_eq!(audio_frames(100_000, 1), MAX_FRAMES);
    assert_eq!(audio_frames(0, 6), 0);
}

#[test]
fn stereo_goes_to_the_first_two_channels() {
    let stereo = [1.0f32, 2.0, 3.0, 4.0];
    let mut out = [9.0f32; 9];
    spread_stereo(&stereo, &mut out, 4, 2, 0.0);
    assert_eq!(out, [1.0, 2.0, 0.0, 0.0, 3.0, 4.0, 0.0, 0.0, 0.0]);
}

#[test]
fn mono_device_takes_the_left_channel() {
    let stereo = [1.0f32, 2.0, 3.0, 4.0];
    let mut out = [9.0f32; 3];
    spread_stereo(&stereo, &mut out, 1, 2, 0.0);
    assert_eq!(out, [1.0, 3.0, 0.0]);
}
