use voicemcu::client::audio_io::{
    choose_device, upmix_to_interleaved, DeviceChoice, Direction,
};

#[test]
fn upmix_mono_to_stereo() {
    let mono = vec![0.5, 0.8];
    let mut stereo = vec![9.0; 6];
    upmix_to_interleaved(&mono, 2, &mut stereo, 0.0);
    assert_eq!(stereo, vec![0.5, 0.5, 0.8, 0.8, 0.0, 0.0]);
}

#[test]
fn upmix_mono_passthrough() {
    let mono = vec![0.1, 0.2, 0.3];
    let mut out = vec![9.0; 3];
    upmix_to_interleaved(&mono, 1, &mut out, 0.0);
    assert_eq!(out, vec![0.1, 0.2, 0.3]);
}

#[test]
fn upmix_silence_fills_remainder() {
    let mono = vec![0.5];
    let mut stereo = vec![1.0; 4];
    upmix_to_interleaved(&mono, 2, &mut stereo, 0.0);
    assert_eq!(stereo, vec![0.5, 0.5, 0.0, 0.0]);
}

#[test]
fn upmix_empty_mono_fills_silence() {
    let mut out = vec![1.0; 4];
    upmix_to_interleaved(&[], 2, &mut out, 0.0);
    assert_eq!(out, vec![0.0; 4]);
}


#[test]
fn upmix_drops_what_does_not_fit() {
    let mut out = vec![7; 5];
    upmix_to_interleaved(&[1, 2, 3], 2, &mut out, 0);
    assert_eq!(out, vec![1, 1, 2, 2, 0]);
}

#[test]
fn device_by_name_or_default() {
    let names = vec![Some("a".to_string()), None, Some("b".to_string()), Some("b".to_string())];
    assert_eq!(
        choose_device(Direction::Input, Some("b"), &names, false),
        Ok(DeviceChoice::Listed { index: 2 })
    );
    assert_eq!(
        choose_device(Direction::Input, Some("c"), &names, true),
        Err("input device not found: c".to_string())
    );
    assert_eq!(
        choose_device(Direction::Output, Some("c"), &names, true),
        Err("output device not found: c".to_string())
    );
    assert_eq!(
        choose_device(Direction::Output, None, &names, true),
        Ok(DeviceChoice::SystemDefault)
    );
    assert_eq!(
        choose_device(Direction::Input, None, &names, false),
        Err("no default input audio device".to_string())
    );
    assert_eq!(
        choose_device(Direction::Output, None, &names, false),
        Err("no default output audio device".to_string())
    );
}
