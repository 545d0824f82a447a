use voicemcu::client::config::{connect_target, Cli, ClientConfig};

#[test]
fn config_default_config_is_valid() {
    ClientConfig::default()
        .validate()
        .expect("default should be valid");
}

#[test]
fn config_validation_rejects_low_bitrate() {
    let c = ClientConfig {
        bitrate: 100,
        ..ClientConfig::default()
    };
    assert!(c.validate().is_err());
}

#[test]
fn validation_rejects_zero_ring_buffer() {
    let c = ClientConfig {
        ring_buffer_frames: 0,
        ..ClientConfig::default()
    };
    assert!(c.validate().is_err());
}

#[test]
fn validation_rejects_excessive_ring_buffer() {
    let c = ClientConfig {
        ring_buffer_frames: 101,
        ..ClientConfig::default()
    };
    assert!(c.validate().is_err());
}

#[test]
fn validation_rejects_zero_max_events() {
    let c = ClientConfig {
        max_events: 0,
        ..ClientConfig::default()
    };
    assert!(c.validate().is_err());
}

fn no_options() -> Cli {
    Cli {
        server: None,
        room: None,
        name: None,
        list_devices: false,
        config: None,
        cert_hash: None,
        danger_skip_verify: false,
        test_tone: false,
        log_file: None,
        bitrate: None,
        ring_buffer_frames: None,
        max_events: None,
        input_device: None,
        output_device: None,
    }
}

#[test]
fn client_defaults_are_the_documented_ones() {
    let c = ClientConfig::default();
    assert_eq!(c.log_file, "voicemcu.log");
    assert_eq!(c.bitrate, 48_000);
    assert_eq!(c.ring_buffer_frames, 10);
    assert_eq!(c.max_events, 1000);
    assert_eq!(c.input_device, None);
    assert_eq!(c.output_device, None);
    assert_eq!(c.ring_buffer_len(), 9_600);
}

#[test]
fn client_complaints() {
    let low = ClientConfig { bitrate: 5_999, ring_buffer_frames: 0, ..ClientConfig::default() };
    assert_eq!(low.validate(), Err("bitrate must be between 6000 and 510000"));
    let high = ClientConfig { bitrate: 510_001, ..ClientConfig::default() };
    assert_eq!(high.validate(), Err("bitrate must be between 6000 and 510000"));
    let ring = ClientConfig { ring_buffer_frames: 101, max_events: 0, ..ClientConfig::default() };
    assert_eq!(ring.validate(), Err("ring_buffer_frames must be between 1 and 100"));
    let events = ClientConfig { max_events: 0, ..ClientConfig::default() };
    assert_eq!(events.validate(), Err("max_events must be > 0"));
}

#[test]
fn client_options_win() {
    let file = ClientConfig {
        log_file: "file.log".into(),
        bitrate: 24_000,
        input_device: Some("mic".into()),
        ..ClientConfig::default()
    };
    let cli = Cli {
        log_file: Some("cli.log".into()),
        ring_buffer_frames: Some(20),
        max_events: Some(5),
        output_device: Some("speaker".into()),
        ..no_options()
    };
    let c = ClientConfig::load(&cli, Some(file)).expect("valid");
    assert_eq!(c.log_file, "cli.log");
    assert_eq!(c.bitrate, 24_000);
    assert_eq!(c.ring_buffer_frames, 20);
    assert_eq!(c.max_events, 5);
    assert_eq!(c.input_device.as_deref(), Some("mic"));
    assert_eq!(c.output_device.as_deref(), Some("speaker"));
    let bad = Cli { max_events: Some(0), ..no_options() };
    assert_eq!(ClientConfig::load(&bad, None).expect_err("zero"), "max_events must be > 0");
}

#[test]
fn arguments_are_required_in_order() {
    let mut cli = no_options();
    assert_eq!(connect_target(&cli).err(), Some("server address is required"));
    cli.server = Some("127.0.0.1:4433".into());
    assert_eq!(connect_target(&cli).err(), Some("room code is required"));
    cli.room = Some("den".into());
    assert_eq!(connect_target(&cli).err(), Some("display name is required"));
    cli.name = Some("ann".into());
    let target = connect_target(&cli).ok().expect("all given");
    assert_eq!(target.server, "127.0.0.1:4433");
    assert_eq!(target.room, "den");
    assert_eq!(target.name, "ann");
}
