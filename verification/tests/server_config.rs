use voicemcu::server::config::{Cli, ServerConfig, DEFAULT_VAD_THRESHOLD};

#[test]
fn default_config_is_valid() {
    ServerConfig::default()
        .validate()
        .expect("default should be valid");
}

#[test]
fn validation_rejects_low_bitrate() {
    let c = ServerConfig {
        bitrate: 100,
        ..ServerConfig::default()
    };
    assert!(c.validate().is_err());
}

#[test]
fn validation_rejects_high_bitrate() {
    let c = ServerConfig {
        bitrate: 600_000,
        ..ServerConfig::default()
    };
    assert!(c.validate().is_err());
}

#[test]
fn validation_rejects_zero_room_size() {
    let c = ServerConfig {
        max_room_size: 0,
        ..ServerConfig::default()
    };
    assert!(c.validate().is_err());
}

#[test]
fn validation_rejects_zero_jitter_depth() {
    let c = ServerConfig {
        jitter_depth: 0,
        ..ServerConfig::default()
    };
    assert!(c.validate().is_err());
}

#[test]
fn validation_rejects_excessive_jitter_depth() {
    let c = ServerConfig {
        jitter_depth: 33,
        ..ServerConfig::default()
    };
    assert!(c.validate().is_err());
}

#[test]
fn validation_rejects_negative_vad() {
    let c = ServerConfig {
        vad_threshold: (-0.1f32).to_bits(),
        ..ServerConfig::default()
    };
    assert!(c.validate().is_err());
}

#[test]
fn validation_rejects_high_vad() {
    let c = ServerConfig {
        vad_threshold: (1.5f32).to_bits(),
        ..ServerConfig::default()
    };
    assert!(c.validate().is_err());
}

#[test]
fn validation_accepts_boundary_vad() {
    let c0 = ServerConfig {
        vad_threshold: (0.0f32).to_bits(),
        ..ServerConfig::default()
    };
    assert!(c0.validate().is_ok());

    let c1 = ServerConfig {
        vad_threshold: (1.0f32).to_bits(),
        ..ServerConfig::default()
    };
    assert!(c1.validate().is_ok());
}

#[test]
fn validation_rejects_cert_without_key() {
    let c = ServerConfig {
        cert_file: Some("cert.pem".into()),
        key_file: None,
        ..ServerConfig::default()
    };
    assert!(c.validate().is_err());
}

#[test]
fn validation_rejects_key_without_cert() {
    let c = ServerConfig {
        cert_file: None,
        key_file: Some("key.pem".into()),
        ..ServerConfig::default()
    };
    assert!(c.validate().is_err());
}

#[test]
fn validation_accepts_both_cert_and_key() {
    let c = ServerConfig {
        cert_file: Some("cert.pem".into()),
        key_file: Some("key.pem".into()),
        ..ServerConfig::default()
    };
    assert!(c.validate().is_ok());
}

#[test]
fn validation_accepts_neither_cert_nor_key() {
    let c = ServerConfig::default();
    assert!(c.cert_file.is_none());
    assert!(c.key_file.is_none());
    assert!(c.validate().is_ok());
}

#[test]
fn validation_rejects_zero_signal_rate() {
    let c = ServerConfig {
        signal_rate: 0,
        ..ServerConfig::default()
    };
    assert!(c.validate().is_err());
}

#[test]
fn validation_rejects_zero_signal_burst() {
    let c = ServerConfig {
        signal_burst: 0,
        ..ServerConfig::default()
    };
    assert!(c.validate().is_err());
}

#[test]
fn validation_rejects_zero_connect_rate() {
    let c = ServerConfig {
        connect_rate_per_ip: 0,
        ..ServerConfig::default()
    };
    assert!(c.validate().is_err());
}

#[test]
fn validation_rejects_zero_connect_burst() {
    let c = ServerConfig {
        connect_burst_per_ip: 0,
        ..ServerConfig::default()
    };
    assert!(c.validate().is_err());
}

#[test]
fn cert_path_helpers() {
    let mut c = ServerConfig::default();
    assert!(c.cert_path().is_none());
    assert!(c.key_path().is_none());

    c.cert_file = Some("/tmp/cert.pem".into());
    c.key_file = Some("/tmp/key.pem".into());
    assert_eq!(c.cert_path().unwrap(), "/tmp/cert.pem");
    assert_eq!(c.key_path().unwrap(), "/tmp/key.pem");
}

fn no_options() -> Cli {
    Cli {
        dump_config: false,
        config: None,
        bind: None,
        cert_file: None,
        key_file: None,
        bitrate: None,
        max_room_size: None,
        jitter_depth: None,
        vad_threshold: None,
        cleanup_interval: None,
        signal_rate: None,
        signal_burst: None,
        connect_rate_per_ip: None,
        connect_burst_per_ip: None,
    }
}

#[test]
fn server_defaults_are_the_documented_ones() {
    let c = ServerConfig::default();
    assert_eq!(c.bind, "0.0.0.0:4433");
    assert_eq!(c.bitrate, 48_000);
    assert_eq!(c.max_room_size, 64);
    assert_eq!(c.jitter_depth, 4);
    assert_eq!(c.vad_threshold, 0.002f32.to_bits());
    assert_eq!(DEFAULT_VAD_THRESHOLD, 0.002f32.to_bits());
    assert_eq!(c.cleanup_interval_secs, 30);
    assert_eq!(c.max_display_name, 64);
    assert_eq!(c.max_room_code, 128);
    assert_eq!(c.datagram_buffer, 65_536);
    assert_eq!((c.signal_rate, c.signal_burst), (10, 20));
    assert_eq!((c.connect_rate_per_ip, c.connect_burst_per_ip), (5, 10));
}

#[test]
fn vad_threshold_of_odd_numbers() {
    for (value, ok) in [
        (-0.0f32, true),
        (f32::MIN_POSITIVE, true),
        (1.0000001, false),
        (f32::INFINITY, false),
        (f32::NEG_INFINITY, false),
        (f32::NAN, false),
        (-f32::NAN, false),
        (-1e-40, false),
    ] {
        let c = ServerConfig {
            vad_threshold: value.to_bits(),
            ..ServerConfig::default()
        };
        assert_eq!(c.validate().is_ok(), ok, "{value}");
        assert_eq!((0.0..=1.0).contains(&value), ok, "{value}");
    }
}

#[test]
fn server_complaints() {
    let cases: Vec<(ServerConfig, &str)> = vec![
        (
            ServerConfig { bitrate: 5_999, max_room_size: 0, ..ServerConfig::default() },
            "bitrate must be between 6000 and 510000",
        ),
        (
            ServerConfig { bitrate: 510_001, ..ServerConfig::default() },
            "bitrate must be between 6000 and 510000",
        ),
        (
            ServerConfig { max_room_size: 0, ..ServerConfig::default() },
            "max_room_size must be > 0",
        ),
        (
            ServerConfig { jitter_depth: 33, ..ServerConfig::default() },
            "jitter_depth must be between 1 and 32",
        ),
        (
            ServerConfig { vad_threshold: 2.0f32.to_bits(), ..ServerConfig::default() },
            "vad_threshold must be between 0.0 and 1.0",
        ),
        (
            ServerConfig { cleanup_interval_secs: 0, ..ServerConfig::default() },
            "cleanup_interval_secs must be > 0",
        ),
        (
            ServerConfig { max_display_name: 0, ..ServerConfig::default() },
            "max_display_name must be > 0",
        ),
        (
            ServerConfig { max_room_code: 0, ..ServerConfig::default() },
            "max_room_code must be > 0",
        ),
        (
            ServerConfig { signal_rate: 0, ..ServerConfig::default() },
            "signal_rate must be > 0",
        ),
        (
            ServerConfig { signal_burst: 0, ..ServerConfig::default() },
            "signal_burst must be > 0",
        ),
        (
            ServerConfig { connect_rate_per_ip: 0, ..ServerConfig::default() },
            "connect_rate_per_ip must be > 0",
        ),
        (
            ServerConfig { connect_burst_per_ip: 0, ..ServerConfig::default() },
            "connect_burst_per_ip must be > 0",
        ),
        (
            ServerConfig { key_file: Some("k".into()), ..ServerConfig::default() },
            "cert_file and key_file must both be set or both be omitted",
        ),
    ];
    for (config, text) in cases {
        assert_eq!(config.validate(), Err(text));
    }
}

#[test]
fn bitrate_bounds_are_inclusive() {
    for bitrate in [6_000, 510_000] {
        let c = ServerConfig { bitrate, ..ServerConfig::default() };
        assert_eq!(c.validate(), Ok(()));
    }
}

#[test]
fn options_win_over_the_file_and_the_file_over_defaults() {
    let file = ServerConfig {
        bitrate: 24_000,
        max_room_size: 8,
        max_room_code: 10,
        ..ServerConfig::default()
    };
    let cli = Cli {
        bind: Some("127.0.0.1:1".into()),
        cert_file: Some("c".into()),
        key_file: Some("k".into()),
        max_room_size: Some(9),
        jitter_depth: Some(6),
        vad_threshold: Some(0.5f32.to_bits()),
        cleanup_interval: Some(7),
        signal_rate: Some(1),
        signal_burst: Some(2),
        connect_rate_per_ip: Some(3),
        connect_burst_per_ip: Some(4),
        ..no_options()
    };
    let c = ServerConfig::load(&cli, Some(file)).expect("valid");
    assert_eq!(c.bind, "127.0.0.1:1");
    assert_eq!(c.cert_path().as_deref(), Some("c"));
    assert_eq!(c.key_path().as_deref(), Some("k"));
    assert_eq!(c.bitrate, 24_000);
    assert_eq!(c.max_room_size, 9);
    assert_eq!(c.max_room_code, 10);
    assert_eq!(c.jitter_depth, 6);
    assert_eq!(c.vad_threshold, 0.5f32.to_bits());
    assert_eq!(c.cleanup_interval_secs, 7);
    assert_eq!((c.signal_rate, c.signal_burst), (1, 2));
    assert_eq!((c.connect_rate_per_ip, c.connect_burst_per_ip), (3, 4));
    assert_eq!(c.max_display_name, 64);
}

#[test]
fn loading_validates() {
    let cli = Cli { bitrate: Some(1), ..no_options() };
    let err = ServerConfig::load(&cli, None).expect_err("too low");
    assert_eq!(err, "bitrate must be between 6000 and 510000");
    assert!(ServerConfig::load(&no_options(), None).is_ok());
}
