//! Server settings: defaults, command-line overrides and validation.

use vstd::prelude::*;
use vstd::string::*;

use crate::common::jitter::DEFAULT_JITTER_DEPTH;
use crate::common::options::{given_or, pick, pick_path, pick_text, text_view};
use crate::common::protocol::DEFAULT_BITRATE;

verus! {

/// The bit pattern of 0.002 in IEEE 754 single precision.
pub const DEFAULT_VAD_THRESHOLD: u32 = 0x3b03_126f;

/// The bit pattern of 1.0 in IEEE 754 single precision.
pub const ONE_BITS: u32 = 0x3f80_0000;

/// The bit pattern of -0.0 in IEEE 754 single precision.
pub const NEGATIVE_ZERO_BITS: u32 = 0x8000_0000;

/// Command-line options. Addresses and paths are kept as text.
pub struct Cli {
    pub dump_config: bool,
    pub config: Option<String>,
    pub bind: Option<String>,
    pub cert_file: Option<String>,
    pub key_file: Option<String>,
    pub bitrate: Option<i32>,
    pub max_room_size: Option<usize>,
    pub jitter_depth: Option<usize>,
    /// Bit pattern of a single-precision number.
    pub vad_threshold: Option<u32>,
    pub cleanup_interval: Option<u64>,
    pub signal_rate: Option<u32>,
    pub signal_burst: Option<u32>,
    pub connect_rate_per_ip: Option<u32>,
    pub connect_burst_per_ip: Option<u32>,
}

#[derive(Debug)]
pub struct ServerConfig {
    pub bind: String,
    pub cert_file: Option<String>,
    pub key_file: Option<String>,
    pub bitrate: i32,
    pub max_room_size: usize,
    pub jitter_depth: usize,
    /// Bit pattern of a single-precision number; frames whose RMS lies below it
    /// count as silence.
    pub vad_threshold: u32,
    pub cleanup_interval_secs: u64,
    pub max_display_name: usize,
    pub max_room_code: usize,
    pub datagram_buffer: usize,
    pub signal_rate: u32,
    pub signal_burst: u32,
    pub connect_rate_per_ip: u32,
    pub connect_burst_per_ip: u32,
}

/// The settings with their texts as character sequences.
pub struct ServerConfigView {
    pub bind: Seq<char>,
    pub cert_file: Option<Seq<char>>,
    pub key_file: Option<Seq<char>>,
    pub bitrate: i32,
    pub max_room_size: usize,
    pub jitter_depth: usize,
    pub vad_threshold: u32,
    pub cleanup_interval_secs: u64,
    pub max_display_name: usize,
    pub max_room_code: usize,
    pub datagram_buffer: usize,
    pub signal_rate: u32,
    pub signal_burst: u32,
    pub connect_rate_per_ip: u32,
    pub connect_burst_per_ip: u32,
}

impl View for ServerConfig {
    type V = ServerConfigView;

    open spec fn view(&self) -> ServerConfigView {
        ServerConfigView {
            bind: self.bind@,
            cert_file: text_view(self.cert_file),
            key_file: text_view(self.key_file),
            bitrate: self.bitrate,
            max_room_size: self.max_room_size,
            jitter_depth: self.jitter_depth,
            vad_threshold: self.vad_threshold,
            cleanup_interval_secs: self.cleanup_interval_secs,
            max_display_name: self.max_display_name,
            max_room_code: self.max_room_code,
            datagram_buffer: self.datagram_buffer,
            signal_rate: self.signal_rate,
            signal_burst: self.signal_burst,
            connect_rate_per_ip: self.connect_rate_per_ip,
            connect_burst_per_ip: self.connect_burst_per_ip,
        }
    }
}

/// Whether a single-precision number, given by its bit pattern, lies between
/// zero and one. Patterns of positive numbers grow with the number; of the
/// patterns with the sign bit set only negative zero is in range.
pub open spec fn unit_range(bits: u32) -> bool {
    bits <= ONE_BITS || bits == NEGATIVE_ZERO_BITS
}

impl ServerConfigView {
    pub open spec fn default_values() -> Self {
        ServerConfigView {
            bind: "0.0.0.0:4433"@,
            cert_file: None,
            key_file: None,
            bitrate: 48_000,
            max_room_size: 64,
            jitter_depth: 4,
            vad_threshold: DEFAULT_VAD_THRESHOLD,
            cleanup_interval_secs: 30,
            max_display_name: 64,
            max_room_code: 128,
            datagram_buffer: 65_536,
            signal_rate: 10,
            signal_burst: 20,
            connect_rate_per_ip: 5,
            connect_burst_per_ip: 10,
        }
    }

    /// The settings with every given command-line option put in place.
    pub open spec fn overridden(self, cli: Cli) -> Self {
        ServerConfigView {
            bind: given_or(text_view(cli.bind), self.bind),
            cert_file: if cli.cert_file is Some {
                text_view(cli.cert_file)
            } else {
                self.cert_file
            },
            key_file: if cli.key_file is Some {
                text_view(cli.key_file)
            } else {
                self.key_file
            },
            bitrate: given_or(cli.bitrate, self.bitrate),
            max_room_size: given_or(cli.max_room_size, self.max_room_size),
            jitter_depth: given_or(cli.jitter_depth, self.jitter_depth),
            vad_threshold: given_or(cli.vad_threshold, self.vad_threshold),
            cleanup_interval_secs: given_or(cli.cleanup_interval, self.cleanup_interval_secs),
            signal_rate: given_or(cli.signal_rate, self.signal_rate),
            signal_burst: given_or(cli.signal_burst, self.signal_burst),
            connect_rate_per_ip: given_or(cli.connect_rate_per_ip, self.connect_rate_per_ip),
            connect_burst_per_ip: given_or(cli.connect_burst_per_ip, self.connect_burst_per_ip),
            ..self
        }
    }

    /// Every setting is in its range.
    pub open spec fn valid(self) -> bool {
        &&& 6_000 <= self.bitrate <= 510_000
        &&& self.max_room_size > 0
        &&& 1 <= self.jitter_depth <= 32
        &&& unit_range(self.vad_threshold)
        &&& self.cleanup_interval_secs > 0
        &&& self.max_display_name > 0
        &&& self.max_room_code > 0
        &&& self.signal_rate > 0
        &&& self.signal_burst > 0
        &&& self.connect_rate_per_ip > 0
        &&& self.connect_burst_per_ip > 0
        &&& self.cert_file is Some == self.key_file is Some
    }

    /// The complaint about the first setting that is out of range.
    pub open spec fn complaint(self) -> Seq<char> {
        if !(6_000 <= self.bitrate <= 510_000) {
            "bitrate must be between 6000 and 510000"@
        } else if self.max_room_size == 0 {
            "max_room_size must be > 0"@
        } else if !(1 <= self.jitter_depth <= 32) {
            "jitter_depth must be between 1 and 32"@
        } else if !unit_range(self.vad_threshold) {
            "vad_threshold must be between 0.0 and 1.0"@
        } else if self.cleanup_interval_secs == 0 {
            "cleanup_interval_secs must be > 0"@
        } else if self.max_display_name == 0 {
            "max_display_name must be > 0"@
        } else if self.max_room_code == 0 {
            "max_room_code must be > 0"@
        } else if self.signal_rate == 0 {
            "signal_rate must be > 0"@
        } else if self.signal_burst == 0 {
            "signal_burst must be > 0"@
        } else if self.connect_rate_per_ip == 0 {
            "connect_rate_per_ip must be > 0"@
        } else if self.connect_burst_per_ip == 0 {
            "connect_burst_per_ip must be > 0"@
        } else {
            "cert_file and key_file must both be set or both be omitted"@
        }
    }
}

impl Default for ServerConfig {
    fn default() -> (r: Self)
        ensures
            r@ == ServerConfigView::default_values(),
    {
        ServerConfig {
            bind: "0.0.0.0:4433".to_owned(),
            cert_file: None,
            key_file: None,
            bitrate: DEFAULT_BITRATE,
            max_room_size: 64,
            jitter_depth: DEFAULT_JITTER_DEPTH,
            vad_threshold: DEFAULT_VAD_THRESHOLD,
            cleanup_interval_secs: 30,
            max_display_name: 64,
            max_room_code: 128,
            datagram_buffer: 65_536,
            signal_rate: 10,
            signal_burst: 20,
            connect_rate_per_ip: 5,
            connect_burst_per_ip: 10,
        }
    }
}

impl ServerConfig {
    /// Starts from the settings of the configuration file, or from the defaults
    /// without one, puts the command-line options in place and validates.
    pub fn load(cli: &Cli, file: Option<ServerConfig>) -> (r: Result<Self, &'static str>)
        ensures
            ({
                let base = match file {
                    Some(c) => c@,
                    None => ServerConfigView::default_values(),
                };
                match r {
                    Ok(c) => base.overridden(*cli).valid() && c@ == base.overridden(*cli),
                    Err(text) => !base.overridden(*cli).valid() && text@ == base.overridden(
                        *cli,
                    ).complaint(),
                }
            }),
    {
        let base = match file {
            Some(c) => c,
            None => ServerConfig::default(),
        };
        let config = ServerConfig {
            bind: pick_text(&cli.bind, base.bind),
            cert_file: pick_path(&cli.cert_file, base.cert_file),
            key_file: pick_path(&cli.key_file, base.key_file),
            bitrate: pick(cli.bitrate, base.bitrate),
            max_room_size: pick(cli.max_room_size, base.max_room_size),
            jitter_depth: pick(cli.jitter_depth, base.jitter_depth),
            vad_threshold: pick(cli.vad_threshold, base.vad_threshold),
            cleanup_interval_secs: pick(cli.cleanup_interval, base.cleanup_interval_secs),
            max_display_name: base.max_display_name,
            max_room_code: base.max_room_code,
            datagram_buffer: base.datagram_buffer,
            signal_rate: pick(cli.signal_rate, base.signal_rate),
            signal_burst: pick(cli.signal_burst, base.signal_burst),
            connect_rate_per_ip: pick(cli.connect_rate_per_ip, base.connect_rate_per_ip),
            connect_burst_per_ip: pick(cli.connect_burst_per_ip, base.connect_burst_per_ip),
        };
        match config.validate() {
            Ok(()) => Ok(config),
            Err(text) => Err(text),
        }
    }

    pub fn cert_path(&self) -> (r: Option<String>)
        ensures
            text_view(r) == self@.cert_file,
    {
        match &self.cert_file {
            Some(path) => Some(path.clone()),
            None => None,
        }
    }

    pub fn key_path(&self) -> (r: Option<String>)
        ensures
            text_view(r) == self@.key_file,
    {
        match &self.key_file {
            Some(path) => Some(path.clone()),
            None => None,
        }
    }

    /// Checks every setting, in the order in which complaints take precedence.
    pub fn validate(&self) -> (r: Result<(), &'static str>)
        ensures
            match r {
                Ok(()) => self@.valid(),
                Err(text) => !self@.valid() && text@ == self@.complaint(),
            },
    {
        if self.bitrate < 6_000 || self.bitrate > 510_000 {
            return Err("bitrate must be between 6000 and 510000");
        }
        if self.max_room_size == 0 {
            return Err("max_room_size must be > 0");
        }
        if self.jitter_depth == 0 || self.jitter_depth > 32 {
            return Err("jitter_depth must be between 1 and 32");
        }
        if !(self.vad_threshold <= ONE_BITS || self.vad_threshold == NEGATIVE_ZERO_BITS) {
            return Err("vad_threshold must be between 0.0 and 1.0");
        }
        if self.cleanup_interval_secs == 0 {
            return Err("cleanup_interval_secs must be > 0");
        }
        if self.max_display_name == 0 {
            return Err("max_display_name must be > 0");
        }
        if self.max_room_code == 0 {
            return Err("max_room_code must be > 0");
        }
        if self.signal_rate == 0 {
            return Err("signal_rate must be > 0");
        }
        if self.signal_burst == 0 {
            return Err("signal_burst must be > 0");
        }
        if self.connect_rate_per_ip == 0 {
            return Err("connect_rate_per_ip must be > 0");
        }
        if self.connect_burst_per_ip == 0 {
            return Err("connect_burst_per_ip must be > 0");
        }
        if self.cert_file.is_some() != self.key_file.is_some() {
            return Err("cert_file and key_file must both be set or both be omitted");
        }
        Ok(())
    }
}

/// The default settings are valid.
pub proof fn lemma_defaults_are_valid()
    ensures
        ServerConfigView::default_values().valid(),
{
}

/// What is given on the command line wins over the file and the defaults; what is
/// not given stays, and so does everything that has no option.
pub proof fn lemma_command_line_wins(base: ServerConfigView, cli: Cli)
    ensures
        base.overridden(cli).bitrate == given_or(cli.bitrate, base.bitrate),
        base.overridden(cli).max_room_size == given_or(cli.max_room_size, base.max_room_size),
        base.overridden(cli).jitter_depth == given_or(cli.jitter_depth, base.jitter_depth),
        base.overridden(cli).max_display_name == base.max_display_name,
        base.overridden(cli).max_room_code == base.max_room_code,
        base.overridden(cli).datagram_buffer == base.datagram_buffer,
        base.overridden(cli).overridden(cli) == base.overridden(cli),
{
}

/// `value` is the path of the option where the option is given, else `base`.
pub open spec fn path_taken(
    option: Option<String>,
    base: Option<String>,
    value: Option<String>,
) -> bool {
    match (option, base, value) {
        (Some(t), _, Some(v)) => v@ == t@,
        (None, Some(b), Some(v)) => v@ == b@,
        (None, None, None) => true,
        _ => false,
    }
}

/// `c` is what comes of putting the options in place of a base's settings: each
/// setting that has an option is the option's where it is given, and the base's
/// where it is not; those without one are the base's.
pub open spec fn merged(cli: Cli, base: ServerConfig, c: ServerConfig) -> bool {
    &&& c.bind@ == (match cli.bind {
        Some(t) => t@,
        None => base.bind@,
    })
    &&& path_taken(cli.cert_file, base.cert_file, c.cert_file)
    &&& path_taken(cli.key_file, base.key_file, c.key_file)
    &&& c.bitrate == (match cli.bitrate {
        Some(v) => v,
        None => base.bitrate,
    })
    &&& c.max_room_size == (match cli.max_room_size {
        Some(v) => v,
        None => base.max_room_size,
    })
    &&& c.jitter_depth == (match cli.jitter_depth {
        Some(v) => v,
        None => base.jitter_depth,
    })
    &&& c.vad_threshold == (match cli.vad_threshold {
        Some(v) => v,
        None => base.vad_threshold,
    })
    &&& c.cleanup_interval_secs == (match cli.cleanup_interval {
        Some(v) => v,
        None => base.cleanup_interval_secs,
    })
    &&& c.signal_rate == (match cli.signal_rate {
        Some(v) => v,
        None => base.signal_rate,
    })
    &&& c.signal_burst == (match cli.signal_burst {
        Some(v) => v,
        None => base.signal_burst,
    })
    &&& c.connect_rate_per_ip == (match cli.connect_rate_per_ip {
        Some(v) => v,
        None => base.connect_rate_per_ip,
    })
    &&& c.connect_burst_per_ip == (match cli.connect_burst_per_ip {
        Some(v) => v,
        None => base.connect_burst_per_ip,
    })
    &&& c.max_display_name == base.max_display_name
    &&& c.max_room_code == base.max_room_code
    &&& c.datagram_buffer == base.datagram_buffer
}

/// `c` holds the defaults.
pub open spec fn has_defaults(c: ServerConfig) -> bool {
    &&& c.bind@ == "0.0.0.0:4433"@
    &&& c.cert_file is None
    &&& c.key_file is None
    &&& c.bitrate == 48_000
    &&& c.max_room_size == 64
    &&& c.jitter_depth == 4
    &&& c.vad_threshold == 0x3b03_126f
    &&& c.cleanup_interval_secs == 30
    &&& c.signal_rate == 10
    &&& c.signal_burst == 20
    &&& c.connect_rate_per_ip == 5
    &&& c.connect_burst_per_ip == 10
    &&& c.max_display_name == 64
    &&& c.max_room_code == 128
    &&& c.datagram_buffer == 65_536
}

/// With a file, what is loaded is the options put in place of the file's settings.
pub proof fn lemma_options_win_over_file(
    cli: &Cli,
    file: ServerConfig,
    r: Result<ServerConfig, &'static str>,
)
    requires
        call_ensures(ServerConfig::load, (cli, Some(file)), r),
        r is Ok,
    ensures
        merged(*cli, file, r->Ok_0),
{
}

/// Without a file, what is loaded is the options put in place of the defaults.
pub proof fn lemma_options_win_over_defaults(
    cli: &Cli,
    base: ServerConfig,
    r: Result<ServerConfig, &'static str>,
)
    requires
        call_ensures(ServerConfig::load, (cli, None), r),
        has_defaults(base),
        r is Ok,
    ensures
        merged(*cli, base, r->Ok_0),
{
}

/// Settings are valid exactly if every number is in its range and the
/// certificate's two files are given together or not at all.
pub proof fn lemma_validates_exactly_in_range(config: &ServerConfig, r: Result<(), &'static str>)
    requires
        call_ensures(ServerConfig::validate, (config,), r),
    ensures
        r is Ok <==> {
            &&& 6_000 <= config.bitrate <= 510_000
            &&& config.max_room_size > 0
            &&& 1 <= config.jitter_depth <= 32
            &&& config.vad_threshold <= 0x3f80_0000 || config.vad_threshold == 0x8000_0000
            &&& config.cleanup_interval_secs > 0
            &&& config.max_display_name > 0
            &&& config.max_room_code > 0
            &&& config.signal_rate > 0
            &&& config.signal_burst > 0
            &&& config.connect_rate_per_ip > 0
            &&& config.connect_burst_per_ip > 0
            &&& config.cert_file is Some <==> config.key_file is Some
        },
{
}

/// A complaint is about the first setting that is out of range, in this order.
pub proof fn lemma_complaint_is_true(config: &ServerConfig, r: Result<(), &'static str>)
    requires
        call_ensures(ServerConfig::validate, (config,), r),
        r is Err,
    ensures
        r->Err_0@ == (if config.bitrate < 6_000 || config.bitrate > 510_000 {
            "bitrate must be between 6000 and 510000"@
        } else if config.max_room_size == 0 {
            "max_room_size must be > 0"@
        } else if config.jitter_depth == 0 || config.jitter_depth > 32 {
            "jitter_depth must be between 1 and 32"@
        } else if config.vad_threshold > 0x3f80_0000 && config.vad_threshold != 0x8000_0000 {
            "vad_threshold must be between 0.0 and 1.0"@
        } else if config.cleanup_interval_secs == 0 {
            "cleanup_interval_secs must be > 0"@
        } else if config.max_display_name == 0 {
            "max_display_name must be > 0"@
        } else if config.max_room_code == 0 {
            "max_room_code must be > 0"@
        } else if config.signal_rate == 0 {
            "signal_rate must be > 0"@
        } else if config.signal_burst == 0 {
            "signal_burst must be > 0"@
        } else if config.connect_rate_per_ip == 0 {
            "connect_rate_per_ip must be > 0"@
        } else if config.connect_burst_per_ip == 0 {
            "connect_burst_per_ip must be > 0"@
        } else {
            "cert_file and key_file must both be set or both be omitted"@
        }),
{
}

/// Loading succeeds exactly if what comes of the options and the base is valid,
/// and complains as checking that would.
pub proof fn lemma_loads_exactly_if_valid(
    cli: &Cli,
    file: Option<ServerConfig>,
    base: ServerConfig,
    r: Result<ServerConfig, &'static str>,
    config: &ServerConfig,
    checked: Result<(), &'static str>,
)
    requires
        call_ensures(ServerConfig::load, (cli, file), r),
        call_ensures(ServerConfig::validate, (config,), checked),
        match file {
            Some(f) => base == f,
            None => has_defaults(base),
        },
        merged(*cli, base, *config),
    ensures
        r is Ok <==> checked is Ok,
        r is Err ==> r->Err_0@ == checked->Err_0@,
{
    let start = match file {
        Some(f) => f@,
        None => ServerConfigView::default_values(),
    };
    assert(start.overridden(*cli) == config@);
}

/// The paths handed out are the ones set.
pub proof fn lemma_paths_are_as_set(config: &ServerConfig, cert: Option<String>, key: Option<String>)
    requires
        call_ensures(ServerConfig::cert_path, (config,), cert),
        call_ensures(ServerConfig::key_path, (config,), key),
    ensures
        path_taken(None, config.cert_file, cert),
        path_taken(None, config.key_file, key),
{
}

} // verus!
