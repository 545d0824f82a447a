//! Client settings: defaults, command-line overrides and validation.

use vstd::prelude::*;
use vstd::string::*;

use crate::client::audio_io::DEFAULT_RING_BUFFER_FRAMES;
use crate::client::tui::DEFAULT_MAX_EVENTS;
use crate::common::options::{given_or, pick, pick_path, pick_text, text_view};
use crate::common::protocol::{DEFAULT_BITRATE, FRAME_SIZE};

verus! {

/// Command-line options. Addresses and paths are kept as text.
pub struct Cli {
    pub server: Option<String>,
    pub room: Option<String>,
    pub name: Option<String>,
    pub list_devices: bool,
    pub config: Option<String>,
    pub cert_hash: Option<String>,
    pub danger_skip_verify: bool,
    pub test_tone: bool,
    pub log_file: Option<String>,
    pub bitrate: Option<i32>,
    pub ring_buffer_frames: Option<usize>,
    pub max_events: Option<usize>,
    pub input_device: Option<String>,
    pub output_device: Option<String>,
}

#[derive(Debug)]
pub struct ClientConfig {
    pub log_file: String,
    pub bitrate: i32,
    pub ring_buffer_frames: usize,
    pub max_events: usize,
    pub input_device: Option<String>,
    pub output_device: Option<String>,
}

/// The settings with their texts as character sequences.
pub struct ClientConfigView {
    pub log_file: Seq<char>,
    pub bitrate: i32,
    pub ring_buffer_frames: usize,
    pub max_events: usize,
    pub input_device: Option<Seq<char>>,
    pub output_device: Option<Seq<char>>,
}

impl View for ClientConfig {
    type V = ClientConfigView;

    open spec fn view(&self) -> ClientConfigView {
        ClientConfigView {
            log_file: self.log_file@,
            bitrate: self.bitrate,
            ring_buffer_frames: self.ring_buffer_frames,
            max_events: self.max_events,
            input_device: text_view(self.input_device),
            output_device: text_view(self.output_device),
        }
    }
}

impl ClientConfigView {
    pub open spec fn default_values() -> Self {
        ClientConfigView {
            log_file: "voicemcu.log"@,
            bitrate: 48_000,
            ring_buffer_frames: 10,
            max_events: 1000,
            input_device: None,
            output_device: None,
        }
    }

    /// The settings with every given command-line option put in place.
    pub open spec fn overridden(self, cli: Cli) -> Self {
        ClientConfigView {
            log_file: given_or(text_view(cli.log_file), self.log_file),
            bitrate: given_or(cli.bitrate, self.bitrate),
            ring_buffer_frames: given_or(cli.ring_buffer_frames, self.ring_buffer_frames),
            max_events: given_or(cli.max_events, self.max_events),
            input_device: if cli.input_device is Some {
                text_view(cli.input_device)
            } else {
                self.input_device
            },
            output_device: if cli.output_device is Some {
                text_view(cli.output_device)
            } else {
                self.output_device
            },
        }
    }

    /// Every setting is in its range.
    pub open spec fn valid(self) -> bool {
        &&& 6_000 <= self.bitrate <= 510_000
        &&& 1 <= self.ring_buffer_frames <= 100
        &&& self.max_events > 0
    }

    /// The complaint about the first setting that is out of range.
    pub open spec fn complaint(self) -> Seq<char> {
        if !(6_000 <= self.bitrate <= 510_000) {
            "bitrate must be between 6000 and 510000"@
        } else if !(1 <= self.ring_buffer_frames <= 100) {
            "ring_buffer_frames must be between 1 and 100"@
        } else {
            "max_events must be > 0"@
        }
    }
}

/// The complaint about the first argument that is missing.
pub open spec fn missing_argument(cli: Cli) -> Option<Seq<char>> {
    if cli.server is None {
        Some("server address is required"@)
    } else if cli.room is None {
        Some("room code is required"@)
    } else if cli.name is None {
        Some("display name is required"@)
    } else {
        None
    }
}

/// Where to connect and as whom.
pub struct Target {
    pub server: String,
    pub room: String,
    pub name: String,
}

/// Takes the arguments without which there is nothing to connect to.
pub fn connect_target(cli: &Cli) -> (r: Result<Target, &'static str>)
    ensures
        match r {
            Ok(t) => {
                &&& missing_argument(*cli) is None
                &&& text_view(cli.server) == Some(t.server@)
                &&& text_view(cli.room) == Some(t.room@)
                &&& text_view(cli.name) == Some(t.name@)
            },
            Err(why) => missing_argument(*cli) == Some(why@),
        },
{
    let server = match &cli.server {
        Some(text) => text.clone(),
        None => {
            return Err("server address is required");
        },
    };
    let room = match &cli.room {
        Some(text) => text.clone(),
        None => {
            return Err("room code is required");
        },
    };
    let name = match &cli.name {
        Some(text) => text.clone(),
        None => {
            return Err("display name is required");
        },
    };
    Ok(Target { server, room, name })
}

impl Default for ClientConfig {
    fn default() -> (r: Self)
        ensures
            r@ == ClientConfigView::default_values(),
    {
        ClientConfig {
            log_file: "voicemcu.log".to_owned(),
            bitrate: DEFAULT_BITRATE,
            ring_buffer_frames: DEFAULT_RING_BUFFER_FRAMES,
            max_events: DEFAULT_MAX_EVENTS,
            input_device: None,
            output_device: None,
        }
    }
}

impl ClientConfig {
    /// Starts from the settings of the configuration file, or from the defaults
    /// without one, puts the command-line options in place and validates.
    pub fn load(cli: &Cli, file: Option<ClientConfig>) -> (r: Result<Self, &'static str>)
        ensures
            ({
                let base = match file {
                    Some(c) => c@,
                    None => ClientConfigView::default_values(),
                };
                match r {
                    Ok(c) => base.overridden(*cli).valid() && c@ == base.overridden(*cli),
                    Err(text) => !base.overridden(*cli).valid() && text@ == base.overridden(
                        *cli,
                    ).complaint(),
                }
            }),
    {
        let base = match file {
            Some(c) => c,
            None => ClientConfig::default(),
        };
        let config = ClientConfig {
            log_file: pick_text(&cli.log_file, base.log_file),
            bitrate: pick(cli.bitrate, base.bitrate),
            ring_buffer_frames: pick(cli.ring_buffer_frames, base.ring_buffer_frames),
            max_events: pick(cli.max_events, base.max_events),
            input_device: pick_path(&cli.input_device, base.input_device),
            output_device: pick_path(&cli.output_device, base.output_device),
        };
        match config.validate() {
            Ok(()) => Ok(config),
            Err(text) => Err(text),
        }
    }

    /// Checks every setting, in the order in which complaints take precedence.
    pub fn validate(&self) -> (r: Result<(), &'static str>)
        ensures
            match r {
                Ok(()) => self@.valid(),
                Err(text) => !self@.valid() && text@ == self@.complaint(),
            },
    {
        if self.bitrate < 6_000 || self.bitrate > 510_000 {
            return Err("bitrate must be between 6000 and 510000");
        }
        if self.ring_buffer_frames == 0 || self.ring_buffer_frames > 100 {
            return Err("ring_buffer_frames must be between 1 and 100");
        }
        if self.max_events == 0 {
            return Err("max_events must be > 0");
        }
        Ok(())
    }
}

impl ClientConfig {
    /// How many samples the capture and playback buffers hold.
    pub fn ring_buffer_len(&self) -> (r: usize)
        requires
            self@.valid(),
        ensures
            r == FRAME_SIZE * self@.ring_buffer_frames,
    {
        FRAME_SIZE * self.ring_buffer_frames
    }
}

/// The default settings are valid.
pub proof fn lemma_defaults_are_valid()
    ensures
        ClientConfigView::default_values().valid(),
{
}

/// What is given on the command line wins over the file and the defaults; what is
/// not given stays.
pub proof fn lemma_command_line_wins(base: ClientConfigView, cli: Cli)
    ensures
        base.overridden(cli).log_file == given_or(text_view(cli.log_file), base.log_file),
        base.overridden(cli).bitrate == given_or(cli.bitrate, base.bitrate),
        base.overridden(cli).ring_buffer_frames == given_or(
            cli.ring_buffer_frames,
            base.ring_buffer_frames,
        ),
        base.overridden(cli).max_events == given_or(cli.max_events, base.max_events),
        base.overridden(cli).overridden(cli) == base.overridden(cli),
{
}

/// `value` is the text of the option where the option is given, else `base`.
pub open spec fn text_taken(option: Option<String>, base: Seq<char>, value: Seq<char>) -> bool {
    match option {
        Some(t) => value == t@,
        None => value == base,
    }
}

/// `value` is the option where the option is given, else `base`.
pub open spec fn device_taken(
    option: Option<String>,
    base: Option<String>,
    value: Option<String>,
) -> bool {
    match (option, base, value) {
        (Some(t), _, Some(v)) => v@ == t@,
        (None, Some(b), Some(v)) => v@ == b@,
        (None, None, None) => true,
        _ => false,
    }
}

/// Every setting that has an option is the option's where it is given, the audio
/// devices among them, and the file's where it is not.
pub proof fn lemma_options_win_over_file(
    cli: &Cli,
    file: ClientConfig,
    r: Result<ClientConfig, &'static str>,
)
    requires
        call_ensures(ClientConfig::load, (cli, Some(file)), r),
        r is Ok,
    ensures
        ({
            let c = r->Ok_0;
            &&& text_taken(cli.log_file, file.log_file@, c.log_file@)
            &&& c.bitrate == (match cli.bitrate {
                Some(v) => v,
                None => file.bitrate,
            })
            &&& c.ring_buffer_frames == (match cli.ring_buffer_frames {
                Some(v) => v,
                None => file.ring_buffer_frames,
            })
            &&& c.max_events == (match cli.max_events {
                Some(v) => v,
                None => file.max_events,
            })
            &&& device_taken(cli.input_device, file.input_device, c.input_device)
            &&& device_taken(cli.output_device, file.output_device, c.output_device)
        }),
{
}

/// Without a file every setting is the option's where it is given, and its
/// default where it is not; no device is named by default.
pub proof fn lemma_options_win_over_defaults(cli: &Cli, r: Result<ClientConfig, &'static str>)
    requires
        call_ensures(ClientConfig::load, (cli, None), r),
        r is Ok,
    ensures
        ({
            let c = r->Ok_0;
            &&& text_taken(cli.log_file, "voicemcu.log"@, c.log_file@)
            &&& c.bitrate == (match cli.bitrate {
                Some(v) => v,
                None => 48_000,
            })
            &&& c.ring_buffer_frames == (match cli.ring_buffer_frames {
                Some(v) => v,
                None => 10,
            })
            &&& c.max_events == (match cli.max_events {
                Some(v) => v,
                None => 1000,
            })
            &&& device_taken(cli.input_device, None, c.input_device)
            &&& device_taken(cli.output_device, None, c.output_device)
        }),
{
}

/// Settings load exactly if each number, the option's or else the base's, is in
/// its range; the complaint is about the first that is not.
pub proof fn lemma_loads_exactly_in_range(
    cli: &Cli,
    file: Option<ClientConfig>,
    r: Result<ClientConfig, &'static str>,
)
    requires
        call_ensures(ClientConfig::load, (cli, file), r),
    ensures
        ({
            let bitrate = match (cli.bitrate, file) {
                (Some(v), _) => v,
                (None, Some(f)) => f.bitrate,
                (None, None) => 48_000,
            };
            let frames = match (cli.ring_buffer_frames, file) {
                (Some(v), _) => v,
                (None, Some(f)) => f.ring_buffer_frames,
                (None, None) => 10,
            };
            let events = match (cli.max_events, file) {
                (Some(v), _) => v,
                (None, Some(f)) => f.max_events,
                (None, None) => 1000,
            };
            let bitrate_ok = 6_000 <= bitrate <= 510_000;
            let frames_ok = 1 <= frames <= 100;
            &&& r is Ok <==> bitrate_ok && frames_ok && events > 0
            &&& !bitrate_ok ==> r->Err_0@ == "bitrate must be between 6000 and 510000"@
            &&& bitrate_ok && !frames_ok ==> r->Err_0@
                == "ring_buffer_frames must be between 1 and 100"@
            &&& bitrate_ok && frames_ok && events == 0 ==> r->Err_0@ == "max_events must be > 0"@
        }),
{
}

/// Checking settings finds exactly the ones out of range.
pub proof fn lemma_validates_exactly_in_range(
    config: &ClientConfig,
    r: Result<(), &'static str>,
)
    requires
        call_ensures(ClientConfig::validate, (config,), r),
    ensures
        r is Ok <==> 6_000 <= config.bitrate <= 510_000 && 1 <= config.ring_buffer_frames <= 100
            && config.max_events > 0,
{
}

/// Whoever names a server, a room and itself connects there as that; whoever
/// leaves one out is told which.
pub proof fn lemma_target_is_as_given(cli: &Cli, r: Result<Target, &'static str>)
    requires
        call_ensures(connect_target, (cli,), r),
    ensures
        r is Ok <==> cli.server is Some && cli.room is Some && cli.name is Some,
        r is Ok ==> {
            &&& r->Ok_0.server@ == cli.server->Some_0@
            &&& r->Ok_0.room@ == cli.room->Some_0@
            &&& r->Ok_0.name@ == cli.name->Some_0@
        },
        cli.server is None ==> r->Err_0@ == "server address is required"@,
        cli.server is Some && cli.room is None ==> r->Err_0@ == "room code is required"@,
        cli.server is Some && cli.room is Some && cli.name is None ==> r->Err_0@
            == "display name is required"@,
{
}

/// The ring buffer holds the configured number of frames of 20 ms, 960 samples each.
pub proof fn lemma_ring_buffer_holds_frames(config: &ClientConfig, r: usize)
    requires
        call_ensures(ClientConfig::ring_buffer_len, (config,), r),
    ensures
        r == 960 * config.ring_buffer_frames,
{
}

} // verus!
