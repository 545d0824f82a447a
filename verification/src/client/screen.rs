//! What the terminal shows: pieces of styled text, scroll and cursor places.

use vstd::prelude::*;
use vstd::string::*;
use vstd::utf8::encode_utf8;

use crate::client::audio_io::DeviceInfo;
use crate::client::tui::{
    bright, colored, named, plain, AppState, AppView, Color, PeerEntry, PeerView, Style,
};
use crate::common::protocol::{info_views, ClientId, ClientInfo, ClientInfoView};
use crate::common::text::{decimal, decimal_text};

verus! {

/// A piece of text and how it is drawn.
#[derive(Debug, Clone, PartialEq)]
pub struct Span {
    pub text: String,
    pub style: Style,
}

impl View for Span {
    type V = (Seq<char>, Style);

    open spec fn view(&self) -> (Seq<char>, Style) {
        (self.text@, self.style)
    }
}

pub open spec fn span_views(spans: Seq<Span>) -> Seq<(Seq<char>, Style)> {
    Seq::new(spans.len(), |i: int| spans[i]@)
}

fn add_span(spans: &mut Vec<Span>, text: &str, style: Style)
    ensures
        span_views(final(spans)@) == span_views(old(spans)@).push((text@, style)),
{
    let ghost before = spans@;
    spans.push(Span { text: text.to_owned(), style });
    assert(span_views(spans@) =~= span_views(before).push((text@, style)));
}

/// A text filled up with spaces to a width.
pub open spec fn padded(s: Seq<char>, width: nat) -> Seq<char>
    decreases width - s.len(),
{
    if s.len() < width {
        padded(s.push(' '), width)
    } else {
        s
    }
}

fn pad(s: String, width: usize) -> (r: String)
    ensures
        r@ == padded(s@, width as nat),
{
    let mut out = s;
    let mut n: usize = out.as_str().unicode_len();
    while n < width
        invariant
            n == out@.len(),
            padded(out@, width as nat) == padded(s@, width as nat),
        decreases width - n,
    {
        out.push(' ');
        n = n + 1;
    }
    out
}

/// The title of the roster.
pub open spec fn roster_title(s: AppView) -> Seq<char> {
    " Peers ("@ + decimal(s.peers.len()) + ") "@
}

pub fn peers_title(state: &AppState) -> (r: String)
    ensures
        r@ == roster_title(state@),
{
    " Peers (".to_owned().concat(decimal_text(state.peers.len() as u64).as_str()).concat(") ")
}

/// The line of one peer: its number, with a marker on one's own; its name, which
/// stands out if it is one's own or not the only one; and its badges.
pub open spec fn peer_line_of(s: AppView, p: PeerView) -> Seq<(Seq<char>, Style)> {
    let me = p.client_id == s.client_id;
    let twin = named(s.peers, p.display_name).len() > 1;
    seq![
        (
            (if me { ">"@ } else { " "@ }) + "#"@ + padded(decimal(p.client_id as nat), 4),
            colored(Color::DarkGray),
        ),
        (
            p.display_name + " "@,
            if me {
                bright(Color::White)
            } else if twin {
                colored(Color::LightYellow)
            } else {
                colored(Color::White)
            },
        ),
    ] + (if twin {
        seq![("(!) "@, colored(Color::LightYellow))]
    } else {
        seq![]
    }) + (if p.is_host {
        seq![("HOST "@, colored(Color::Cyan))]
    } else {
        seq![]
    }) + (if p.server_muted {
        seq![("SILENCED "@, colored(Color::Red))]
    } else if p.self_muted {
        seq![("MUTE "@, colored(Color::Yellow))]
    } else {
        seq![]
    })
}

pub fn peer_line(state: &AppState, p: &PeerEntry) -> (r: Vec<Span>)
    ensures
        span_views(r@) == peer_line_of(state@, p@),
{
    let me: bool = p.client_id == state.client_id;
    let twin: bool = state.has_duplicate_name(p.display_name.as_str());
    let marker = if me {
        ">"
    } else {
        " "
    };
    let number = pad(decimal_text(p.client_id), 4);
    let id_text = marker.to_owned().concat("#").concat(number.as_str());
    let name_text = p.display_name.clone().concat(" ");
    let name_style = if me {
        Style::new().fg(Color::White).bold()
    } else if twin {
        Style::new().fg(Color::LightYellow)
    } else {
        Style::new().fg(Color::White)
    };
    let mut spans: Vec<Span> = Vec::new();
    add_span(&mut spans, id_text.as_str(), Style::new().fg(Color::DarkGray));
    add_span(&mut spans, name_text.as_str(), name_style);
    if twin {
        add_span(&mut spans, "(!) ", Style::new().fg(Color::LightYellow));
    }
    if p.is_host {
        add_span(&mut spans, "HOST ", Style::new().fg(Color::Cyan));
    }
    if p.server_muted {
        add_span(&mut spans, "SILENCED ", Style::new().fg(Color::Red));
    } else if p.self_muted {
        add_span(&mut spans, "MUTE ", Style::new().fg(Color::Yellow));
    }
    assert(span_views(spans@) =~= peer_line_of(state@, p@));
    spans
}

/// The title of the input line: one's name, the room, and one's flags.
pub open spec fn input_title_of(s: AppView) -> Seq<(Seq<char>, Style)> {
    seq![
        (" "@, plain()),
        (s.display_name, bright(Color::White)),
        (" | room: "@ + s.room_code + " "@, colored(Color::DarkGray)),
    ] + (if s.is_host {
        seq![("[HOST] "@, colored(Color::Cyan))]
    } else {
        seq![]
    }) + (if s.server_muted {
        seq![("[SILENCED] "@, colored(Color::Red))]
    } else if s.self_muted {
        seq![("[MUTED] "@, colored(Color::Yellow))]
    } else {
        seq![]
    })
}

pub fn input_title(state: &AppState) -> (r: Vec<Span>)
    ensures
        span_views(r@) == input_title_of(state@),
{
    let room = " | room: ".to_owned().concat(state.room_code.as_str()).concat(" ");
    let mut spans: Vec<Span> = Vec::new();
    add_span(&mut spans, " ", Style::new());
    add_span(&mut spans, state.display_name.as_str(), Style::new().fg(Color::White).bold());
    add_span(&mut spans, room.as_str(), Style::new().fg(Color::DarkGray));
    if state.is_host {
        add_span(&mut spans, "[HOST] ", Style::new().fg(Color::Cyan));
    }
    if state.server_muted {
        add_span(&mut spans, "[SILENCED] ", Style::new().fg(Color::Red));
    } else if state.self_muted {
        add_span(&mut spans, "[MUTED] ", Style::new().fg(Color::Yellow));
    }
    assert(span_views(spans@) =~= input_title_of(state@));
    spans
}

/// The input line: a prompt, then what was typed.
pub fn input_line(state: &AppState) -> (r: Vec<Span>)
    ensures
        span_views(r@) == seq![
            ("> "@, colored(Color::DarkGray)),
            (state@.input, plain()),
        ],
{
    let mut spans: Vec<Span> = Vec::new();
    add_span(&mut spans, "> ", Style::new().fg(Color::DarkGray));
    add_span(&mut spans, state.input.as_str(), Style::new());
    assert(span_views(spans@) =~= seq![
        ("> "@, colored(Color::DarkGray)),
        (state@.input, plain()),
    ]);
    spans
}

/// How many lines the event log is scrolled so that the last ones show in a box
/// of `height` lines, two of which are its border. The count is cut to 16 bits.
pub fn event_scroll(state: &AppState, height: u16) -> (r: u16)
    ensures
        ({
            let inner = if height >= 2 {
                height - 2
            } else {
                0
            };
            let lines = state@.events.len() as int;
            r == (if lines > inner {
                (lines - inner) % 0x1_0000
            } else {
                0
            })
        }),
{
    let inner: usize = if height >= 2 {
        (height - 2) as usize
    } else {
        0
    };
    let lines: usize = state.events.len();
    if lines > inner {
        ((lines - inner) % 0x1_0000) as u16
    } else {
        0
    }
}

/// The column of the cursor in an input box that starts at column `x`: behind
/// the border, the prompt and the bytes typed, counted in 16 bits.
pub fn cursor_column(state: &AppState, x: u16) -> (r: u16)
    requires
        x + 3 + encode_utf8(state@.input).len() % 0x1_0000 <= u16::MAX,
    ensures
        r == x + 3 + encode_utf8(state@.input).len() % 0x1_0000,
{
    let typed: usize = state.input.as_str().as_bytes().len();
    x + 3 + (typed % 0x1_0000) as u16
}

/// The row of the cursor in an input box that starts at row `y`.
pub fn cursor_row(y: u16) -> (r: u16)
    requires
        y < u16::MAX,
    ensures
        r == y + 1,
{
    y + 1
}

// ---------------------------------------------------------------------------
// Start-up
// ---------------------------------------------------------------------------

/// The state of a client that just connected.
pub open spec fn connected_state(
    client_id: ClientId,
    room_code: Seq<char>,
    display_name: Seq<char>,
    max_events: usize,
    roster: Seq<ClientInfoView>,
    unverified: bool,
) -> AppView {
    let s = AppView::initial(client_id, room_code, display_name, max_events).with_roster(
        roster,
    ).logged("connected to server"@, colored(Color::Green));
    if unverified {
        s.logged(
            "WARNING: TLS verification disabled -- connection is NOT secure"@,
            bright(Color::Red),
        )
    } else {
        s
    }
}

/// Sets up the state of a client that just connected. `unverified` tells that
/// the server's certificate was not verified, which the log then warns of.
pub fn connected(
    client_id: ClientId,
    room_code: String,
    display_name: String,
    max_events: usize,
    roster: &[ClientInfo],
    unverified: bool,
) -> (r: AppState)
    ensures
        r@ == connected_state(
            client_id,
            room_code@,
            display_name@,
            max_events,
            info_views(roster@),
            unverified,
        ),
{
    let mut state = AppState::new(client_id, room_code, display_name, max_events);
    state.set_peers_from_info(roster);
    state.add_event("connected to server".to_owned(), Style::new().fg(Color::Green));
    if unverified {
        state.add_event(
            "WARNING: TLS verification disabled -- connection is NOT secure".to_owned(),
            Style::new().fg(Color::Red).bold(),
        );
    }
    state
}

/// How the audio devices came up.
pub enum AudioStart {
    /// The test tone was asked for.
    TestTone,
    Devices { info: DeviceInfo },
    /// They did not come up, for this reason.
    Failed { reason: String },
}

/// A device, its sample rate and its channels.
pub open spec fn device_text(name: Seq<char>, rate: u32, channels: usize) -> Seq<char> {
    name + " ("@ + decimal(rate as nat) + " Hz, "@ + decimal(channels as nat) + " ch)"@
}

fn device_line(label: &str, name: &str, rate: u32, channels: usize) -> (r: String)
    ensures
        r@ == label@ + device_text(name@, rate, channels),
{
    let line = label.to_owned().concat(name).concat(" (").concat(
        decimal_text(rate as u64).as_str(),
    ).concat(" Hz, ").concat(decimal_text(channels as u64).as_str()).concat(" ch)");
    assert(line@ =~= label@ + device_text(name@, rate, channels));
    line
}

/// The state after the devices came up, or not.
pub open spec fn audio_started(s: AppView, start: AudioStart) -> AppView {
    match start {
        AudioStart::TestTone => s.logged(
            "test-tone mode (440 Hz sine)"@,
            colored(Color::DarkGray),
        ),
        AudioStart::Devices { info } => s.logged(
            "input:  "@ + device_text(info.input_name@, info.input_rate, info.input_channels),
            colored(Color::DarkGray),
        ).logged(
            "output: "@ + device_text(info.output_name@, info.output_rate, info.output_channels),
            colored(Color::DarkGray),
        ),
        AudioStart::Failed { reason } => s.logged(
            "audio init failed, using test tone: "@ + reason@,
            colored(Color::Yellow),
        ),
    }
}

/// Notes how the devices came up. Tells whether to send the test tone.
pub fn start_audio(state: &mut AppState, start: AudioStart) -> (r: bool)
    ensures
        final(state)@ == audio_started(old(state)@, start),
        r == !(start is Devices),
{
    match start {
        AudioStart::TestTone => {
            state.add_event(
                "test-tone mode (440 Hz sine)".to_owned(),
                Style::new().fg(Color::DarkGray),
            );
            true
        },
        AudioStart::Devices { info } => {
            let input = device_line(
                "input:  ",
                info.input_name.as_str(),
                info.input_rate,
                info.input_channels,
            );
            let output = device_line(
                "output: ",
                info.output_name.as_str(),
                info.output_rate,
                info.output_channels,
            );
            state.add_event(input, Style::new().fg(Color::DarkGray));
            state.add_event(output, Style::new().fg(Color::DarkGray));
            false
        },
        AudioStart::Failed { reason } => {
            state.add_event(
                "audio init failed, using test tone: ".to_owned().concat(reason.as_str()),
                Style::new().fg(Color::Yellow),
            );
            true
        },
    }
}

// ---------------------------------------------------------------------------
// Laws, said of the calls
// ---------------------------------------------------------------------------

proof fn lemma_padded(s: Seq<char>, width: nat)
    ensures
        padded(s, width).len() == (if s.len() < width {
            width
        } else {
            s.len()
        }),
        padded(s, width).take(s.len() as int) == s,
        forall|i: int| s.len() <= i < padded(s, width).len() ==> padded(s, width)[i] == ' ',
    decreases width - s.len(),
{
    if s.len() < width {
        lemma_padded(s.push(' '), width);
        let full = padded(s, width);
        assert(full.take(s.len() as int) =~= full.take(s.len() as int + 1).take(s.len() as int));
        assert(full[s.len() as int] == full.take(s.len() as int + 1)[s.len() as int]);
        assert(s.push(' ').take(s.len() as int) =~= s);
    } else {
        assert(s.take(s.len() as int) =~= s);
    }
}

/// A peer's line starts with its number, behind a mark exactly on one's own, and
/// filled up with spaces; then comes its name.
pub proof fn lemma_peer_line_names_the_peer(state: &AppState, p: &PeerEntry, line: Vec<Span>)
    requires
        call_ensures(peer_line, (state, p), line),
    ensures
        line@.len() >= 2,
        line@[1].text@ == p.display_name@ + " "@,
        ({
            let head = line@[0].text@;
            let number = decimal(p.client_id as nat);
            let mark = if p.client_id == state.client_id {
                '>'
            } else {
                ' '
            };
            let n = number.len() as int;
            &&& head.len() == (if n < 4 {
                6
            } else {
                n + 2
            })
            &&& head[0] == mark
            &&& head[1] == '#'
            &&& head.subrange(2, 2 + n) == number
            &&& forall|i: int| 2 + n <= i < head.len() ==> head[i] == ' '
        }),
{
    let views = span_views(line@);
    assert(views == peer_line_of(state@, p@));
    assert(views[0].0 == line@[0].text@);
    assert(views[1].0 == line@[1].text@);
    reveal_strlit(">");
    reveal_strlit(" ");
    reveal_strlit("#");
    let number = decimal(p.client_id as nat);
    lemma_padded(number, 4);
    let head = line@[0].text@;
    let tail = padded(number, 4);
    assert(head.skip(2) =~= tail);
    assert(head.subrange(2, 2 + number.len() as int) =~= tail.take(number.len() as int));
    assert forall|i: int| 2 + number.len() <= i < head.len() implies head[i] == ' ' by {
        assert(head.skip(2)[i - 2] == tail[i - 2]);
    }
}

/// A peer's line shows its badges: that it hosts, that the host silenced it or
/// else that it muted itself, and that another peer has its name; and shows each
/// of them only then.
pub proof fn lemma_peer_line_shows_badges(
    state: &AppState,
    p: &PeerEntry,
    line: Vec<Span>,
    name: &str,
    twin: bool,
)
    requires
        call_ensures(peer_line, (state, p), line),
        call_ensures(AppState::has_duplicate_name, (state, name), twin),
        name@ == p.display_name@,
    ensures
        ({
            let host = p.is_host;
            let silenced = p.server_muted;
            let muted = p.self_muted && !p.server_muted;
            let own = p.client_id == state.client_id;
            &&& line@.len() == 2 + (if twin {
                1int
            } else {
                0
            }) + (if host {
                1int
            } else {
                0
            }) + (if silenced || muted {
                1int
            } else {
                0
            })
            &&& twin ==> line@[2].text@ == "(!) "@ && line@[2].style == (Style {
                foreground: Some(Color::LightYellow),
                bold: false,
            })
            &&& host ==> {
                let at = if twin {
                    3int
                } else {
                    2
                };
                line@[at].text@ == "HOST "@ && line@[at].style == (Style {
                    foreground: Some(Color::Cyan),
                    bold: false,
                })
            }
            &&& silenced ==> line@.last().text@ == "SILENCED "@ && line@.last().style == (Style {
                foreground: Some(Color::Red),
                bold: false,
            })
            &&& muted ==> line@.last().text@ == "MUTE "@ && line@.last().style == (Style {
                foreground: Some(Color::Yellow),
                bold: false,
            })
            &&& line@[0].style == (Style { foreground: Some(Color::DarkGray), bold: false })
            &&& line@[1].style == (Style {
                foreground: Some(
                    if own || !twin {
                        Color::White
                    } else {
                        Color::LightYellow
                    },
                ),
                bold: own,
            })
        }),
{
    let views = span_views(line@);
    assert(views == peer_line_of(state@, p@));
    assert forall|i: int| 0 <= i < line@.len() implies #[trigger] views[i] == (
        line@[i].text@,
        line@[i].style,
    ) by {}
    let n = line@.len() - 1;
    assert(views[0] == views[0]);
    assert(views[1] == views[1]);
    assert(views[n] == views[n]);
    if views.len() > 2 {
        assert(views[2] == views[2]);
    }
    if views.len() > 3 {
        assert(views[3] == views[3]);
    }
}

/// The title of the input line names the client and its room, and shows that it
/// hosts, and that it is silenced or else muted, exactly if it is.
pub proof fn lemma_input_title(state: &AppState, line: Vec<Span>)
    requires
        call_ensures(input_title, (state,), line),
    ensures
        ({
            let silenced = state.server_muted;
            let muted = state.self_muted && !state.server_muted;
            &&& line@.len() == 3 + (if state.is_host {
                1int
            } else {
                0
            }) + (if silenced || muted {
                1int
            } else {
                0
            })
            &&& line@[0].text@ == " "@
            &&& line@[1].text@ == state.display_name@
            &&& line@[1].style == (Style { foreground: Some(Color::White), bold: true })
            &&& line@[2].text@ == " | room: "@ + state.room_code@ + " "@
            &&& state.is_host ==> line@[3].text@ == "[HOST] "@ && line@[3].style == (Style {
                foreground: Some(Color::Cyan),
                bold: false,
            })
            &&& silenced ==> line@.last().text@ == "[SILENCED] "@ && line@.last().style == (Style {
                foreground: Some(Color::Red),
                bold: false,
            })
            &&& muted ==> line@.last().text@ == "[MUTED] "@ && line@.last().style == (Style {
                foreground: Some(Color::Yellow),
                bold: false,
            })
        }),
{
    let views = span_views(line@);
    assert(views == input_title_of(state@));
    assert forall|i: int| 0 <= i < line@.len() implies #[trigger] views[i] == (
        line@[i].text@,
        line@[i].style,
    ) by {}
    let n = line@.len() - 1;
    assert(views[0] == views[0]);
    assert(views[1] == views[1]);
    assert(views[2] == views[2]);
    assert(views[n] == views[n]);
    if views.len() > 3 {
        assert(views[3] == views[3]);
    }
}

/// The input line is the prompt and what was typed.
pub proof fn lemma_input_line(state: &AppState, line: Vec<Span>)
    requires
        call_ensures(input_line, (state,), line),
    ensures
        line@.len() == 2,
        line@[0].text@ == "> "@,
        line@[1].text@ == state.input@,
{
    let views = span_views(line@);
    assert(views.len() == 2);
    assert(line@.len() == views.len());
    assert(views[0] == (line@[0].text@, line@[0].style));
    assert(views[1] == (line@[1].text@, line@[1].style));
}

/// The roster's title counts the peers.
pub proof fn lemma_peers_title(state: &AppState, title: String)
    requires
        call_ensures(peers_title, (state,), title),
    ensures
        title@ == " Peers ("@ + decimal(state.peers@.len()) + ") "@,
{
}

/// The log is scrolled so that its last line is the last one in the box, whose
/// border takes two lines, and not at all where everything fits. The number of lines
/// scrolled is cut to 16 bits.
pub proof fn lemma_log_is_scrolled_to_its_end(state: &AppState, height: u16, r: u16)
    requires
        call_ensures(event_scroll, (state, height), r),
    ensures
        height >= 2 && state.events@.len() + 2 <= height ==> r == 0,
        height >= 2 && state.events@.len() + 2 > height ==> r == (state.events@.len() + 2 - height)
            % 0x1_0000,
        height < 2 ==> r == state.events@.len() as int % 0x1_0000,
{
}

/// A client that just connected shows the roster it got and the notice that it is
/// connected, and behind that the warning exactly if the server was not verified.
pub proof fn lemma_connected_client(
    client_id: ClientId,
    room_code: String,
    display_name: String,
    max_events: usize,
    roster: &[ClientInfo],
    unverified: bool,
    r: AppState,
    i: int,
)
    requires
        call_ensures(
            connected,
            (client_id, room_code, display_name, max_events, roster, unverified),
            r,
        ),
        max_events >= 2,
    ensures
        r.client_id == client_id,
        r.room_code@ == room_code@,
        r.display_name@ == display_name@,
        r.max_events == max_events,
        !r.should_quit,
        r.input@.len() == 0,
        r@.peers.len() == roster@.len(),
        0 <= i < roster@.len() ==> {
            &&& r@.peers[i].client_id == roster@[i].client_id
            &&& r@.peers[i].display_name == roster@[i].display_name@
            &&& r@.peers[i].self_muted == roster@[i].muted
            &&& r@.peers[i].server_muted == roster@[i].server_muted
            &&& r@.peers[i].is_host == roster@[i].is_host
        },
        r@.events.len() == (if unverified {
            2int
        } else {
            1
        }),
        r@.events[0] == (
            "connected to server"@,
            Style { foreground: Some(Color::Green), bold: false },
        ),
        unverified ==> r@.events[1] == (
            "WARNING: TLS verification disabled -- connection is NOT secure"@,
            Style { foreground: Some(Color::Red), bold: true },
        ),
{
}

/// The test tone is sent where it was asked for and where the devices did not come
/// up; the log says which, or names the devices.
pub proof fn lemma_audio_start(state: &mut AppState, start: AudioStart, tone: bool)
    requires
        call_ensures(start_audio, (state, start), tone),
        old(state)@.events.len() + 2 <= old(state)@.max_events,
    ensures
        tone <==> !(start is Devices),
        final(state)@.peers == old(state)@.peers,
        final(state)@.should_quit == old(state)@.should_quit,
        ({
            let was = old(state)@.events;
            let now = final(state)@.events;
            let n = was.len() as int;
            &&& now.len() == n + (if start is Devices {
                2int
            } else {
                1
            })
            &&& now.take(n) == was
            &&& match start {
                AudioStart::TestTone => now[n].0 == "test-tone mode (440 Hz sine)"@,
                AudioStart::Failed { reason } => now[n].0 == "audio init failed, using test tone: "@
                    + reason@,
                AudioStart::Devices { info } => {
                    &&& now[n].0 == "input:  "@ + (info.input_name@ + " ("@ + decimal(
                        info.input_rate as nat,
                    ) + " Hz, "@ + decimal(info.input_channels as nat) + " ch)"@)
                    &&& now[n + 1].0 == "output: "@ + (info.output_name@ + " ("@ + decimal(
                        info.output_rate as nat,
                    ) + " Hz, "@ + decimal(info.output_channels as nat) + " ch)"@)
                },
            }
        }),
{
    let was = old(state)@.events;
    assert(final(state)@.events.take(was.len() as int) =~= was);
}

/// The cursor stands behind the prompt and the typed text, on the line within the
/// frame.
pub proof fn lemma_cursor_follows_the_text(state: &AppState, x: u16, y: u16, column: u16, row: u16)
    requires
        call_ensures(cursor_column, (state, x), column),
        call_ensures(cursor_row, (y,), row),
        forall|i: int| 0 <= i < state@.input.len() ==> '\0' <= #[trigger] state@.input[i] <= '\u{7f}',
        x + 3 + state@.input.len() <= u16::MAX,
        y < u16::MAX,
    ensures
        column == x + 1 + "> "@.len() + state@.input.len(),
        row == y + 1,
{
    reveal_strlit("> ");
    assert(vstd::utf8::is_ascii_chars(state@.input));
    vstd::utf8::is_ascii_chars_encode_utf8(state@.input);
}

} // verus!
