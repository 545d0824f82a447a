//! What the commands and keys do, said of the calls that take them in.

use vstd::prelude::*;

use crate::client::roster::{gained_line, goes_by, in_color, lemma_goes_by, same_client};
use crate::client::tui::{
    command_arg, command_word, help_lines, lemma_space_at, lemma_ways_out, message_view, space_at,
    AppState, AppView, Color, Key,
};
use crate::common::protocol::{ClientId, SignalMessage, SignalView};
use crate::common::text::{
    lemma_trimmed, lemma_trimmed_blank, lemma_trimmed_is, spec_is_space, trimmed,
};

verus! {

/// A word that can stand as a command: not empty, and without white space.
pub open spec fn is_word(word: Seq<char>) -> bool {
    &&& word.len() > 0
    &&& forall|i: int| 0 <= i < word.len() ==> !spec_is_space(#[trigger] word[i])
}

/// A line that gives a command and its argument.
pub open spec fn line_of(word: Seq<char>, arg: Seq<char>) -> Seq<char> {
    "/"@ + word + " "@ + arg
}

/// What a command leaves alone: who the client is, and the roster.
pub open spec fn same_place(x: AppView, y: AppView) -> bool {
    &&& x.client_id == y.client_id
    &&& x.room_code == y.room_code
    &&& x.display_name == y.display_name
    &&& x.max_events == y.max_events
    &&& x.peers == y.peers
    &&& x.is_host == y.is_host
    &&& x.server_muted == y.server_muted
    &&& y.input.len() == 0
}

proof fn lemma_split_before_space(line: Seq<char>, word: Seq<char>)
    requires
        forall|i: int| 0 <= i < word.len() ==> #[trigger] word[i] != ' ',
        word.len() <= line.len(),
        line.take(word.len() as int) == word,
        word.len() < line.len() ==> line[word.len() as int] == ' ',
    ensures
        space_at(line) == word.len(),
        command_word(line) == word,
{
    lemma_space_at(line);
    let n = word.len() as int;
    assert forall|i: int| 0 <= i < n implies line[i] != ' ' by {
        assert(line.take(n)[i] == line[i]);
        assert(word[i] != ' ');
    }
    if space_at(line) < n {
        assert(line[space_at(line) as int] == ' ');
    }
    if space_at(line) > n {
        assert(line[n] != ' ');
    }
}

proof fn lemma_split_at_first_space(line: Seq<char>, word: Seq<char>)
    requires
        is_word(word),
        word.len() <= line.len(),
        line.take(word.len() as int) == word,
        word.len() < line.len() ==> line[word.len() as int] == ' ',
    ensures
        space_at(line) == word.len(),
        command_word(line) == word,
{
    assert forall|i: int| 0 <= i < word.len() implies #[trigger] word[i] != ' ' by {
        assert(!spec_is_space(word[i]));
    }
    lemma_split_before_space(line, word);
}

/// A line is its command and its argument, with the white space around the
/// argument cut off.
proof fn lemma_line_is_read(s: AppView, word: Seq<char>, arg: Seq<char>)
    requires
        is_word(word),
        s.input == line_of(word, arg),
    ensures
        s.commanded() == (AppView { input: seq![], ..s }).ran(word, trimmed(arg)),
{
    reveal_strlit("/");
    reveal_strlit(" ");
    let input = s.input;
    let n = word.len() as int;
    assert(input[0] == '/');
    assert(input[n] == word[n - 1]);
    assert(input[n + 1] == ' ');
    assert forall|i: int| 0 <= i < arg.len() implies input[n + 2 + i] == arg[i] by {}
    lemma_trimmed(arg);
    let (x, y) = choose|x: int, y: int|
        0 <= x <= y <= arg.len() && trimmed(arg) == #[trigger] arg.subrange(x, y) && (forall|i: int|
            0 <= i < x || y <= i < arg.len() ==> spec_is_space(#[trigger] arg[i]));
    if x < y {
        let end = n + 2 + y;
        assert(trimmed(arg).last() == arg[y - 1]);
        assert(trimmed(arg)[0] == arg[x]);
        assert forall|i: int| end <= i < input.len() implies spec_is_space(#[trigger] input[i]) by {
            assert(input[i] == arg[i - n - 2]);
        }
        assert(input[end - 1] == arg[y - 1]);
        lemma_trimmed_is(input, 0, end);
        let text = input.subrange(0, end);
        let line = text.skip(1);
        assert(line.take(n) =~= word);
        assert(line[n] == ' ');
        lemma_split_at_first_space(line, word);
        let rest = line.skip(n + 1);
        assert(rest =~= arg.take(y));
        lemma_trimmed_is(rest, x, y);
        assert(rest.subrange(x, y) =~= arg.subrange(x, y));
        assert(text[0] == '/');
    } else {
        assert(trimmed(arg) =~= Seq::<char>::empty());
        assert forall|i: int| n + 1 <= i < input.len() implies spec_is_space(
            #[trigger] input[i],
        ) by {
            if i > n + 1 {
                assert(input[i] == arg[i - n - 2]);
                assert(spec_is_space(arg[i - n - 2]));
            }
        }
        assert(!spec_is_space(word[n - 1]));
        lemma_trimmed_is(input, 0, n + 1);
        lemma_bare_text(s, word);
    }
}

proof fn lemma_bare_text(s: AppView, word: Seq<char>)
    requires
        is_word(word),
        trimmed(s.input) == s.input.subrange(0, word.len() as int + 1),
        s.input.len() > word.len(),
        s.input[0] == '/',
        forall|i: int| 0 <= i < word.len() ==> s.input[i + 1] == #[trigger] word[i],
    ensures
        s.commanded() == (AppView { input: seq![], ..s }).ran(word, Seq::<char>::empty()),
{
    let n = word.len() as int;
    let text = trimmed(s.input);
    let line = text.skip(1);
    assert forall|i: int| 0 <= i < n implies line[i] == word[i] by {}
    assert(line =~= word);
    assert(line.take(n) =~= word);
    lemma_split_at_first_space(line, word);
    lemma_trimmed_blank(Seq::<char>::empty());
    assert(command_arg(line) =~= Seq::<char>::empty());
    assert(text[0] == '/');
}

/// A line may also be the command alone.
proof fn lemma_bare_line_is_read(s: AppView, word: Seq<char>)
    requires
        is_word(word),
        s.input == "/"@ + word,
    ensures
        s.commanded() == (AppView { input: seq![], ..s }).ran(word, Seq::<char>::empty()),
{
    reveal_strlit("/");
    let n = word.len() as int;
    assert(s.input[0] == '/');
    assert forall|i: int| 0 <= i < n implies s.input[i + 1] == #[trigger] word[i] by {}
    assert(s.input[n] == word[n - 1]);
    lemma_trimmed_is(s.input, 0, n + 1);
    lemma_bare_text(s, word);
}

/// The command words are words.
proof fn lemma_words()
    ensures
        is_word("mute"@),
        is_word("kick"@),
        is_word("forcemute"@),
        is_word("forceunmute"@),
        is_word("block"@),
        is_word("unblock"@),
        is_word("leave"@),
        is_word("quit"@),
        is_word("q"@),
        is_word("help"@),
        is_word("?"@),
{
    reveal_strlit("mute");
    reveal_strlit("kick");
    reveal_strlit("forcemute");
    reveal_strlit("forceunmute");
    reveal_strlit("block");
    reveal_strlit("unblock");
    reveal_strlit("leave");
    reveal_strlit("quit");
    reveal_strlit("q");
    reveal_strlit("help");
    reveal_strlit("?");
}

/// Naming a peer to kick, silence or unsilence: the host's line sends that very
/// message about the peer that the lookup finds, and changes nothing but the input
/// line; where the lookup fails nothing is sent, and the log says why. From anyone
/// but the host nothing is sent.
pub proof fn lemma_moderation_commands(
    state: &mut AppState,
    looked: &AppState,
    name: &str,
    peer: Result<ClientId, &'static str>,
    sent: Option<SignalMessage>,
    word: Seq<char>,
    arg: Seq<char>,
)
    requires
        call_ensures(AppState::process_command, (state,), sent),
        call_ensures(AppState::find_peer, (looked, name), peer),
        looked@.peers == old(state)@.peers,
        name@ == trimmed(arg),
        name@.len() > 0,
        word == "kick"@ || word == "forcemute"@ || word == "forceunmute"@,
        old(state)@.input == line_of(word, arg),
    ensures
        same_place(old(state)@, final(state)@),
        final(state)@.self_muted == old(state)@.self_muted,
        final(state)@.should_quit == old(state)@.should_quit,
        !old(state)@.is_host ==> {
            &&& sent is None
            &&& gained_line(
                old(state)@,
                final(state)@,
                if word == "kick"@ {
                    "only the host can kick"@
                } else if word == "forcemute"@ {
                    "only the host can force-mute"@
                } else {
                    "only the host can force-unmute"@
                },
                in_color(Color::Red, false),
            )
        },
        old(state)@.is_host && peer is Ok ==> {
            &&& final(state)@.events == old(state)@.events
            &&& sent is Some
            &&& sent->Some_0@ == (if word == "kick"@ {
                SignalView::Kick { target: peer->Ok_0 }
            } else {
                SignalView::ServerMute { target: peer->Ok_0, muted: word == "forcemute"@ }
            })
        },
        old(state)@.is_host && peer is Err ==> {
            &&& sent is None
            &&& gained_line(
                old(state)@,
                final(state)@,
                peer->Err_0@ + ": "@ + name@,
                in_color(Color::Red, false),
            )
        },
{
    lemma_words();
    lemma_distinct_words();
    lemma_line_is_read(old(state)@, word, arg);
    assert(message_view(sent) == (AppView { input: seq![], ..old(state)@ }).ran(word, name@).1);
}

proof fn lemma_distinct_words()
    ensures
        "kick"@ != "mute"@,
        "forcemute"@ != "mute"@ && "forcemute"@ != "kick"@,
        "forceunmute"@ != "mute"@ && "forceunmute"@ != "kick"@ && "forceunmute"@ != "forcemute"@,
        "block"@ != "mute"@ && "block"@ != "kick"@ && "block"@ != "forcemute"@ && "block"@
            != "forceunmute"@,
        "unblock"@ != "mute"@ && "unblock"@ != "kick"@ && "unblock"@ != "forcemute"@ && "unblock"@
            != "forceunmute"@ && "unblock"@ != "block"@,
{
    reveal_strlit("mute");
    reveal_strlit("kick");
    reveal_strlit("forcemute");
    reveal_strlit("forceunmute");
    reveal_strlit("block");
    reveal_strlit("unblock");
    assert("mute"@[0] == 'm' && "kick"@[0] == 'k' && "block"@[0] == 'b' && "unblock"@[0] == 'u');
    assert("forcemute"@[0] == 'f' && "forceunmute"@[0] == 'f');
    assert("forcemute"@.len() != "forceunmute"@.len());
}

/// Blocking and unblocking: anyone's line sends that very message about the peer
/// that the lookup finds, and the log names the peer; where the lookup fails
/// nothing is sent, and the log says why.
pub proof fn lemma_block_commands(
    state: &mut AppState,
    looked: &AppState,
    name: &str,
    peer: Result<ClientId, &'static str>,
    sent: Option<SignalMessage>,
    word: Seq<char>,
    arg: Seq<char>,
    shown: Seq<char>,
)
    requires
        call_ensures(AppState::process_command, (state,), sent),
        call_ensures(AppState::find_peer, (looked, name), peer),
        looked@.peers == old(state)@.peers,
        name@ == trimmed(arg),
        name@.len() > 0,
        word == "block"@ || word == "unblock"@,
        old(state)@.input == line_of(word, arg),
        peer is Ok ==> goes_by(old(state)@.peers, peer->Ok_0, shown),
    ensures
        same_place(old(state)@, final(state)@),
        final(state)@.self_muted == old(state)@.self_muted,
        final(state)@.should_quit == old(state)@.should_quit,
        peer is Ok ==> {
            &&& sent is Some
            &&& sent->Some_0@ == (if word == "block"@ {
                SignalView::BlockPeer { target: peer->Ok_0 }
            } else {
                SignalView::UnblockPeer { target: peer->Ok_0 }
            })
            &&& gained_line(
                old(state)@,
                final(state)@,
                (if word == "block"@ {
                    "blocked "@
                } else {
                    "unblocked "@
                }) + shown,
                in_color(Color::Yellow, false),
            )
        },
        peer is Err ==> {
            &&& sent is None
            &&& gained_line(
                old(state)@,
                final(state)@,
                peer->Err_0@ + ": "@ + name@,
                in_color(Color::Red, false),
            )
        },
{
    lemma_words();
    lemma_distinct_words();
    lemma_line_is_read(old(state)@, word, arg);
    assert(message_view(sent) == (AppView { input: seq![], ..old(state)@ }).ran(word, name@).1);
    if peer is Ok {
        lemma_goes_by(old(state)@.peers, peer->Ok_0, shown);
    }
}

/// A peer command without a peer sends nothing; the log tells how to use it.
pub proof fn lemma_commands_without_a_peer(
    state: &mut AppState,
    sent: Option<SignalMessage>,
    word: Seq<char>,
    arg: Seq<char>,
)
    requires
        call_ensures(AppState::process_command, (state,), sent),
        word == "kick"@ || word == "forcemute"@ || word == "forceunmute"@ || word == "block"@
            || word == "unblock"@,
        old(state)@.input == "/"@ + word || (old(state)@.input == line_of(word, arg) && trimmed(
            arg,
        ).len() == 0),
    ensures
        sent is None,
        same_place(old(state)@, final(state)@),
        final(state)@.self_muted == old(state)@.self_muted,
        final(state)@.should_quit == old(state)@.should_quit,
        gained_line(
            old(state)@,
            final(state)@,
            if word == "kick"@ {
                "usage: /kick <peer>"@
            } else if word == "forcemute"@ {
                "usage: /forcemute <peer>"@
            } else if word == "forceunmute"@ {
                "usage: /forceunmute <peer>"@
            } else if word == "block"@ {
                "usage: /block <peer>"@
            } else {
                "usage: /unblock <peer>"@
            },
            in_color(Color::DarkGray, false),
        ),
{
    lemma_words();
    lemma_distinct_words();
    let s = old(state)@;
    if s.input == "/"@ + word {
        lemma_bare_line_is_read(s, word);
    } else {
        lemma_line_is_read(s, word, arg);
        assert(trimmed(arg) =~= Seq::<char>::empty());
    }
    assert(message_view(sent) == (AppView { input: seq![], ..s }).ran(
        word,
        Seq::<char>::empty(),
    ).1);
}

/// The mute command toggles the client's own mute, tells the server the new
/// value, and says so; whoever unmutes while the host silences it is told that too.
pub proof fn lemma_mute_command(state: &mut AppState, sent: Option<SignalMessage>, arg: Seq<char>)
    requires
        call_ensures(AppState::process_command, (state,), sent),
        old(state)@.input == "/mute"@ || old(state)@.input == line_of("mute"@, arg),
    ensures
        same_place(old(state)@, final(state)@),
        final(state)@.self_muted == !old(state)@.self_muted,
        final(state)@.should_quit == old(state)@.should_quit,
        sent is Some,
        sent->Some_0@ == (SignalView::Mute { muted: final(state)@.self_muted }),
        ({
            let said = if final(state)@.self_muted {
                "you "@ + "muted"@ + " yourself"@
            } else {
                "you "@ + "unmuted"@ + " yourself"@
            };
            if old(state)@.self_muted && old(state)@.server_muted {
                exists|between: AppView|
                    #![trigger same_client(between, between)]
                    between.max_events == old(state)@.max_events && gained_line(
                        old(state)@,
                        between,
                        said,
                        in_color(Color::Yellow, false),
                    ) && gained_line(
                        between,
                        final(state)@,
                        "note: still silenced by host"@,
                        in_color(Color::DarkGray, false),
                    )
            } else {
                gained_line(old(state)@, final(state)@, said, in_color(Color::Yellow, false))
            }
        }),
{
    lemma_words();
    let s = old(state)@;
    if s.input == "/mute"@ {
        reveal_strlit("/mute");
        reveal_strlit("/");
        reveal_strlit("mute");
        assert("/mute"@ =~= "/"@ + "mute"@);
        lemma_bare_line_is_read(s, "mute"@);
    } else {
        lemma_line_is_read(s, "mute"@, arg);
    }
    let muted = !s.self_muted;
    let said = "you "@ + (if muted {
        "muted"@
    } else {
        "unmuted"@
    }) + " yourself"@;
    let between = AppView { self_muted: muted, input: seq![], ..s }.logged(
        said,
        in_color(Color::Yellow, false),
    );
    assert(same_client(between, between));
    assert(message_view(sent) == Some(SignalView::Mute { muted }));
}

/// Each of the ways out quits and tells the server, and logs nothing.
pub proof fn lemma_leave_commands(
    state: &mut AppState,
    sent: Option<SignalMessage>,
    word: Seq<char>,
    arg: Seq<char>,
)
    requires
        call_ensures(AppState::process_command, (state,), sent),
        word == "leave"@ || word == "quit"@ || word == "q"@,
        old(state)@.input == "/"@ + word || old(state)@.input == line_of(word, arg),
    ensures
        final(state)@.should_quit,
        sent is Some,
        sent->Some_0@ == SignalView::Leave,
        same_place(old(state)@, final(state)@),
        final(state)@.self_muted == old(state)@.self_muted,
        final(state)@.events == old(state)@.events,
{
    lemma_words();
    let s = old(state)@;
    if s.input == "/"@ + word {
        lemma_bare_line_is_read(s, word);
        lemma_ways_out(AppView { input: seq![], ..s }, Seq::<char>::empty());
    } else {
        lemma_line_is_read(s, word, arg);
        lemma_ways_out(AppView { input: seq![], ..s }, trimmed(arg));
    }
    assert(message_view(sent) == Some(SignalView::Leave));
}

/// A command that nobody knows, a line that is no command and an empty line send
/// nothing; the log repeats the first two.
pub proof fn lemma_other_lines(
    state: &mut AppState,
    sent: Option<SignalMessage>,
    word: Seq<char>,
    arg: Seq<char>,
)
    requires
        call_ensures(AppState::process_command, (state,), sent),
    ensures
        ({
            let before = old(state)@;
            let after = final(state)@;
            let text = trimmed(before.input);
            let quiet = same_place(before, after) && after.self_muted == before.self_muted
                && after.should_quit == before.should_quit && sent is None;
            &&& text.len() == 0 ==> quiet && after.events == before.events
            &&& text.len() > 0 && text[0] != '/' ==> quiet && gained_line(
                before,
                after,
                "unknown input (commands start with /): "@ + text,
                in_color(Color::DarkGray, false),
            )
            &&& is_word(word) && !(word == "mute"@ || word == "kick"@ || word == "forcemute"@ || word
                == "forceunmute"@ || word == "block"@ || word == "unblock"@ || word == "leave"@
                || word == "quit"@ || word == "q"@ || word == "help"@ || word == "?"@) && (
            before.input == "/"@ + word || before.input == line_of(word, arg)) ==> quiet
                && gained_line(
                before,
                after,
                "unknown command: /"@ + word + " -- type /help"@,
                in_color(Color::Red, false),
            )
        }),
{
    let s = old(state)@;
    if is_word(word) && s.input == "/"@ + word {
        lemma_bare_line_is_read(s, word);
    } else if is_word(word) && s.input == line_of(word, arg) {
        lemma_line_is_read(s, word, arg);
    }
    assert(message_view(sent) == s.commanded().1);
}

/// A line whose first word, up to the first space, is no command: the log repeats
/// that word, be it empty.
pub proof fn lemma_unknown_commands(
    state: &mut AppState,
    sent: Option<SignalMessage>,
    word: Seq<char>,
)
    requires
        call_ensures(AppState::process_command, (state,), sent),
        forall|i: int| 0 <= i < word.len() ==> #[trigger] word[i] != ' ',
        ({
            let text = trimmed(old(state)@.input);
            &&& text.len() > word.len()
            &&& text[0] == '/'
            &&& text.subrange(1, word.len() + 1int) == word
            &&& text.len() > 1 + word.len() ==> text[word.len() + 1int] == ' '
        }),
        !(word == "mute"@ || word == "kick"@ || word == "forcemute"@ || word == "forceunmute"@
            || word == "block"@ || word == "unblock"@ || word == "leave"@ || word == "quit"@ || word
            == "q"@ || word == "help"@ || word == "?"@),
    ensures
        sent is None,
        same_place(old(state)@, final(state)@),
        final(state)@.self_muted == old(state)@.self_muted,
        final(state)@.should_quit == old(state)@.should_quit,
        gained_line(
            old(state)@,
            final(state)@,
            "unknown command: /"@ + word + " -- type /help"@,
            in_color(Color::Red, false),
        ),
{
    let s = old(state)@;
    let line = trimmed(s.input).skip(1);
    assert(line.take(word.len() as int) =~= word);
    lemma_split_before_space(line, word);
    assert(message_view(sent) == s.commanded().1);
}

/// White space around a line plays no part.
pub proof fn lemma_space_around_a_line(
    state: &mut AppState,
    other: &mut AppState,
    sent: Option<SignalMessage>,
    also: Option<SignalMessage>,
)
    requires
        call_ensures(AppState::process_command, (state,), sent),
        call_ensures(AppState::process_command, (other,), also),
        old(other)@ == (AppView { input: old(other)@.input, ..old(state)@ }),
        trimmed(old(other)@.input) == trimmed(old(state)@.input),
    ensures
        final(other)@ == final(state)@,
        sent is Some <==> also is Some,
        sent is Some ==> sent->Some_0@ == also->Some_0@,
{
    assert(message_view(sent) == old(state)@.commanded().1);
    assert(message_view(also) == old(other)@.commanded().1);
}

proof fn lemma_logged_lines(s: AppView, lines: Seq<Seq<char>>, i: int)
    requires
        s.events.len() + lines.len() <= s.max_events,
    ensures
        ({
            let style = in_color(Color::White, false);
            let after = s.logged_all(lines, style);
            &&& same_client(s, after)
            &&& after.peers == s.peers
            &&& after.is_host == s.is_host
            &&& after.self_muted == s.self_muted
            &&& after.server_muted == s.server_muted
            &&& after.should_quit == s.should_quit
            &&& after.events.len() == s.events.len() + lines.len()
            &&& after.events.take(s.events.len() as int) == s.events
            &&& 0 <= i < lines.len() ==> after.events[s.events.len() + i] == (lines[i], style)
        }),
    decreases lines.len(),
{
    let style = in_color(Color::White, false);
    if lines.len() == 0 {
        assert(s.events.take(s.events.len() as int) =~= s.events);
    } else {
        lemma_logged_lines(s, lines.drop_last(), i);
        let mid = s.logged_all(lines.drop_last(), style);
        let after = s.logged_all(lines, style);
        assert(after.events == mid.events.push((lines.last(), style)));
        assert(after.events.take(s.events.len() as int) =~= mid.events.take(s.events.len() as int));
    }
}

/// Asking for help sends nothing and shows every command, one per line.
pub proof fn lemma_help_commands(
    state: &mut AppState,
    sent: Option<SignalMessage>,
    word: Seq<char>,
    arg: Seq<char>,
    i: int,
)
    requires
        call_ensures(AppState::process_command, (state,), sent),
        word == "help"@ || word == "?"@,
        old(state)@.input == "/"@ + word || old(state)@.input == line_of(word, arg),
        old(state)@.events.len() + 10 <= old(state)@.max_events,
    ensures
        sent is None,
        same_place(old(state)@, final(state)@),
        final(state)@.self_muted == old(state)@.self_muted,
        final(state)@.should_quit == old(state)@.should_quit,
        final(state)@.events.len() == old(state)@.events.len() + 10,
        final(state)@.events.take(old(state)@.events.len() as int) == old(state)@.events,
        0 <= i < 10 ==> final(state)@.events[old(state)@.events.len() + i] == (
            seq![
                "/mute              toggle self-mute"@,
                "/kick <peer>       remove peer from room (host)"@,
                "/forcemute <peer>  server-side mute (host)"@,
                "/forceunmute <peer> undo server-mute (host)"@,
                "/block <peer>      block peer from your mix"@,
                "/unblock <peer>    unblock peer"@,
                "/leave             disconnect and exit"@,
                "/help              show this message"@,
                ""@,
                "<peer> is a display name or client ID number"@,
            ][i],
            in_color(Color::White, false),
        ),
{
    lemma_words();
    lemma_help_words();
    let s = old(state)@;
    if s.input == "/"@ + word {
        lemma_bare_line_is_read(s, word);
    } else {
        lemma_line_is_read(s, word, arg);
    }
    assert(help_lines().len() == 10);
    lemma_logged_lines(AppView { input: seq![], ..s }, help_lines(), i);
    assert(message_view(sent) == s.commanded().1);
}

proof fn lemma_help_words()
    ensures
        forall|word: Seq<char>|
            #![trigger is_word(word)]
            word == "help"@ || word == "?"@ ==> word != "mute"@ && word != "kick"@ && word
                != "forcemute"@ && word != "forceunmute"@ && word != "block"@ && word != "unblock"@
                && word != "leave"@ && word != "quit"@ && word != "q"@,
{
    reveal_strlit("mute");
    reveal_strlit("kick");
    reveal_strlit("forcemute");
    reveal_strlit("forceunmute");
    reveal_strlit("block");
    reveal_strlit("unblock");
    reveal_strlit("leave");
    reveal_strlit("quit");
    reveal_strlit("q");
    reveal_strlit("help");
    reveal_strlit("?");
    assert("help"@[0] == 'h' && "?"@[0] == '?');
    assert("mute"@[0] == 'm' && "kick"@[0] == 'k' && "block"@[0] == 'b' && "leave"@[0] == 'l');
    assert("forcemute"@[0] == 'f' && "forceunmute"@[0] == 'f' && "unblock"@[0] == 'u');
    assert("quit"@[0] == 'q' && "q"@[0] == 'q');
}

/// Keys: a character is typed at the end of the line, backspace takes the last one
/// back, Escape and Control-C leave, Enter runs the line, and the rest do nothing.
pub proof fn lemma_keys(
    state: &mut AppState,
    other: &mut AppState,
    key: Key,
    sent: Option<SignalMessage>,
    run: Option<SignalMessage>,
)
    requires
        call_ensures(AppState::handle_key, (state, key), sent),
        call_ensures(AppState::process_command, (other,), run),
        old(other)@ == old(state)@,
    ensures
        ({
            let before = old(state)@;
            let after = final(state)@;
            let leaves = key is Esc || key == (Key::Char { c: 'c', control: true });
            &&& key is Enter ==> after == final(other)@ && message_view(sent) == message_view(run)
            &&& leaves ==> {
                &&& sent is Some
                &&& sent->Some_0@ == SignalView::Leave
                &&& after.should_quit
                &&& same_client(before, after)
                &&& after.events == before.events
                &&& after.peers == before.peers
            }
            &&& !(key is Enter) && !leaves ==> {
                &&& sent is None
                &&& after.client_id == before.client_id
                &&& after.room_code == before.room_code
                &&& after.display_name == before.display_name
                &&& after.is_host == before.is_host
                &&& after.self_muted == before.self_muted
                &&& after.server_muted == before.server_muted
                &&& after.peers == before.peers
                &&& after.events == before.events
                &&& after.should_quit == before.should_quit
                &&& after.max_events == before.max_events
                &&& match key {
                    Key::Char { c, control } => after.input == before.input.push(c),
                    Key::Backspace => if before.input.len() > 0 {
                        before.input == after.input.push(before.input.last())
                    } else {
                        after.input.len() == 0
                    },
                    _ => after.input == before.input,
                }
            }
        }),
{
    let before = old(state)@;
    if key is Backspace && before.input.len() > 0 {
        assert(before.input =~= before.input.drop_last().push(before.input.last()));
    }
    assert(message_view(sent) == before.keyed(key).1);
}

} // verus!
