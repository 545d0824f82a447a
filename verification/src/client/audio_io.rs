//! Audio devices and channel layout.

use vstd::prelude::*;
use vstd::string::*;

use crate::common::text::same_text;

verus! {

/// Default size of the capture and playback buffers, in frames.
pub const DEFAULT_RING_BUFFER_FRAMES: usize = 10;

/// The devices in use.
#[derive(Debug, Clone, PartialEq)]
pub struct DeviceInfo {
    pub input_name: String,
    pub input_rate: u32,
    pub input_channels: usize,
    pub output_name: String,
    pub output_rate: u32,
    pub output_channels: usize,
}

/// Which way a device carries sound.
#[derive(Debug, Clone, Copy, PartialEq, Eq, Structural)]
pub enum Direction {
    Input,
    Output,
}

/// The device to open.
#[derive(Debug, Clone, Copy, PartialEq, Eq, Structural)]
pub enum DeviceChoice {
    /// The device at this place in the list.
    Listed { index: usize },
    SystemDefault,
}

/// Whether the device at `i` has a name; one whose name is unknown never has.
pub open spec fn has_name(names: Seq<Option<String>>, i: int, name: Seq<char>) -> bool {
    0 <= i < names.len() && names[i] is Some && names[i]->Some_0@ == name
}

/// No device has a name.
pub open spec fn nobody_has(names: Seq<Option<String>>, name: Seq<char>) -> bool {
    forall|i: int| !#[trigger] has_name(names, i, name)
}

/// Chooses a device: the first with the wanted name, or the system default
/// where none is wanted.
pub fn choose_device(
    direction: Direction,
    wanted: Option<&str>,
    names: &Vec<Option<String>>,
    has_default: bool,
) -> (r: Result<DeviceChoice, String>)
    ensures
        match (wanted, r) {
            (Some(name), Ok(DeviceChoice::Listed { index })) => has_name(
                names@,
                index as int,
                name@,
            ) && forall|i: int| 0 <= i < index ==> !#[trigger] has_name(names@, i, name@),
            (Some(name), Err(text)) => {
                &&& nobody_has(names@, name@)
                &&& text@ == (match direction {
                    Direction::Input => "input device not found: "@,
                    Direction::Output => "output device not found: "@,
                }) + name@
            },
            (None, Ok(DeviceChoice::SystemDefault)) => has_default,
            (None, Err(text)) => !has_default && text@ == (match direction {
                Direction::Input => "no default input audio device"@,
                Direction::Output => "no default output audio device"@,
            }),
            _ => false,
        },
{
    match wanted {
        Some(name) => {
            let mut i: usize = 0;
            while i < names.len()
                invariant
                    i <= names@.len(),
                    wanted == Some(name),
                    forall|j: int| 0 <= j < i ==> !#[trigger] has_name(names@, j, name@),
                decreases names@.len() - i,
            {
                let hit: bool = match &names[i] {
                    Some(text) => same_text(text.as_str(), name),
                    None => false,
                };
                if hit {
                    return Ok(DeviceChoice::Listed { index: i });
                }
                i = i + 1;
            }
            let text = match direction {
                Direction::Input => "input device not found: ",
                Direction::Output => "output device not found: ",
            };
            Err(text.to_owned().concat(name))
        },
        None => {
            if has_default {
                Ok(DeviceChoice::SystemDefault)
            } else {
                let text = match direction {
                    Direction::Input => "no default input audio device",
                    Direction::Output => "no default output audio device",
                };
                Err(text.to_owned())
            }
        },
    }
}

/// Duplicates each mono sample across all output channels. What the mono input
/// does not reach is filled with silence.
pub fn upmix_to_interleaved<T: Copy>(mono: &[T], channels: usize, out: &mut [T], silence: T)
    requires
        channels > 0,
    ensures
        final(out)@.len() == old(out)@.len(),
        forall|i: int|
            0 <= i < final(out)@.len() ==> #[trigger] final(out)@[i] == upmixed(
                mono@,
                channels as nat,
                old(out)@.len(),
                silence,
                i,
            ),
{
    let total: usize = out.len();
    let room: usize = total / channels;
    let frames: usize = if mono.len() < room {
        mono.len()
    } else {
        room
    };
    let mut i: usize = 0;
    proof {
        vstd::arithmetic::div_mod::lemma_fundamental_div_mod(total as int, channels as int);
        vstd::arithmetic::div_mod::lemma_mod_bound(total as int, channels as int);
    }
    while i < total
        invariant
            channels > 0,
            total == out@.len(),
            total == old(out)@.len(),
            room == total as int / channels as int,
            frames == (if mono@.len() < room {
                mono@.len() as int
            } else {
                room as int
            }),
            i <= total,
            forall|j: int|
                0 <= j < i ==> #[trigger] out@[j] == upmixed(
                    mono@,
                    channels as nat,
                    total as nat,
                    silence,
                    j,
                ),
        decreases total - i,
    {
        let frame: usize = i / channels;
        if frame < frames {
            out[i] = mono[frame];
        } else {
            out[i] = silence;
        }
        i = i + 1;
    }
}

/// Sample `i` of an interleaved buffer of `total` samples: frame `i / channels`
/// of the mono input where it reaches and the whole frame fits, else silence.
pub open spec fn upmixed<T>(
    mono: Seq<T>,
    channels: nat,
    total: nat,
    silence: T,
    i: int,
) -> T {
    let frame = i / channels as int;
    if frame < mono.len() && frame < total as int / channels as int {
        mono[frame]
    } else {
        silence
    }
}

/// All channels of a frame carry the same sample.
pub proof fn lemma_channels_agree<T>(
    mono: Seq<T>,
    channels: nat,
    total: nat,
    silence: T,
    frame: int,
    a: int,
    b: int,
)
    requires
        channels > 0,
        0 <= frame,
        0 <= a < channels,
        0 <= b < channels,
    ensures
        upmixed(mono, channels, total, silence, frame * channels + a) == upmixed(
            mono,
            channels,
            total,
            silence,
            frame * channels + b,
        ),
{
    vstd::arithmetic::div_mod::lemma_fundamental_div_mod_converse(
        frame * channels + a,
        channels as int,
        frame,
        a,
    );
    vstd::arithmetic::div_mod::lemma_fundamental_div_mod_converse(
        frame * channels + b,
        channels as int,
        frame,
        b,
    );
}

/// A device that is asked for by name is the first of that very name, and no other
/// will do; without a name it is the system's default, if there is one.
pub proof fn lemma_the_named_device_is_opened(
    direction: Direction,
    wanted: Option<&str>,
    names: &Vec<Option<String>>,
    has_default: bool,
    r: Result<DeviceChoice, String>,
    i: int,
)
    requires
        call_ensures(choose_device, (direction, wanted, names, has_default), r),
    ensures
        wanted is None ==> {
            &&& r is Ok <==> has_default
            &&& r is Ok ==> r->Ok_0 is SystemDefault
        },
        wanted is Some ==> {
            let name = wanted->Some_0@;
            let has = 0 <= i < names@.len() && names@[i] is Some && names@[i]->Some_0@ == name;
            &&& r is Ok ==> {
                &&& r->Ok_0 is Listed
                &&& r->Ok_0->index < names@.len()
                &&& names@[r->Ok_0->index as int] is Some
                &&& names@[r->Ok_0->index as int]->Some_0@ == name
                &&& has ==> r->Ok_0->index <= i
            }
            &&& r is Err ==> !has
        },
{
    match (wanted, r) {
        (Some(name), Ok(DeviceChoice::Listed { index })) => {
            assert(has_name(names@, index as int, name@));
            if has_name(names@, i, name@) && i < index {
                assert(!has_name(names@, i, name@));
            }
        },
        (Some(name), Err(_)) => {
            assert(nobody_has(names@, name@));
            assert(!has_name(names@, i, name@));
        },
        _ => {},
    }
}

/// Every channel of a frame gets the frame's mono sample, as far as the mono input
/// and whole frames reach; everything behind that is silence.
pub proof fn lemma_every_channel_gets_the_sample<T: Copy>(
    mono: &[T],
    channels: usize,
    out: &mut [T],
    silence: T,
    frame: int,
    channel: int,
)
    requires
        call_ensures(upmix_to_interleaved::<T>, (mono, channels, out, silence), ()),
        channels > 0,
        0 <= frame,
        0 <= channel < channels,
        frame * channels + channel < old(out)@.len(),
    ensures
        final(out)@.len() == old(out)@.len(),
        final(out)@[frame * channels + channel] == (if frame < mono@.len() && (frame + 1)
            * channels <= old(out)@.len() {
            mono@[frame]
        } else {
            silence
        }),
{
    let total = old(out)@.len() as int;
    let c = channels as int;
    let i = frame * c + channel;
    assert(0 <= i) by (nonlinear_arith)
        requires
            0 <= frame,
            0 < c,
            0 <= channel,
            i == frame * c + channel,
    ;
    vstd::arithmetic::div_mod::lemma_fundamental_div_mod_converse(i, c, frame, channel);
    vstd::arithmetic::div_mod::lemma_fundamental_div_mod(total, c);
    vstd::arithmetic::div_mod::lemma_mod_bound(total, c);
    let room = total / c;
    let rest = total % c;
    assert(frame < room <==> (frame + 1) * c <= total) by (nonlinear_arith)
        requires
            total == c * room + rest,
            0 <= rest < c,
            c > 0,
    ;
    assert(final(out)@[i] == upmixed(mono@, channels as nat, old(out)@.len(), silence, i));
}

} // verus!
