//! The command line: what its arguments ask for.
use crate::discovery::Found;
use crate::protocol::WireFormat;
use crate::sender::{Endpoint, SendOpts};
use crate::text::{decimal, decimal_of, str_eq};
use vstd::prelude::*;

verus! {

/// The fewest frames that a packet may have.
pub const MIN_FRAMES_PER_PACKET: usize = 64;

/// The most frames that a packet may have.
pub const MAX_FRAMES_PER_PACKET: usize = 480;

/// The loudest volume, in percent.
pub const MAX_VOLUME: u16 = 150;

/// The sample format, as it is named on the command line.
#[derive(Debug, Clone, Copy, PartialEq, Eq, Structural)]
pub enum FormatArg {
    S16,
    F32,
}

impl FormatArg {
    pub fn wire_format(self) -> (format: WireFormat)
        ensures
            format == (match self {
                FormatArg::S16 => WireFormat::S16le,
                FormatArg::F32 => WireFormat::F32le,
            }),
    {
        match self {
            FormatArg::S16 => WireFormat::S16le,
            FormatArg::F32 => WireFormat::F32le,
        }
    }
}

/// What the command to send asks for.
#[derive(Debug, Clone, Copy, PartialEq, Eq, Structural)]
pub enum SendPlan {
    /// Record the sound to a file, and send nothing.
    Dump,
    /// Send to the receiver that was named.
    Resolve,
    /// Send to a receiver that is found in the network.
    Discover,
}

/// What the command to send asks for: to record takes precedence over where to send to.
pub fn send_plan(has_dump: bool, has_target: bool) -> (plan: SendPlan)
    ensures
        plan == (if has_dump {
            SendPlan::Dump
        } else if has_target {
            SendPlan::Resolve
        } else {
            SendPlan::Discover
        }),
{
    if has_dump {
        SendPlan::Dump
    } else if has_target {
        SendPlan::Resolve
    } else {
        SendPlan::Discover
    }
}

/// Of the receivers that were found, the one to send to: the first.
pub fn pick_receiver(found: &Vec<Found>) -> (target: Option<Endpoint>)
    ensures
        target == (if found@.len() > 0 {
            Some(Endpoint { ip: found@[0].ip, port: found@[0].port })
        } else {
            None
        }),
{
    if found.len() > 0 {
        Some(Endpoint { ip: found[0].ip, port: found[0].port })
    } else {
        None
    }
}

/// What is said of a packet size that is refused.
pub open spec fn frames_refusal() -> Seq<char> {
    "--frames-per-packet должен быть в диапазоне "@ + decimal(MIN_FRAMES_PER_PACKET as nat)
        + "..="@ + decimal(MAX_FRAMES_PER_PACKET as nat)
}

/// The options of a sender. They are refused, and it is said why, if a packet would have too few
/// frames or too many.
pub fn send_opts(
    target: Endpoint,
    frames_per_packet: usize,
    format: FormatArg,
    device: Option<String>,
) -> (opts: Result<SendOpts, String>)
    ensures
        opts is Ok <==> MIN_FRAMES_PER_PACKET <= frames_per_packet <= MAX_FRAMES_PER_PACKET,
        opts matches Err(refusal) ==> {
            &&& refusal@ == frames_refusal()
            &&& refusal@ == "--frames-per-packet должен быть в диапазоне 64..=480"@
        },
        opts matches Ok(opts) ==> {
            &&& opts.target == target
            &&& opts.frames_per_packet == frames_per_packet
            &&& opts.wire_format == (match format {
                FormatArg::S16 => WireFormat::S16le,
                FormatArg::F32 => WireFormat::F32le,
            })
            &&& opts.device == device
        },
{
    if frames_per_packet < MIN_FRAMES_PER_PACKET || frames_per_packet > MAX_FRAMES_PER_PACKET {
        let mut refusal = "--frames-per-packet должен быть в диапазоне ".to_owned();
        refusal.append(decimal_of(MIN_FRAMES_PER_PACKET as u64).as_str());
        refusal.append("..=");
        refusal.append(decimal_of(MAX_FRAMES_PER_PACKET as u64).as_str());
        proof {
            lemma_frames_refusal();
        }
        return Err(refusal);
    }
    Ok(SendOpts { target, frames_per_packet, wire_format: format.wire_format(), device })
}

/// The volume to play at, in percent.
pub fn volume_percent(wanted: u16) -> (percent: u16)
    ensures
        percent == (if wanted <= MAX_VOLUME {
            wanted
        } else {
            MAX_VOLUME
        }),
{
    if wanted <= MAX_VOLUME {
        wanted
    } else {
        MAX_VOLUME
    }
}

/// A line of the list of devices: the name, a mark on the default one, and the sample rate, the
/// channels and the sample format where they are known.
pub open spec fn listing(
    name: Seq<char>,
    default_name: Seq<char>,
    config: Option<(u32, u16, Seq<char>)>,
) -> Seq<char> {
    let marked = if name == default_name {
        "  "@ + name + " [default]"@
    } else {
        "  "@ + name
    };
    match config {
        Some((sample_rate, channels, sample_format)) => marked + " — "@ + decimal(
            sample_rate as nat,
        ) + " Гц, "@ + decimal(channels as nat) + " кан, "@ + sample_format,
        None => marked,
    }
}

/// A line of the list of devices.
pub fn device_line(name: &str, default_name: &str, config: Option<(u32, u16, &str)>) -> (line:
    String)
    ensures
        line@ == listing(
            name@,
            default_name@,
            match config {
                Some((sample_rate, channels, sample_format)) => Some(
                    (sample_rate, channels, sample_format@),
                ),
                None => None,
            },
        ),
{
    let mut line = "  ".to_owned();
    line.append(name);
    if str_eq(name, default_name) {
        line.append(" [default]");
    }
    match config {
        Some((sample_rate, channels, sample_format)) => {
            line.append(" — ");
            line.append(decimal_of(sample_rate as u64).as_str());
            line.append(" Гц, ");
            line.append(decimal_of(channels as u64).as_str());
            line.append(" кан, ");
            line.append(sample_format);
        },
        None => {},
    }
    line
}

/// The text of a refused packet size, with the limits written out.
proof fn lemma_frames_refusal()
    ensures
        frames_refusal() == "--frames-per-packet должен быть в диапазоне 64..=480"@,
{
    reveal_strlit("--frames-per-packet должен быть в диапазоне ");
    reveal_strlit("..=");
    reveal_strlit("0123456789");
    reveal_strlit("--frames-per-packet должен быть в диапазоне 64..=480");
    reveal_with_fuel(decimal, 3);
    assert(decimal(64) =~= seq!['6', '4']);
    assert(decimal(480) =~= seq!['4', '8', '0']);
    assert(frames_refusal() =~= "--frames-per-packet должен быть в диапазоне 64..=480"@);
}

/// What a line of the list of devices says: the name, a mark if it is that of the default device,
/// and what is known of its configuration.
pub proof fn law_listed_devices(
    name: Seq<char>,
    default_name: Seq<char>,
    sample_rate: u32,
    channels: u16,
    sample_format: Seq<char>,
)
    ensures
        name == default_name ==> listing(name, default_name, None) == "  "@ + name
            + " [default]"@,
        name != default_name ==> listing(name, default_name, None) == "  "@ + name,
        listing(name, default_name, Some((sample_rate, channels, sample_format))) == listing(
            name,
            default_name,
            None,
        ) + " — "@ + decimal(sample_rate as nat) + " Гц, "@ + decimal(channels as nat) + " кан, "@
            + sample_format,
{
}

} // verus!
