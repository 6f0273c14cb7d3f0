//! The window: its state, and what a click, a search or the end of a worker makes of it.
//!
//! Drawing it, the threads and the files are the caller's.
use crate::discovery::{address_text, ip_text, Found, IpAddress};
use crate::protocol::{WireFormat, DEFAULT_PORT};
use crate::receiver::RecvOpts;
use crate::stats::{RateMeter, ReceiverStats, SenderStats};
use crate::text::{law_trim_leaves_what_is_between, law_trim_of_a_blank_text};
use crate::text::{chars_of, decimal, decimal_of, trim, trim_range, trim_start, white_space};
use vstd::prelude::*;

verus! {

/// How many frames the window puts into a packet.
pub const FRAMES_PER_PACKET: usize = 128;

/// How much sound gathers before any is played, in milliseconds, unless it is set otherwise.
pub const DEFAULT_BUFFER_MS: u32 = 20;

/// The smallest buffer that can be set, in milliseconds.
pub const MIN_BUFFER_MS: u32 = 5;

/// The largest buffer that can be set, in milliseconds.
pub const MAX_BUFFER_MS: u32 = 100;

/// The lowest port that can be set.
pub const MIN_PORT: u16 = 1024;

/// The bits of the 32-bit float 1, the volume that leaves the sound as it is.
pub const UNITY_VOLUME: u32 = 0x3F80_0000;

/// What the program does.
#[derive(Debug, Clone, Copy, PartialEq, Eq, Structural)]
pub enum Mode {
    Send,
    Recv,
}

/// What is set in the window, and kept from one start of the program to the next.
#[derive(Debug)]
pub struct Settings {
    pub mode: Mode,
    pub target_ip: String,
    pub port: u16,
    pub buffer_ms: u32,
    /// The name of the device; empty for the system's default.
    pub device: String,
}

impl Settings {
    /// The settings of the first start: a Windows machine mostly sends, any other receives.
    pub fn new(on_windows: bool) -> (settings: Settings)
        ensures
            settings.mode == if on_windows {
                Mode::Send
            } else {
                Mode::Recv
            },
            settings.target_ip@ == Seq::<char>::empty(),
            settings.port == DEFAULT_PORT,
            settings.buffer_ms == DEFAULT_BUFFER_MS,
            settings.device@ == Seq::<char>::empty(),
    {
        Settings {
            mode: if on_windows {
                Mode::Send
            } else {
                Mode::Recv
            },
            target_ip: String::new(),
            port: DEFAULT_PORT,
            buffer_ms: DEFAULT_BUFFER_MS,
            device: String::new(),
        }
    }

    /// The address to send to, as text.
    pub open spec fn target(&self) -> Seq<char> {
        trim(self.target_ip@) + ":"@ + decimal(self.port as nat)
    }

    /// Whether a stream can be started: sending takes Windows and the address of a receiver.
    pub open spec fn may_start(&self, on_windows: bool) -> bool {
        match self.mode {
            Mode::Send => on_windows && trim(self.target_ip@).len() > 0,
            Mode::Recv => true,
        }
    }

    pub fn can_start(&self, on_windows: bool) -> (yes: bool)
        ensures
            yes == self.may_start(on_windows),
    {
        match self.mode {
            Mode::Send => {
                let (start, end) = trim_range(&chars_of(self.target_ip.as_str()));
                on_windows && start < end
            },
            Mode::Recv => true,
        }
    }

    /// The device as it is shown: by its name, or as the system's default.
    pub fn device_label(&self) -> (label: String)
        ensures
            label@ == (if self.device@.len() == 0 {
                "По умолчанию (системное)"@
            } else {
                self.device@
            }),
    {
        if self.device.as_str().unicode_len() == 0 {
            "По умолчанию (системное)".to_owned()
        } else {
            self.device.clone()
        }
    }

    /// The device that was chosen, if it is not the default one.
    fn chosen_device(&self) -> (device: Option<String>)
        ensures
            chooses(device, *self),
    {
        if self.device.as_str().unicode_len() == 0 {
            None
        } else {
            Some(self.device.clone())
        }
    }
}

/// Whether a device is the one that is set.
pub open spec fn chooses(device: Option<String>, settings: Settings) -> bool {
    match device {
        Some(name) => name@.len() > 0 && name@ == settings.device@,
        None => settings.device@.len() == 0,
    }
}

/// What the search for receivers has come to.
#[derive(Debug)]
pub enum Discovery {
    Idle,
    Searching,
    Done { found: Vec<Found> },
    Failed { message: String },
}

/// What there is to show of the search.
#[derive(Debug, PartialEq, Eq)]
pub enum DiscoveryLine {
    Nothing,
    Searching,
    NotFound,
    /// One receiver was found: it is taken over at once.
    Single { line: String },
    /// Several were found: one is to be chosen.
    Several,
    Failed { line: String },
}

/// Whether a line is what there is to show of a search; it concerns only those who send.
pub open spec fn shows(
    line: DiscoveryLine,
    mode: Mode,
    discovery: Discovery,
    v6_text: Seq<char>,
) -> bool {
    match discovery {
        Discovery::Searching if mode is Send => line is Searching,
        Discovery::Done { found } if mode is Send => if found@.len() == 0 {
            line is NotFound
        } else if found@.len() == 1 {
            line matches DiscoveryLine::Single { line: text } && text@ == "Найден: "@
                + found@[0].name@ + " ("@ + address_text(found@[0].ip, v6_text) + ")"@
        } else {
            line is Several
        },
        Discovery::Failed { message } if mode is Send => {
            line matches DiscoveryLine::Failed { line: text } && text@ == "Поиск не удался: "@
                + message@
        },
        _ => line is Nothing,
    }
}

/// What a click on the start button leads to.
#[derive(Debug)]
pub enum Start {
    /// Nothing: this system cannot send.
    Refused,
    /// The address is to be resolved, and a sender started.
    Send {
        target: String,
        frames_per_packet: usize,
        wire_format: WireFormat,
        device: Option<String>,
    },
    /// A receiver is to be started.
    Recv { opts: RecvOpts },
}

/// Whether a start is the one that the settings ask for.
pub open spec fn starts(start: Start, settings: Settings, on_windows: bool) -> bool {
    match settings.mode {
        Mode::Send => if on_windows {
            start matches Start::Send { target, frames_per_packet, wire_format, device } && {
                &&& target@ == settings.target()
                &&& frames_per_packet == FRAMES_PER_PACKET
                &&& wire_format == WireFormat::S16le
                &&& chooses(device, settings)
            }
        } else {
            start is Refused
        },
        Mode::Recv => start matches Start::Recv { opts } && {
            &&& opts.port == settings.port
            &&& opts.buffer_ms == settings.buffer_ms
            &&& opts.volume == UNITY_VOLUME
            &&& chooses(opts.device, settings)
        },
    }
}

/// The button that starts and stops.
#[derive(Debug, Clone, Copy, PartialEq, Eq, Structural)]
pub enum MainButton {
    Start { enabled: bool },
    Stop,
}

/// What a command from outside leads to.
#[derive(Debug, Clone, Copy, PartialEq, Eq, Structural)]
pub enum Command {
    Nothing,
    Start,
    Stop,
}

/// The state of the window.
pub struct App {
    pub settings: Settings,
    /// What runs.
    pub running: Option<Mode>,
    /// The names of the devices to choose from.
    pub devices: Vec<String>,
    pub pkt_rate: RateMeter,
    pub byte_rate: RateMeter,
    pub last_error: Option<String>,
    pub discovery: Discovery,
}

/// Whether the window went from one state to another by taking over the receiver at `index` of
/// those that were found: its address and port are set, and the search is over.
pub open spec fn took_over(before: App, after: App, index: int, v6_text: Seq<char>) -> bool {
    before.discovery matches Discovery::Done { found } && {
        &&& 0 <= index < found@.len()
        &&& after.settings.target_ip@ == address_text(found@[index].ip, v6_text)
        &&& after == (App {
            settings: Settings {
                target_ip: after.settings.target_ip,
                port: found@[index].port,
                ..before.settings
            },
            discovery: Discovery::Idle,
            ..before
        })
    }
}

/// Whether a meter has measured nothing.
pub open spec fn at_rest(meter: RateMeter) -> bool {
    meter.last is None && meter.delta == 0 && meter.nanos == 0
}

impl App {
    /// The window at the start of the program, with the settings of the last time if there are
    /// any.
    pub fn new(saved: Option<Settings>, on_windows: bool, devices: Vec<String>) -> (app: App)
        ensures
            match saved {
                Some(settings) => app.settings == settings,
                None => {
                    &&& app.settings.mode == if on_windows {
                        Mode::Send
                    } else {
                        Mode::Recv
                    }
                    &&& app.settings.target_ip@ == Seq::<char>::empty()
                    &&& app.settings.port == DEFAULT_PORT
                    &&& app.settings.buffer_ms == DEFAULT_BUFFER_MS
                    &&& app.settings.device@ == Seq::<char>::empty()
                },
            },
            app.running is None,
            app.devices == devices,
            at_rest(app.pkt_rate),
            at_rest(app.byte_rate),
            app.last_error is None,
            app.discovery is Idle,
    {
        let settings = match saved {
            Some(settings) => settings,
            None => Settings::new(on_windows),
        };
        App {
            settings,
            running: None,
            devices,
            pkt_rate: RateMeter::new(),
            byte_rate: RateMeter::new(),
            last_error: None,
            discovery: Discovery::Idle,
        }
    }

    /// Whether the settings can be changed: not while something runs.
    pub fn can_edit(&self) -> (yes: bool)
        ensures
            yes <==> self.running is None,
    {
        self.running.is_none()
    }

    /// Whether a search can be started: one at a time, and not while something runs.
    pub fn can_search(&self) -> (yes: bool)
        ensures
            yes <==> self.running is None && !(self.discovery is Searching),
    {
        match self.discovery {
            Discovery::Searching => false,
            _ => self.running.is_none(),
        }
    }

    /// Whether to warn that this system cannot send.
    pub fn warns_of_sending(&self, on_windows: bool) -> (yes: bool)
        ensures
            yes <==> self.settings.mode is Send && !on_windows,
    {
        match self.settings.mode {
            Mode::Send => !on_windows,
            Mode::Recv => false,
        }
    }

    /// The button that is shown.
    pub open spec fn button(&self, on_windows: bool) -> MainButton {
        if self.running is Some {
            MainButton::Stop
        } else {
            MainButton::Start { enabled: self.settings.may_start(on_windows) }
        }
    }

    /// The button that is shown: what runs can be stopped, and otherwise a stream can be started
    /// if the settings allow it.
    pub fn main_button(&self, on_windows: bool) -> (button: MainButton)
        ensures
            button == self.button(on_windows),
    {
        if self.running.is_some() {
            MainButton::Stop
        } else {
            MainButton::Start { enabled: self.settings.can_start(on_windows) }
        }
    }

    /// A search begins.
    pub fn start_discovery(&mut self)
        ensures
            *final(self) == (App { discovery: Discovery::Searching, ..*old(self) }),
    {
        self.discovery = Discovery::Searching;
    }

    /// A search has ended.
    pub fn on_discovered(&mut self, result: Result<Vec<Found>, String>)
        ensures
            *final(self) == (App {
                discovery: match result {
                    Ok(found) => Discovery::Done { found },
                    Err(message) => Discovery::Failed { message },
                },
                ..*old(self)
            }),
    {
        self.discovery = match result {
            Ok(found) => Discovery::Done { found },
            Err(message) => Discovery::Failed { message },
        };
    }

    /// What there is to show of the search. If it found a single receiver, that one is taken over;
    /// `v6_text` is what its address reads if it is of version 6.
    pub fn ui_discovery(&mut self, v6_text: &str) -> (line: DiscoveryLine)
        ensures
            shows(line, old(self).settings.mode, old(self).discovery, v6_text@),
            line is Single ==> took_over(*old(self), *final(self), 0, v6_text@),
            !(line is Single) ==> *final(self) == *old(self),
    {
        match self.settings.mode {
            Mode::Recv => {
                return DiscoveryLine::Nothing;
            },
            Mode::Send => {},
        }
        let line = match &self.discovery {
            Discovery::Idle => {
                return DiscoveryLine::Nothing;
            },
            Discovery::Searching => {
                return DiscoveryLine::Searching;
            },
            Discovery::Done { found } => {
                if found.len() == 0 {
                    return DiscoveryLine::NotFound;
                }
                if found.len() > 1 {
                    return DiscoveryLine::Several;
                }
                let mut line = "Найден: ".to_owned();
                line.append(found[0].name.as_str());
                line.append(" (");
                line.append(ip_text(&found[0].ip, v6_text).as_str());
                line.append(")");
                line
            },
            Discovery::Failed { message } => {
                let mut line = "Поиск не удался: ".to_owned();
                line.append(message.as_str());
                return DiscoveryLine::Failed { line };
            },
        };
        self.choose_found(0, v6_text);
        DiscoveryLine::Single { line }
    }

    /// Takes over the receiver at `index` of those that were found; `v6_text` is what its address
    /// reads if it is of version 6. The search is over with that.
    pub fn choose_found(&mut self, index: usize, v6_text: &str)
        requires
            old(self).discovery matches Discovery::Done { found } && index < found@.len(),
        ensures
            took_over(*old(self), *final(self), index as int, v6_text@),
    {
        match &self.discovery {
            Discovery::Done { found } => {
                self.settings.target_ip = ip_text(&found[index].ip, v6_text);
                self.settings.port = found[index].port;
            },
            _ => {},
        }
        self.discovery = Discovery::Idle;
    }

    /// The start button was clicked: what is to be done. What went wrong before is forgotten.
    pub fn start(&mut self, on_windows: bool) -> (start: Start)
        ensures
            starts(start, old(self).settings, on_windows),
            final(self).settings == old(self).settings,
            final(self).running == old(self).running,
            final(self).devices == old(self).devices,
            final(self).discovery == old(self).discovery,
            at_rest(final(self).pkt_rate),
            at_rest(final(self).byte_rate),
            match final(self).last_error {
                Some(text) => start is Refused && text@ == "Отправка работает только на Windows"@,
                None => !(start is Refused),
            },
    {
        self.last_error = None;
        self.pkt_rate.reset();
        self.byte_rate.reset();
        let device = self.settings.chosen_device();
        match self.settings.mode {
            Mode::Send => {
                if on_windows {
                    let text = self.settings.target_ip.as_str();
                    let (start, end) = trim_range(&chars_of(text));
                    let mut target = text.substring_char(start, end).to_owned();
                    target.append(":");
                    target.append(decimal_of(self.settings.port as u64).as_str());
                    Start::Send {
                        target,
                        frames_per_packet: FRAMES_PER_PACKET,
                        wire_format: WireFormat::S16le,
                        device,
                    }
                } else {
                    self.last_error = Some("Отправка работает только на Windows".to_owned());
                    Start::Refused
                }
            },
            Mode::Recv => Start::Recv {
                opts: RecvOpts {
                    port: self.settings.port,
                    buffer_ms: self.settings.buffer_ms,
                    device,
                    volume: UNITY_VOLUME,
                },
            },
        }
    }

    /// The address to send to does not resolve.
    pub fn on_bad_address(&mut self, target: &str)
        ensures
            final(self).last_error matches Some(text) && text@ == "Некорректный адрес: "@ + target@
                && *final(self) == (App { last_error: Some(text), ..*old(self) }),
    {
        let mut text = "Некорректный адрес: ".to_owned();
        text.append(target);
        self.last_error = Some(text);
    }

    /// A worker was started.
    pub fn on_started(&mut self, mode: Mode)
        ensures
            *final(self) == (App { running: Some(mode), ..*old(self) }),
    {
        self.running = Some(mode);
    }

    /// The worker is stopped or has ended by itself; `error` is what ended it. Without a worker
    /// there is nothing to stop.
    pub fn stop(&mut self, error: Option<String>)
        ensures
            final(self).running is None,
            final(self).last_error == (if old(self).running is Some {
                error
            } else {
                old(self).last_error
            }),
            at_rest(final(self).pkt_rate),
            at_rest(final(self).byte_rate),
            final(self).settings == old(self).settings,
            final(self).devices == old(self).devices,
            final(self).discovery == old(self).discovery,
    {
        if self.running.is_some() {
            self.running = None;
            self.last_error = error;
        }
        self.pkt_rate.reset();
        self.byte_rate.reset();
    }

    /// What a command that came from outside leads to: the same as a click on the button that it
    /// names, and nothing where that button is not shown or cannot be clicked.
    pub fn on_command(&self, command: Option<bool>, on_windows: bool) -> (todo: Command)
        ensures
            todo == (match (command, self.button(on_windows)) {
                (Some(true), MainButton::Start { enabled: true }) => Command::Start,
                (Some(false), MainButton::Stop) => Command::Stop,
                _ => Command::Nothing,
            }),
    {
        match (command, self.main_button(on_windows)) {
            (Some(true), MainButton::Start { enabled: true }) => Command::Start,
            (Some(false), MainButton::Stop) => Command::Stop,
            _ => Command::Nothing,
        }
    }
}

/// What a running sender has to tell.
#[derive(Debug)]
pub struct SendLines {
    pub status: Option<String>,
    /// Told only if samples were lost.
    pub overflow: Option<String>,
}

/// What a running sender has to tell.
pub fn send_lines(stats: &SenderStats) -> (lines: SendLines)
    ensures
        match (lines.status, stats.status) {
            (Some(line), Some(text)) => line@ == "▶ "@ + text@,
            (None, None) => true,
            _ => false,
        },
        match lines.overflow {
            Some(line) => stats.ring_overflow > 0 && line@ == "Переполнений буфера захвата: "@
                + decimal(stats.ring_overflow as nat),
            None => stats.ring_overflow == 0,
        },
{
    let status = match &stats.status {
        Some(text) => {
            let mut line = "▶ ".to_owned();
            line.append(text.as_str());
            Some(line)
        },
        None => None,
    };
    let overflow = if stats.ring_overflow > 0 {
        let mut line = "Переполнений буфера захвата: ".to_owned();
        line.append(decimal_of(stats.ring_overflow).as_str());
        Some(line)
    } else {
        None
    };
    SendLines { status, overflow }
}

/// What a running receiver has to tell.
#[derive(Debug)]
pub struct RecvLines {
    pub status: String,
    pub losses: String,
    /// Whether to advise a larger buffer: it has run dry before.
    pub advise: bool,
}

/// What a running receiver has to tell.
pub fn recv_lines(stats: &ReceiverStats) -> (lines: RecvLines)
    ensures
        lines.status@ == (match stats.status {
            Some(text) => "▶ "@ + text@,
            None => "Жду отправителя…"@,
        }),
        lines.losses@ == "Потеряно пакетов: "@ + decimal(stats.lost as nat)
            + " · провалов буфера: "@ + decimal(stats.underruns as nat) + " · срезов: "@ + decimal(
            stats.cuts as nat,
        ),
        lines.advise <==> stats.underruns > 0,
{
    let status = match &stats.status {
        Some(text) => {
            let mut line = "▶ ".to_owned();
            line.append(text.as_str());
            line
        },
        None => "Жду отправителя…".to_owned(),
    };
    let mut losses = "Потеряно пакетов: ".to_owned();
    losses.append(decimal_of(stats.lost).as_str());
    losses.append(" · провалов буфера: ");
    losses.append(decimal_of(stats.underruns).as_str());
    losses.append(" · срезов: ");
    losses.append(decimal_of(stats.cuts).as_str());
    RecvLines { status, losses, advise: stats.underruns > 0 }
}

/// A start button that can be clicked is never refused.
pub proof fn law_possible_starts_are_not_refused(
    settings: Settings,
    on_windows: bool,
    start: Start,
)
    requires
        settings.may_start(on_windows),
        starts(start, settings, on_windows),
    ensures
        !(start is Refused),
{
}

/// A text that begins with something else than white space is not blank.
proof fn lemma_not_blank(s: Seq<char>)
    requires
        s.len() > 0,
        !white_space(s[0]),
    ensures
        trim(s).len() > 0,
    decreases s.len(),
{
    assert(trim_start(s) == s);
    if white_space(s.last()) {
        assert(s.drop_last()[0] == s[0]);
        lemma_not_blank(s.drop_last());
        assert(trim_start(s.drop_last()) == s.drop_last());
    }
}

/// A number does not begin with white space.
proof fn lemma_decimal_front(n: nat)
    ensures
        decimal(n).len() > 0,
        !white_space(decimal(n)[0]),
    decreases n,
{
    reveal_strlit("0123456789");
    if n >= 10 {
        lemma_decimal_front(n / 10);
    }
}

/// Taking over a receiver that was found is all that a sender on Windows needs to start, unless
/// its address is of version 6 and reads as blank.
pub proof fn law_found_receiver_can_be_sent_to(
    before: App,
    after: App,
    index: int,
    v6_text: Seq<char>,
)
    requires
        before.settings.mode is Send,
        took_over(before, after, index, v6_text),
        before.discovery matches Discovery::Done { found } && (found@[index].ip is V6 ==> trim(
            v6_text,
        ).len() > 0),
    ensures
        after.settings.may_start(true),
{
    let found = before.discovery->found;
    match found@[index].ip {
        IpAddress::V4 { a, .. } => {
            lemma_decimal_front(a as nat);
            assert(after.settings.target_ip@[0] == decimal(a as nat)[0]);
            lemma_not_blank(after.settings.target_ip@);
        },
        IpAddress::V6 { .. } => {},
    }
}

/// When the start button can be clicked: always to receive; to send, on Windows, once the address is
/// not all white space.
pub proof fn law_what_a_start_needs(settings: Settings, on_windows: bool)
    ensures
        settings.mode is Recv ==> settings.may_start(on_windows),
        settings.mode is Send ==> (settings.may_start(on_windows) <==> on_windows && exists|i: int|
            0 <= i < settings.target_ip@.len() && !white_space(#[trigger] settings.target_ip@[i])),
{
    law_trim_of_a_blank_text(settings.target_ip@);
}

/// What a start comes to. A sender goes to the address without the white space around it, and the
/// port; it sends 128 frames in a packet, as 16-bit samples. A receiver listens on the port with the
/// buffer that is set, at the volume that leaves the sound as it is. Either uses the device that is
/// chosen. Only to send elsewhere than on Windows is refused.
pub proof fn law_starts_as_set(
    start: Start,
    settings: Settings,
    on_windows: bool,
    before: Seq<char>,
    address: Seq<char>,
    behind: Seq<char>,
)
    requires
        starts(start, settings, on_windows),
        settings.target_ip@ == before + address + behind,
        forall|i: int| 0 <= i < before.len() ==> white_space(#[trigger] before[i]),
        forall|i: int| 0 <= i < behind.len() ==> white_space(#[trigger] behind[i]),
        address.len() > 0 ==> !white_space(address[0]) && !white_space(address.last()),
        address.len() == 0 ==> behind.len() == 0,
    ensures
        start is Refused <==> settings.mode is Send && !on_windows,
        start is Recv <==> settings.mode is Recv,
        start matches Start::Send { target, frames_per_packet, wire_format, device } ==> {
            &&& target@ == address + ":"@ + decimal(settings.port as nat)
            &&& frames_per_packet == 128
            &&& wire_format is S16le
            &&& settings.device@.len() == 0 ==> device is None
            &&& settings.device@.len() > 0 ==> (device matches Some(name) && name@
                == settings.device@)
        },
        start matches Start::Recv { opts } ==> {
            &&& opts.port == settings.port
            &&& opts.buffer_ms == settings.buffer_ms
            &&& opts.volume == 0x3F80_0000
            &&& settings.device@.len() == 0 ==> opts.device is None
            &&& settings.device@.len() > 0 ==> (opts.device matches Some(name) && name@
                == settings.device@)
        },
{
    law_trim_leaves_what_is_between(before, address, behind);
}

/// What the window shows of a search, for those who send: that it goes on, that nothing was found,
/// the one that was found, a choice of several, or why it failed. Those who receive see nothing.
pub proof fn law_search_is_shown(
    line: DiscoveryLine,
    mode: Mode,
    discovery: Discovery,
    v6_text: Seq<char>,
)
    requires
        shows(line, mode, discovery, v6_text),
    ensures
        mode is Recv || discovery is Idle ==> line is Nothing,
        mode is Send && discovery is Searching ==> line is Searching,
        mode is Send ==> (discovery matches Discovery::Failed { message } ==> (
        line matches DiscoveryLine::Failed { line: text } && text@ == "Поиск не удался: "@
            + message@)),
        mode is Send ==> (discovery matches Discovery::Done { found } ==> {
            &&& found@.len() == 0 ==> line is NotFound
            &&& found@.len() == 1 ==> (line matches DiscoveryLine::Single { line: text } && text@
                == "Найден: "@ + found@[0].name@ + " ("@ + address_text(found@[0].ip, v6_text)
                + ")"@)
            &&& found@.len() > 1 ==> line is Several
        }),
{
}

/// Taking over a receiver sets its address and its port and ends the search; nothing else changes.
pub proof fn law_taking_over(before: App, after: App, index: int, v6_text: Seq<char>)
    requires
        took_over(before, after, index, v6_text),
    ensures
        before.discovery matches Discovery::Done { found } && {
            &&& 0 <= index < found@.len()
            &&& after.settings.target_ip@ == address_text(found@[index].ip, v6_text)
            &&& after.settings.port == found@[index].port
        },
        after.settings.mode == before.settings.mode,
        after.settings.buffer_ms == before.settings.buffer_ms,
        after.settings.device == before.settings.device,
        after.discovery is Idle,
        after.running == before.running,
        after.devices == before.devices,
        after.pkt_rate == before.pkt_rate,
        after.byte_rate == before.byte_rate,
        after.last_error == before.last_error,
{
}

/// Which button is shown: to stop what runs, and otherwise to start, if a start is possible.
pub proof fn law_button_that_is_shown(app: App, on_windows: bool)
    ensures
        app.running is Some ==> app.button(on_windows) is Stop,
        app.running is None ==> app.button(on_windows) == (MainButton::Start {
            enabled: app.settings.may_start(on_windows),
        }),
{
}

/// A meter at rest has no reading and shows nothing.
pub proof fn law_meter_at_rest(meter: RateMeter)
    requires
        at_rest(meter),
    ensures
        meter.last is None,
        meter.delta == 0,
        meter.nanos == 0,
{
}

} // verus!
