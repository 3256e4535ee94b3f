//! The window's settings and what it says about a session.

use vstd::prelude::*;

use crate::audio::virtual_device::{self, MicRoute, Pairing, RouteView};
use crate::engine::autostart;
use crate::engine::config::{
    ReceiverConfig, SenderConfig, Sink, Source, DEFAULT_GAIN_DB_BITS, DEFAULT_PACKET_FRAMES,
    DEFAULT_TARGET_BUFFER_MS,
};
use crate::engine::state::{Snapshot, Stats, StatusView};
use crate::gui::screenshot;
use crate::gui::tray::{TrayState, TrayView};
use crate::protocol::discovery::DEFAULT_DISCOVERY_PORT;
use crate::protocol::DEFAULT_CONTROL_PORT;
use crate::text::{self, texts};

verus! {

/// Milliseconds between frames while a session is running.
pub const ACTIVE_REPAINT_MS: u64 = 33;

/// Milliseconds between frames while idle.
pub const IDLE_REPAINT_MS: u64 = 250;

/// The bit pattern of the test tone's frequency: 1000 Hz, double precision.
pub const TONE_HZ_BITS: u64 = 0x408F_4000_0000_0000;

/// The bit pattern of 12 dB, single precision: more than that is heavy.
pub const HEAVY_GAIN_BITS: u32 = 0x4140_0000;

/// The bit pattern of infinity, single precision.
pub const INFINITE_GAIN_BITS: u32 = 0x7F80_0000;

/// How many log lines the window shows.
pub const VISIBLE_LINES: usize = 6;

/// How many tiles stand in a row.
pub const TILE_COLUMNS: usize = 4;

/// Milliseconds to the next frame.
pub fn repaint_after(running: bool) -> (ms: u64)
    ensures
        ms == (if running {
            ACTIVE_REPAINT_MS
        } else {
            IDLE_REPAINT_MS
        }),
{
    if running {
        ACTIVE_REPAINT_MS
    } else {
        IDLE_REPAINT_MS
    }
}

#[derive(Debug, Clone, Copy, PartialEq, Eq, Structural)]
pub enum Mode {
    Send,
    Receive,
}

impl Mode {
    /// What this machine does, in words.
    pub open spec fn words(self) -> Seq<char> {
        match self {
            Mode::Send => "This machine captures and sends"@,
            Mode::Receive => "This machine receives and plays"@,
        }
    }

    pub fn caption(self) -> (words: &'static str)
        ensures
            words@ == self.words(),
    {
        match self {
            Mode::Send => "This machine captures and sends",
            Mode::Receive => "This machine receives and plays",
        }
    }
}

/// Either a real device or the mode's synthetic option.
#[derive(Debug, Clone, PartialEq, Eq)]
pub enum Choice {
    Device(String),
    /// A test tone when sending, a WAV file when receiving.
    Synthetic,
}

/// What a [`Choice`] says.
pub enum ChoiceView {
    Device(Seq<char>),
    Synthetic,
}

impl View for Choice {
    type V = ChoiceView;

    open spec fn view(&self) -> ChoiceView {
        match self {
            Choice::Device(name) => ChoiceView::Device(name@),
            Choice::Synthetic => ChoiceView::Synthetic,
        }
    }
}

impl ChoiceView {
    pub open spec fn title(self, mode: Mode) -> Seq<char> {
        match (self, mode) {
            (ChoiceView::Device(name), _) => name,
            (ChoiceView::Synthetic, Mode::Send) => "Test tone (1 kHz)"@,
            (ChoiceView::Synthetic, Mode::Receive) => "WAV file"@,
        }
    }
}

impl Choice {
    pub fn label(&self, mode: Mode) -> (title: String)
        ensures
            title@ == self@.title(mode),
    {
        match self {
            Choice::Device(name) => name.clone(),
            Choice::Synthetic => match mode {
                Mode::Send => "Test tone (1 kHz)".to_owned(),
                Mode::Receive => "WAV file".to_owned(),
            },
        }
    }
}

/// A receiver that a search turned up.
#[derive(Debug, Clone, PartialEq, Eq)]
pub struct Receiver {
    pub address: String,
    pub control_port: u16,
    pub label: String,
}

/// What a search produced.
#[derive(Debug, Clone, PartialEq, Eq)]
pub struct FindReport {
    pub found: Vec<Receiver>,
    /// Discovery found nothing, but the address in the host field accepts
    /// control connections regardless.
    pub host_answers: bool,
}

/// How a line is coloured.
#[derive(Debug, Clone, Copy, PartialEq, Eq, Structural)]
pub enum Tone {
    /// Like the text around it, but weaker.
    Weak,
    Muted,
    Good,
    Warn,
    Bad,
}

/// A line of text in the window.
#[derive(Debug, Clone, PartialEq, Eq)]
pub struct Note {
    pub text: String,
    pub tone: Tone,
}

/// What a [`Note`] says.
pub struct NoteView {
    pub text: Seq<char>,
    pub tone: Tone,
}

impl View for Note {
    type V = NoteView;

    open spec fn view(&self) -> NoteView {
        NoteView { text: self.text@, tone: self.tone }
    }
}

/// A line from its words.
fn note(words: &str, tone: Tone) -> (n: Note)
    ensures
        n@ == (NoteView { text: words@, tone }),
{
    Note { text: words.to_owned(), tone }
}

/// A line from two pieces.
fn note_of(start: &str, rest: &str, tone: Tone) -> (n: Note)
    ensures
        n@ == (NoteView { text: start@ + rest@, tone }),
{
    let mut words: String = start.to_owned();
    words.append(rest);
    Note { text: words, tone }
}

/// The session that the Start button starts.
#[derive(Debug, Clone, PartialEq, Eq)]
pub enum Start {
    Sender(SenderConfig),
    Receiver(ReceiverConfig),
}

/// The window's settings, and the last it heard of things.
pub struct App {
    pub mode: Mode,
    pub host: String,
    pub send_choice: Choice,
    pub inputs: Vec<String>,
    pub recv_choice: Choice,
    pub outputs: Vec<String>,
    pub target_buffer_ms: u32,
    pub wav_path: String,
    pub port: u16,
    /// The bit pattern of the gain in decibels, single precision.
    pub gain_db_bits: u32,
    /// Ways of getting audio onto a microphone on this machine.
    pub routes: Vec<MicRoute>,
    /// A search is under way.
    pub searching: bool,
    /// What the last search turned up.
    pub found: Vec<Receiver>,
    pub find_error: Option<String>,
    /// A search has finished, so an empty result means that nothing answered.
    pub searched: bool,
    /// Discovery found nothing, but the typed address is answering anyway.
    pub host_answers: bool,
    /// What is registered to run at logon.
    pub autostart: autostart::Status,
    pub autostart_error: Option<String>,
    /// Kept after a session ends, so that its outcome stays on screen.
    pub last: Option<Snapshot>,
    pub device_error: Option<String>,
    pub always_on_top: bool,
}

/// The names a refresh offers: none where they could not be listed, and in a
/// picture only documented ones.
pub open spec fn offered(names: Result<Vec<String>, String>, picture: bool) -> Seq<Seq<char>> {
    let all = match names {
        Ok(list) => texts(list@),
        Err(_) => seq![],
    };
    if picture {
        all.filter(|name: Seq<char>| screenshot::documented(name))
    } else {
        all
    }
}

/// A synthetic choice gives way to the first device there is.
pub open spec fn defaulted(choice: ChoiceView, names: Seq<Seq<char>>) -> ChoiceView {
    if choice is Synthetic && names.len() > 0 {
        ChoiceView::Device(names[0])
    } else {
        choice
    }
}

/// The microphones of some routes.
pub open spec fn mics_of(routes: Seq<RouteView>) -> Seq<Seq<char>> {
    routes.map_values(|r: RouteView| r.game_mic)
}

/// The first route to a microphone.
pub open spec fn route_to(mic: Seq<char>, routes: Seq<RouteView>) -> Option<RouteView>
    decreases routes.len(),
{
    if routes.len() == 0 {
        None
    } else if routes[0].game_mic == mic {
        Some(routes[0])
    } else {
        route_to(mic, routes.skip(1))
    }
}

/// The route to the chosen microphone.
pub open spec fn chosen_route(choice: ChoiceView, routes: Seq<RouteView>) -> Option<RouteView> {
    match choice {
        ChoiceView::Device(mic) => route_to(mic, routes),
        ChoiceView::Synthetic => None,
    }
}

/// Takes the names that were listed.
fn take_names(names: Result<Vec<String>, String>, picture: bool) -> (r: (
    Vec<String>,
    Option<String>,
))
    ensures
        texts(r.0@) == offered(names, picture),
        match names {
            Ok(_) => r.1 is None,
            Err(e) => r.1 == Some(e),
        },
{
    match names {
        Ok(list) => {
            let mut list = list;
            if picture {
                screenshot::retain_documented_devices(&mut list);
            }
            (list, None)
        },
        Err(e) => {
            let mut list: Vec<String> = Vec::new();
            assert(texts(list@) =~= seq![]);
            if picture {
                screenshot::retain_documented_devices(&mut list);
            }
            (list, Some(e))
        },
    }
}

impl App {
    /// The window as it opens, before devices were listed.
    pub fn new(autostart: autostart::Status) -> (app: Self)
        ensures
            app.mode == Mode::Send,
            app.host@ == Seq::<char>::empty(),
            app.send_choice@ is Synthetic,
            app.inputs@ == Seq::<String>::empty(),
            app.recv_choice@ is Synthetic,
            app.outputs@ == Seq::<String>::empty(),
            app.target_buffer_ms == DEFAULT_TARGET_BUFFER_MS,
            app.wav_path@ == "captures/micbridge.wav"@,
            app.port == DEFAULT_CONTROL_PORT,
            app.gain_db_bits == DEFAULT_GAIN_DB_BITS,
            app.routes@ == Seq::<MicRoute>::empty(),
            !app.searching,
            app.found@ == Seq::<Receiver>::empty(),
            app.find_error is None,
            !app.searched,
            !app.host_answers,
            app.autostart == autostart,
            app.autostart_error is None,
            app.last is None,
            app.device_error is None,
            !app.always_on_top,
    {
        Self {
            mode: Mode::Send,
            host: String::new(),
            send_choice: Choice::Synthetic,
            inputs: Vec::new(),
            recv_choice: Choice::Synthetic,
            outputs: Vec::new(),
            target_buffer_ms: DEFAULT_TARGET_BUFFER_MS,
            wav_path: "captures/micbridge.wav".to_owned(),
            port: DEFAULT_CONTROL_PORT,
            gain_db_bits: DEFAULT_GAIN_DB_BITS,
            routes: Vec::new(),
            searching: false,
            found: Vec::new(),
            find_error: None,
            searched: false,
            host_answers: false,
            autostart,
            autostart_error: None,
            last: None,
            device_error: None,
            always_on_top: false,
        }
    }

    /// Takes the devices that were listed and picks sensible defaults. A picture
    /// offers documented devices only.
    pub fn refresh_devices(
        &mut self,
        inputs: Result<Vec<String>, String>,
        outputs: Result<Vec<String>, String>,
        picture: bool,
    )
        ensures
            texts(final(self).inputs@) == offered(inputs, picture),
            texts(final(self).outputs@) == offered(outputs, picture),
            final(self).device_error == (match (inputs, outputs) {
                (_, Err(e)) => Some(e),
                (Err(e), Ok(_)) => Some(e),
                (Ok(_), Ok(_)) => None,
            }),
            virtual_device::route_views(final(self).routes@) == virtual_device::all_routes(
                texts(final(self).inputs@),
                texts(final(self).outputs@),
            ),
            final(self).send_choice@ == defaulted(
                old(self).send_choice@,
                texts(final(self).inputs@),
            ),
            final(self).recv_choice@ == defaulted(
                old(self).recv_choice@,
                mics_of(virtual_device::route_views(final(self).routes@)),
            ),
            *final(self) == (App {
                inputs: final(self).inputs,
                outputs: final(self).outputs,
                device_error: final(self).device_error,
                routes: final(self).routes,
                send_choice: final(self).send_choice,
                recv_choice: final(self).recv_choice,
                ..*old(self)
            }),
    {
        let (ins, in_error) = take_names(inputs, picture);
        let (outs, out_error) = take_names(outputs, picture);
        let routes = virtual_device::routes(ins.as_slice(), outs.as_slice());
        if matches!(self.send_choice, Choice::Synthetic) && ins.len() > 0 {
            assert(texts(ins@)[0] == ins@[0]@);
            self.send_choice = Choice::Device(ins[0].clone());
        }
        if matches!(self.recv_choice, Choice::Synthetic) && routes.len() > 0 {
            assert(mics_of(virtual_device::route_views(routes@))[0] == routes@[0].game_mic@);
            self.recv_choice = Choice::Device(routes[0].game_mic.clone());
        }
        self.inputs = ins;
        self.outputs = outs;
        self.routes = routes;
        self.device_error = if out_error.is_some() {
            out_error
        } else {
            in_error
        };
    }

    /// The route for the selected game microphone.
    pub fn selected_route(&self) -> (r: Option<&MicRoute>)
        ensures
            match chosen_route(self.recv_choice@, virtual_device::route_views(self.routes@)) {
                Some(view) => r matches Some(route) && route@ == view,
                None => r is None,
            },
    {
        let ghost views = virtual_device::route_views(self.routes@);
        match &self.recv_choice {
            Choice::Synthetic => None,
            Choice::Device(mic) => {
                let mut i: usize = 0;
                assert(views.skip(0) =~= views);
                while i < self.routes.len()
                    invariant
                        i <= self.routes@.len(),
                        views == virtual_device::route_views(self.routes@),
                        self.recv_choice@ == ChoiceView::Device(mic@),
                        route_to(mic@, views) == route_to(mic@, views.skip(i as int)),
                    decreases self.routes@.len() - i,
                {
                    assert(views.skip(i as int)[0] == self.routes@[i as int]@);
                    assert(views.skip(i as int).skip(1) =~= views.skip(i + 1));
                    if self.routes[i].game_mic == *mic {
                        return Some(&self.routes[i]);
                    }
                    i = i + 1;
                }
                None
            },
        }
    }

    /// The playback device that the chosen microphone needs: its route's, or the
    /// choice itself where no route to it is known.
    pub open spec fn playback(&self) -> Option<Seq<char>> {
        match self.recv_choice@ {
            ChoiceView::Device(name) => match route_to(
                name,
                virtual_device::route_views(self.routes@),
            ) {
                Some(route) => Some(route.render_into),
                None => Some(name),
            },
            ChoiceView::Synthetic => None,
        }
    }

    /// The session that the settings ask for.
    pub fn start(&self) -> (r: Start)
        ensures
            match self.mode {
                Mode::Send => {
                    &&& r matches Start::Sender(config)
                    &&& config.host@ == text::trimmed(self.host@)
                    &&& config.port == self.port
                    &&& match self.send_choice@ {
                        ChoiceView::Device(name) => config.source matches Source::Device(Some(n))
                            && n@ == name,
                        ChoiceView::Synthetic => config.source == Source::Tone(TONE_HZ_BITS),
                    }
                    &&& config.packet_frames == DEFAULT_PACKET_FRAMES
                    &&& config.gain_db_bits == self.gain_db_bits
                    &&& config.sample_rate is None
                    &&& config.channels is None
                    &&& config.capture_frames is None
                    &&& config.duration_secs is None
                },
                Mode::Receive => {
                    &&& r matches Start::Receiver(config)
                    &&& config.bind@ == "0.0.0.0"@
                    &&& config.port == self.port
                    &&& config.media_port == 42101
                    &&& match self.playback() {
                        Some(name) => config.sink matches Sink::Device(Some(n)) && n@ == name,
                        None => config.sink matches Sink::Wav(path) && path@ == text::trimmed(
                            self.wav_path@,
                        ),
                    }
                    &&& config.target_buffer_ms == self.target_buffer_ms
                    &&& config.gain_db_bits == self.gain_db_bits
                    &&& config.render_frames is None
                    &&& config.wav_chunk_frames == DEFAULT_PACKET_FRAMES
                    &&& !config.once
                    &&& config.duration_secs is None
                    &&& config.announce
                    &&& config.discovery_port == 42102
                    &&& config.label@ == Seq::<char>::empty()
                },
            },
    {
        match self.mode {
            Mode::Send => {
                let mut config = SenderConfig::default();
                config.host = text::trim(text::chars_of(self.host.as_str()).as_slice());
                config.port = self.port;
                config.source =
                match &self.send_choice {
                    Choice::Device(name) => Source::Device(Some(name.clone())),
                    Choice::Synthetic => Source::Tone(TONE_HZ_BITS),
                };
                config.packet_frames = DEFAULT_PACKET_FRAMES;
                config.gain_db_bits = self.gain_db_bits;
                Start::Sender(config)
            },
            Mode::Receive => {
                let mut config = ReceiverConfig::default();
                config.port = self.port;
                config.sink =
                match &self.recv_choice {
                    Choice::Device(name) => match self.selected_route() {
                        Some(route) => Sink::Device(Some(route.render_into.clone())),
                        None => Sink::Device(Some(name.clone())),
                    },
                    Choice::Synthetic => Sink::Wav(
                        text::trim(text::chars_of(self.wav_path.as_str()).as_slice()),
                    ),
                };
                config.target_buffer_ms = self.target_buffer_ms;
                config.gain_db_bits = self.gain_db_bits;
                Start::Receiver(config)
            },
        }
    }

    /// Begins a search, unless one is under way. Gives the host that was typed
    /// and the port, to be tried where the search finds nothing.
    pub fn start_find(&mut self) -> (r: Option<(String, u16)>)
        ensures
            old(self).searching ==> r is None && *final(self) == *old(self),
            !old(self).searching ==> {
                &&& r matches Some(typed)
                &&& typed.0@ == text::trimmed(old(self).host@)
                &&& typed.1 == old(self).port
                &&& *final(self) == (App { searching: true, find_error: None, ..*old(self) })
            },
    {
        if self.searching {
            return None;
        }
        self.find_error = None;
        self.searching = true;
        Some((text::trim(text::chars_of(self.host.as_str()).as_slice()), self.port))
    }

    /// Takes the outcome of a search. The first receiver found becomes the host:
    /// one result is unambiguous, and of several the others are named.
    pub fn poll_find(&mut self, outcome: Result<FindReport, String>)
        ensures
            match outcome {
                Ok(report) => {
                    &&& final(self).found == report.found
                    &&& report.found@.len() > 0 ==> {
                        &&& final(self).host@ == report.found@[0].address@
                        &&& final(self).port == report.found@[0].control_port
                    }
                    &&& report.found@.len() == 0 ==> {
                        &&& final(self).host == old(self).host
                        &&& final(self).port == old(self).port
                    }
                    &&& *final(self) == (App {
                        searching: false,
                        searched: true,
                        host: final(self).host,
                        port: final(self).port,
                        found: report.found,
                        host_answers: report.host_answers,
                        ..*old(self)
                    })
                },
                Err(e) => *final(self) == (App {
                    searching: false,
                    searched: true,
                    find_error: Some(e),
                    ..*old(self)
                }),
            },
    {
        self.searching = false;
        self.searched = true;
        match outcome {
            Ok(report) => {
                if report.found.len() > 0 {
                    self.host = report.found[0].address.clone();
                    self.port = report.found[0].control_port;
                }
                self.found = report.found;
                self.host_answers = report.host_answers;
            },
            Err(e) => {
                self.find_error = Some(e);
            },
        }
    }

    /// The state of the last session that was looked at.
    pub open spec fn phase(&self) -> StatusView {
        match self.last {
            Some(snapshot) => snapshot.status@,
            None => StatusView::Idle,
        }
    }

    /// One word for the state, and its colour.
    pub fn status_note(&self) -> (n: Note)
        ensures
            n.text@ == self.phase().word(),
            n.tone == (match self.phase() {
                StatusView::Running => Tone::Good,
                StatusView::Starting(_) => Tone::Warn,
                StatusView::Failed(_) => Tone::Bad,
                _ => Tone::Muted,
            }),
    {
        match &self.last {
            None => note("Idle", Tone::Muted),
            Some(snapshot) => {
                let tone = match &snapshot.status {
                    crate::engine::state::Status::Running => Tone::Good,
                    crate::engine::state::Status::Starting(_) => Tone::Warn,
                    crate::engine::state::Status::Failed(_) => Tone::Bad,
                    _ => Tone::Muted,
                };
                note(snapshot.status.label(), tone)
            },
        }
    }

    /// What the tray says under the status: the level, and when receiving the
    /// buffer's fill.
    pub open spec fn tray_detail(
        &self,
        running: bool,
        level: Option<&str>,
        fill: &str,
    ) -> Seq<char> {
        if !running {
            Seq::empty()
        } else {
            let words = match level {
                Some(db) => db@ + " dB"@,
                None => "no signal"@,
            };
            if self.mode == Mode::Receive && self.last is Some {
                words + " · "@ + fill@ + " ms"@
            } else {
                words
            }
        }
    }

    /// The tray's view of the session. `level` is the level in whole decibels,
    /// where there is a signal, and `fill` the buffer's fill in milliseconds.
    pub fn tray_state(&self, running: bool, level: Option<&str>, fill: &str) -> (state: TrayState)
        ensures
            state@ == (TrayView {
                status: self.phase().word(),
                detail: self.tray_detail(running, level, fill),
                running,
            }),
    {
        let status = self.status_note().text;
        let mut detail: String = String::new();
        if running {
            match level {
                Some(db) => {
                    detail.append(db);
                    detail.append(" dB");
                },
                None => {
                    detail.append("no signal");
                },
            }
            if self.mode == Mode::Receive && self.last.is_some() {
                detail.append(" · ");
                detail.append(fill);
                detail.append(" ms");
            }
        }
        assert(detail@ =~= self.tray_detail(running, level, fill));
        TrayState { status, detail, running }
    }
}

/// The addresses of all receivers but the first.
pub open spec fn other_addresses(found: Seq<Receiver>) -> Seq<Seq<char>> {
    Seq::new((found.len() - 1) as nat, |i: int| found[i + 1].address@)
}

/// The addresses of all receivers but the first.
fn others(found: &Vec<Receiver>) -> (addresses: Vec<String>)
    requires
        found@.len() > 0,
    ensures
        texts(addresses@) == other_addresses(found@),
{
    let mut addresses: Vec<String> = Vec::new();
    let mut i: usize = 1;
    while i < found.len()
        invariant
            1 <= i <= found@.len(),
            texts(addresses@) =~= other_addresses(found@).take(i - 1),
        decreases found@.len() - i,
    {
        let ghost before = addresses@;
        let address = found[i].address.clone();
        addresses.push(address);
        assert(texts(addresses@) =~= texts(before).push(address@));
        assert(other_addresses(found@)[i - 1] == address@);
        i = i + 1;
    }
    assert(other_addresses(found@).take(i - 1) =~= other_addresses(found@));
    addresses
}

impl App {
    /// What the window says of the last search, and in what colour: a user who
    /// finds nothing needs to know whether to keep looking or start typing.
    pub open spec fn find_says(&self) -> NoteView {
        if let Some(err) = self.find_error {
            NoteView { text: "search failed: "@ + err@, tone: Tone::Bad }
        } else if self.searching {
            NoteView { text: "Looking on the local network..."@, tone: Tone::Weak }
        } else if self.found@.len() > 1 {
            NoteView {
                text: "Found "@ + text::decimal(self.found@.len()) + " receivers; using "@
                    + self.host@ + ". Others: "@ + text::joined(
                    other_addresses(self.found@),
                    ", "@,
                ),
                tone: Tone::Weak,
            }
        } else if self.found@.len() == 1 {
            NoteView { text: "Found "@ + self.found@[0].label@, tone: Tone::Weak }
        } else if !self.searched {
            NoteView {
                text:
                    "Find searches the local network only — it does not reach across Tailscale, a VPN, or a routed subnet. Type the address the receiver prints if it comes back empty."@,
                tone: Tone::Weak,
            }
        } else if self.host_answers {
            NoteView {
                text: "Discovery found nothing, but "@ + text::trimmed(self.host@)
                    + " is answering on "@ + text::decimal(self.port as nat)
                    + " — press Start. Something on the receiver is blocking UDP "@
                    + text::decimal(DEFAULT_DISCOVERY_PORT as nat)
                    + ", usually a firewall. That affects Find only, not audio."@,
                tone: Tone::Good,
            }
        } else {
            NoteView {
                text:
                    "Nothing answered. Discovery is a local broadcast: it does not cross Tailscale, a VPN, or a routed network, and a firewall on the receiver can block it even on the same network. Type the address the receiver prints when it starts."@,
                tone: Tone::Warn,
            }
        }
    }

    pub fn find_note(&self) -> (n: Note)
        ensures
            n@ == self.find_says(),
    {
        if let Some(err) = &self.find_error {
            return note_of("search failed: ", err.as_str(), Tone::Bad);
        }
        if self.searching {
            return note("Looking on the local network...", Tone::Weak);
        }
        if self.found.len() > 1 {
            let mut words: String = "Found ".to_owned();
            text::push_decimal(&mut words, self.found.len() as u64);
            words.append(" receivers; using ");
            words.append(self.host.as_str());
            words.append(". Others: ");
            text::push_joined(&mut words, others(&self.found).as_slice(), ", ");
            return Note { text: words, tone: Tone::Weak };
        }
        if self.found.len() == 1 {
            return note_of("Found ", self.found[0].label.as_str(), Tone::Weak);
        }
        if !self.searched {
            return note(
                "Find searches the local network only — it does not reach across Tailscale, a VPN, or a routed subnet. Type the address the receiver prints if it comes back empty.",
                Tone::Weak,
            );
        }
        if self.host_answers {
            let host = text::trim(text::chars_of(self.host.as_str()).as_slice());
            let mut words: String = "Discovery found nothing, but ".to_owned();
            words.append(host.as_str());
            words.append(" is answering on ");
            text::push_decimal(&mut words, self.port as u64);
            words.append(" — press Start. Something on the receiver is blocking UDP ");
            text::push_decimal(&mut words, DEFAULT_DISCOVERY_PORT as u64);
            words.append(", usually a firewall. That affects Find only, not audio.");
            return Note { text: words, tone: Tone::Good };
        }
        note(
            "Nothing answered. Discovery is a local broadcast: it does not cross Tailscale, a VPN, or a routed network, and a firewall on the receiver can block it even on the same network. Type the address the receiver prints when it starts.",
            Tone::Warn,
        )
    }

    /// The gain amplifies so much that the noise is worth a warning: more than
    /// 12 dB. Bit patterns of positive numbers are in the order of the numbers.
    pub open spec fn boosts(&self) -> bool {
        HEAVY_GAIN_BITS < self.gain_db_bits <= INFINITE_GAIN_BITS
    }

    /// The warning about heavy gain, where there is reason for one.
    pub fn gain_warning(&self) -> (n: Option<Note>)
        ensures
            self.boosts() ==> (n matches Some(warning) && warning@ == (NoteView {
                text:
                    "Heavy boost — watch the clip indicator; amplifying a quiet signal raises its noise with it."@,
                tone: Tone::Warn,
            })),
            !self.boosts() ==> n is None,
    {
        if HEAVY_GAIN_BITS < self.gain_db_bits && self.gain_db_bits <= INFINITE_GAIN_BITS {
            Some(
                note(
                    "Heavy boost — watch the clip indicator; amplifying a quiet signal raises its noise with it.",
                    Tone::Warn,
                ),
            )
        } else {
            None
        }
    }

    /// What is said of the test tone, where it is chosen.
    pub fn tone_note(&self) -> (n: Option<Note>)
        ensures
            self.send_choice@ is Synthetic ==> (n matches Some(hint) && hint@ == (NoteView {
                text:
                    "Test tone needs no microphone permission. If the receiver's meter moves, everything except capture works."@,
                tone: Tone::Weak,
            })),
            !(self.send_choice@ is Synthetic) ==> n is None,
    {
        if matches!(self.send_choice, Choice::Synthetic) {
            Some(
                note(
                    "Test tone needs no microphone permission. If the receiver's meter moves, everything except capture works.",
                    Tone::Weak,
                ),
            )
        } else {
            None
        }
    }

    /// What the window says of where received audio goes.
    pub open spec fn sink_says(&self) -> Seq<NoteView> {
        let routes = virtual_device::route_views(self.routes@);
        if self.recv_choice@ is Synthetic {
            seq![
                NoteView {
                    text: "Writes to a file. Useful for testing with no hardware."@,
                    tone: Tone::Weak,
                },
            ]
        } else {
            match chosen_route(self.recv_choice@, routes) {
                Some(route) => {
                    let sent = NoteView {
                        text: "Audio is sent to "@ + text::quoted(route.render_into),
                        tone: Tone::Weak,
                    };
                    if route.how == Pairing::NamedPair {
                        seq![sent]
                    } else {
                        seq![
                            sent,
                            NoteView { text: "Note: "@ + route.how.words(), tone: Tone::Warn },
                        ]
                    }
                },
                None => if routes.len() == 0 {
                    seq![
                        NoteView {
                            text:
                                "No microphone on this machine can be fed by an app. Install a virtual audio cable, or choose the WAV file option to test without one."@,
                            tone: Tone::Warn,
                        },
                    ]
                } else {
                    seq![
                        NoteView {
                            text:
                                "Could not work out which device feeds this microphone; treating the selection as a playback device."@,
                            tone: Tone::Warn,
                        },
                    ]
                },
            }
        }
    }

    pub fn sink_notes(&self) -> (notes: Vec<Note>)
        ensures
            note_views(notes@) == self.sink_says(),
    {
        let mut notes: Vec<Note> = Vec::new();
        if matches!(self.recv_choice, Choice::Synthetic) {
            notes.push(note("Writes to a file. Useful for testing with no hardware.", Tone::Weak));
        } else {
            match self.selected_route() {
                Some(route) => {
                    let mut words: String = "Audio is sent to ".to_owned();
                    text::push_quoted(&mut words, route.render_into.as_str());
                    notes.push(Note { text: words, tone: Tone::Weak });
                    if !route.how.is_reliable() {
                        notes.push(note_of("Note: ", route.how.describe(), Tone::Warn));
                    }
                },
                None => {
                    if self.routes.len() == 0 {
                        notes.push(
                            note(
                                "No microphone on this machine can be fed by an app. Install a virtual audio cable, or choose the WAV file option to test without one.",
                                Tone::Warn,
                            ),
                        );
                    } else {
                        notes.push(
                            note(
                                "Could not work out which device feeds this microphone; treating the selection as a playback device.",
                                Tone::Warn,
                            ),
                        );
                    }
                },
            }
        }
        assert(note_views(notes@) =~= self.sink_says());
        notes
    }

    /// The microphones on offer.
    pub fn mics(&self) -> (mics: Vec<String>)
        ensures
            texts(mics@) == mics_of(virtual_device::route_views(self.routes@)),
    {
        let ghost all = mics_of(virtual_device::route_views(self.routes@));
        let mut mics: Vec<String> = Vec::new();
        let mut i: usize = 0;
        while i < self.routes.len()
            invariant
                i <= self.routes@.len(),
                all == mics_of(virtual_device::route_views(self.routes@)),
                texts(mics@) =~= all.take(i as int),
            decreases self.routes@.len() - i,
        {
            let ghost before = mics@;
            let mic = self.routes[i].game_mic.clone();
            mics.push(mic);
            assert(texts(mics@) =~= texts(before).push(mic@));
            assert(all[i as int] == mic@);
            i = i + 1;
        }
        mics
    }

    /// Starting at logon can be offered: where the platform has it, and a device
    /// is chosen.
    pub fn offers_autostart(&self) -> (yes: bool)
        ensures
            yes == (self.autostart.supported && !(self.recv_choice@ is Synthetic)),
    {
        self.autostart.supported && !matches!(self.recv_choice, Choice::Synthetic)
    }

    /// What is said of starting at logon.
    pub fn autostart_note(&self) -> (n: Option<Note>)
        ensures
            match self.autostart_error {
                Some(err) => n matches Some(failure) && failure@ == (NoteView {
                    text: "could not change it: "@ + err@,
                    tone: Tone::Bad,
                }),
                None => if self.autostart.stale {
                    n matches Some(warning) && warning@ == (NoteView {
                        text:
                            "The registered entry points at a different copy of this program; it will fail silently at logon. Untick and retick to repoint it."@,
                        tone: Tone::Warn,
                    })
                } else {
                    n is None
                },
            },
    {
        if let Some(err) = &self.autostart_error {
            return Some(note_of("could not change it: ", err.as_str(), Tone::Bad));
        }
        if self.autostart.stale {
            return Some(
                note(
                    "The registered entry points at a different copy of this program; it will fail silently at logon. Untick and retick to repoint it.",
                    Tone::Warn,
                ),
            );
        }
        None
    }

    /// Takes the outcome of a change to the logon entry, and what is registered
    /// now: if the change failed, the window must not claim otherwise.
    pub fn autostart_changed(&mut self, outcome: Result<(), String>, now: autostart::Status)
        ensures
            *final(self) == (App {
                autostart_error: match outcome {
                    Ok(()) => None,
                    Err(e) => Some(e),
                },
                autostart: now,
                ..*old(self)
            }),
    {
        self.autostart_error =
        match outcome {
            Ok(()) => None,
            Err(e) => Some(e),
        };
        self.autostart = now;
    }

    /// A sender with no host cannot start.
    pub fn missing_host(&self) -> (yes: bool)
        ensures
            yes == (self.mode == Mode::Send && text::trimmed(self.host@).len() == 0),
    {
        self.mode == Mode::Send && text::trim(
            text::chars_of(self.host.as_str()).as_slice(),
        ).as_str().is_empty()
    }

    /// The lines under the buttons: what is starting or why it failed, and
    /// whether devices could be listed.
    pub open spec fn control_says(&self) -> Seq<NoteView> {
        (match self.phase() {
            StatusView::Starting(what) => seq![NoteView { text: what, tone: Tone::Muted }],
            StatusView::Failed(err) => seq![NoteView { text: err, tone: Tone::Bad }],
            _ => seq![],
        }) + (match self.device_error {
            Some(err) => seq![
                NoteView { text: "device enumeration failed: "@ + err@, tone: Tone::Bad },
            ],
            None => seq![],
        })
    }

    pub fn control_notes(&self) -> (notes: Vec<Note>)
        ensures
            note_views(notes@) == self.control_says(),
    {
        let mut notes: Vec<Note> = Vec::new();
        if let Some(snapshot) = &self.last {
            match &snapshot.status {
                crate::engine::state::Status::Starting(what) => {
                    notes.push(note(what.as_str(), Tone::Muted));
                },
                crate::engine::state::Status::Failed(err) => {
                    notes.push(note(err.as_str(), Tone::Bad));
                },
                _ => {},
            }
        }
        if let Some(err) = &self.device_error {
            notes.push(note_of("device enumeration failed: ", err.as_str(), Tone::Bad));
        }
        assert(note_views(notes@) =~= self.control_says());
        notes
    }
}

/// Several lines, by what they say.
pub open spec fn note_views(notes: Seq<Note>) -> Seq<NoteView> {
    notes.map_values(|n: Note| n@)
}

/// Whether the typed host is to be tried: only where discovery came back empty,
/// and only where the user did type an address.
pub fn tries_host(found: usize, typed: &str) -> (yes: bool)
    ensures
        yes == (found == 0 && typed@.len() > 0),
{
    found == 0 && !typed.is_empty()
}

/// A number on a card.
#[derive(Debug, Clone, PartialEq, Eq)]
pub struct Tile {
    pub name: &'static str,
    pub value: String,
    /// The number is one that ought to be zero, and is not.
    pub bad: bool,
}

/// What a [`Tile`] says.
pub struct TileView {
    pub name: Seq<char>,
    pub value: Seq<char>,
    pub bad: bool,
}

impl View for Tile {
    type V = TileView;

    open spec fn view(&self) -> TileView {
        TileView { name: self.name@, value: self.value@, bad: self.bad }
    }
}

/// Several tiles, by what they say.
pub open spec fn tile_views(tiles: Seq<Tile>) -> Seq<TileView> {
    tiles.map_values(|t: Tile| t@)
}

/// A measurement, or a dash where nothing runs that could be measured.
pub open spec fn measured(running: bool, words: Seq<char>) -> Seq<char> {
    if running {
        words
    } else {
        "—"@
    }
}

/// A tile that counts something.
pub open spec fn count_tile(name: Seq<char>, running: bool, n: u64, harmful: bool) -> TileView {
    TileView { name, value: measured(running, text::decimal(n as nat)), bad: harmful && n > 0 }
}

/// A tile with words on it.
pub open spec fn word_tile(name: Seq<char>, value: Seq<char>) -> TileView {
    TileView { name, value, bad: false }
}

/// The format that audio has, or a dash where it is not known.
pub open spec fn format_words(sample_rate: u32, channels: u16) -> Seq<char> {
    if sample_rate > 0 {
        text::decimal((sample_rate / 1000) as nat) + "k·"@ + text::decimal(channels as nat) + "ch"@
    } else {
        "—"@
    }
}

/// The tiles for some numbers. `buffer`, `trim` and `gain` are the buffer's fill,
/// the trim and the gain in words.
pub open spec fn tiles_for(
    mode: Mode,
    running: bool,
    stats: Stats,
    buffer: Seq<char>,
    trim: Seq<char>,
    gain: Seq<char>,
) -> Seq<TileView> {
    seq![
        count_tile("packets"@, running, stats.packets, false),
        word_tile("format"@, format_words(stats.sample_rate, stats.channels)),
    ] + (match mode {
        Mode::Receive => seq![
            word_tile("buffer"@, measured(running, buffer)),
            word_tile("trim ppm"@, measured(running, trim)),
            count_tile("underruns"@, running, stats.underruns, true),
            count_tile("overruns"@, running, stats.overruns, true),
            count_tile("lost"@, running, stats.frames_lost, true),
            count_tile("late"@, running, stats.packets_late, true),
        ],
        Mode::Send => seq![
            count_tile("dropped"@, running, stats.frames_dropped, true),
            word_tile("gain"@, gain),
        ],
    })
}

/// A tile that counts something.
fn count(name: &'static str, running: bool, n: u64, harmful: bool) -> (tile: Tile)
    ensures
        tile@ == count_tile(name@, running, n, harmful),
{
    let mut value: String = String::new();
    if running {
        text::push_decimal(&mut value, n);
    } else {
        value.append("—");
    }
    assert(value@ =~= measured(running, text::decimal(n as nat)));
    Tile { name, value, bad: harmful && n > 0 }
}

/// A tile with a measurement in words.
fn measurement(name: &'static str, running: bool, words: &str) -> (tile: Tile)
    ensures
        tile@ == word_tile(name@, measured(running, words@)),
{
    let value: String = if running {
        words.to_owned()
    } else {
        "—".to_owned()
    };
    Tile { name, value, bad: false }
}

/// The tiles for some numbers.
pub fn tiles(mode: Mode, running: bool, stats: &Stats, buffer: &str, trim: &str, gain: &str) -> (
    tiles: Vec<Tile>)
    ensures
        tile_views(tiles@) == tiles_for(mode, running, *stats, buffer@, trim@, gain@),
{
    let mut tiles: Vec<Tile> = Vec::new();
    tiles.push(count("packets", running, stats.packets, false));
    let mut format: String = String::new();
    if stats.sample_rate > 0 {
        text::push_decimal(&mut format, (stats.sample_rate / 1000) as u64);
        format.append("k·");
        text::push_decimal(&mut format, stats.channels as u64);
        format.append("ch");
    } else {
        format.append("—");
    }
    assert(format@ =~= format_words(stats.sample_rate, stats.channels));
    tiles.push(Tile { name: "format", value: format, bad: false });
    match mode {
        Mode::Receive => {
            tiles.push(measurement("buffer", running, buffer));
            tiles.push(measurement("trim ppm", running, trim));
            tiles.push(count("underruns", running, stats.underruns, true));
            tiles.push(count("overruns", running, stats.overruns, true));
            tiles.push(count("lost", running, stats.frames_lost, true));
            tiles.push(count("late", running, stats.packets_late, true));
        },
        Mode::Send => {
            tiles.push(count("dropped", running, stats.frames_dropped, true));
            tiles.push(Tile { name: "gain", value: gain.to_owned(), bad: false });
        },
    }
    assert(tile_views(tiles@) =~= tiles_for(mode, running, *stats, buffer@, trim@, gain@));
    tiles
}

/// Whether a row of tiles ends after the tile at this place.
pub fn ends_row(index: usize) -> (yes: bool)
    ensures
        yes == ((index + 1) % TILE_COLUMNS as int == 0),
{
    index % TILE_COLUMNS == TILE_COLUMNS - 1
}

/// Nothing reads as a measurement where nothing runs: all tiles show a dash but
/// those that hold no measurement, the format and a sender's gain. And no tile
/// warns of a counter at zero.
pub proof fn tiles_do_not_mislead(
    mode: Mode,
    running: bool,
    stats: Stats,
    buffer: Seq<char>,
    trim: Seq<char>,
    gain: Seq<char>,
    i: int,
)
    requires
        0 <= i < tiles_for(mode, running, stats, buffer, trim, gain).len(),
    ensures
        !running && i != 1 && (mode == Mode::Receive || i != 3) ==> tiles_for(
            mode,
            running,
            stats,
            buffer,
            trim,
            gain,
        )[i].value == "—"@,
        (stats.underruns == 0 && stats.overruns == 0 && stats.frames_lost == 0
            && stats.packets_late == 0 && stats.frames_dropped == 0) ==> !tiles_for(
            mode,
            running,
            stats,
            buffer,
            trim,
            gain,
        )[i].bad,
{
}

impl App {
    /// The tiles for the last session that was looked at.
    pub fn stats_tiles(&self, running: bool, buffer: &str, trim: &str, gain: &str) -> (shown: Vec<
        Tile,
    >)
        ensures
            match self.last {
                Some(snapshot) => tile_views(shown@) == tiles_for(
                    self.mode,
                    running,
                    snapshot.stats,
                    buffer@,
                    trim@,
                    gain@,
                ),
                None => exists|blank: Stats|
                    blank.is_blank() && tile_views(shown@) == #[trigger] tiles_for(
                        self.mode,
                        running,
                        blank,
                        buffer@,
                        trim@,
                        gain@,
                    ),
            },
    {
        match &self.last {
            Some(snapshot) => tiles(self.mode, running, &snapshot.stats, buffer, trim, gain),
            None => {
                let blank = Stats::default();
                tiles(self.mode, running, &blank, buffer, trim, gain)
            },
        }
    }

    /// The lines that are instructions rather than numbers: what to select in the
    /// game, and what to type on the other machine.
    pub open spec fn banners_say(&self) -> Seq<(Seq<char>, Seq<char>)> {
        match self.last {
            Some(snapshot) => (if snapshot.stats.game_device@.len() > 0 {
                seq![("select this in the game"@, snapshot.stats.game_device@)]
            } else {
                seq![]
            }) + (if snapshot.stats.reachable@.len() > 0 {
                seq![("send to"@, text::joined(texts(snapshot.stats.reachable@), "  or  "@))]
            } else {
                seq![]
            }),
            None => seq![],
        }
    }

    pub fn banners(&self) -> (lines: Vec<(&'static str, String)>)
        ensures
            lines@.map_values(|l: (&'static str, String)| (l.0@, l.1@)) == self.banners_say(),
    {
        let mut lines: Vec<(&'static str, String)> = Vec::new();
        if let Some(snapshot) = &self.last {
            if !snapshot.stats.game_device.as_str().is_empty() {
                lines.push(("select this in the game", snapshot.stats.game_device.clone()));
            }
            if snapshot.stats.reachable.len() > 0 {
                let mut all: String = String::new();
                text::push_joined(&mut all, snapshot.stats.reachable.as_slice(), "  or  ");
                assert(all@ =~= text::joined(texts(snapshot.stats.reachable@), "  or  "@));
                lines.push(("send to", all));
            }
        }
        assert(lines@.map_values(|l: (&'static str, String)| (l.0@, l.1@)) =~= self.banners_say());
        lines
    }

    /// The last few log lines.
    pub open spec fn tail(&self) -> Seq<Seq<char>> {
        match self.last {
            Some(snapshot) => {
                let all = texts(snapshot.log@);
                if all.len() > VISIBLE_LINES {
                    all.skip(all.len() - VISIBLE_LINES)
                } else {
                    all
                }
            },
            None => seq![],
        }
    }

    /// The last few log lines, oldest first.
    pub fn log_tail(&self) -> (lines: Vec<String>)
        ensures
            texts(lines@) == self.tail(),
    {
        let mut lines: Vec<String> = Vec::new();
        if let Some(snapshot) = &self.last {
            let first: usize = if snapshot.log.len() > VISIBLE_LINES {
                snapshot.log.len() - VISIBLE_LINES
            } else {
                0
            };
            let mut i: usize = first;
            while i < snapshot.log.len()
                invariant
                    first <= i <= snapshot.log@.len(),
                    texts(lines@) =~= texts(snapshot.log@).subrange(first as int, i as int),
                decreases snapshot.log@.len() - i,
            {
                let ghost before = lines@;
                let line = snapshot.log[i].clone();
                lines.push(line);
                assert(texts(lines@) =~= texts(before).push(line@));
                assert(texts(snapshot.log@)[i as int] == line@);
                i = i + 1;
            }
        }
        assert(texts(lines@) =~= self.tail());
        lines
    }
}

/// Whether the window was started to go straight to receiving.
pub fn wants_auto_receive(args: &[String]) -> (yes: bool)
    ensures
        yes == texts(args@).contains("--auto-receive"@),
{
    let flag: String = "--auto-receive".to_owned();
    let mut i: usize = 0;
    while i < args.len()
        invariant
            i <= args@.len(),
            flag@ == "--auto-receive"@,
            forall|j: int| 0 <= j < i ==> #[trigger] texts(args@)[j] != flag@,
        decreases args@.len() - i,
    {
        assert(texts(args@)[i as int] == args@[i as int]@);
        if args[i] == flag {
            return true;
        }
        i = i + 1;
    }
    false
}

/// What the logon entry passes to the window: the windowed build, told to go
/// straight to receiving.
pub fn autostart_args() -> (args: Vec<String>)
    ensures
        texts(args@) == seq!["--auto-receive"@],
{
    let mut args: Vec<String> = Vec::new();
    args.push("--auto-receive".to_owned());
    assert(texts(args@) =~= seq!["--auto-receive"@]);
    args
}

/// Each mode and each choice is shown in its own words: a device by its name, and
/// what stands for none by what it is.
pub proof fn each_mode_and_choice_has_its_own_words(choice: ChoiceView, mode: Mode)
    ensures
        Mode::Send.words() == "This machine captures and sends"@,
        Mode::Receive.words() == "This machine receives and plays"@,
        choice matches ChoiceView::Device(name) ==> choice.title(mode) == name,
        choice is Synthetic && mode == Mode::Send ==> choice.title(mode) == "Test tone (1 kHz)"@,
        choice is Synthetic && mode == Mode::Receive ==> choice.title(mode) == "WAV file"@,
{
}

/// All devices that could be listed are offered, in their order; a picture offers
/// those the documentation names, and no other.
pub proof fn the_devices_there_are_are_offered(names: Result<Vec<String>, String>, i: int)
    ensures
        names is Err ==> offered(names, false).len() == 0 && offered(names, true).len() == 0,
        names matches Ok(list) ==> {
            &&& offered(names, false).len() == list@.len()
            &&& 0 <= i < list@.len() ==> offered(names, false)[i] == list@[i]@
            &&& 0 <= i < list@.len() && screenshot::documented(list@[i]@) ==> offered(
                names,
                true,
            ).contains(list@[i]@)
            &&& 0 <= i < offered(names, true).len() ==> screenshot::documented(
                offered(names, true)[i],
            ) && texts(list@).contains(offered(names, true)[i])
        },
{
    let test = |name: Seq<char>| screenshot::documented(name);
    match names {
        Ok(list) => {
            let all = texts(list@);
            if 0 <= i < list@.len() && test(all[i]) {
                kept_by_the_filter(all, test, i);
            }
            if 0 <= i < all.filter(test).len() {
                passed_by_the_filter(all, test, i);
            }
        },
        Err(_) => {
            reveal(Seq::filter);
            assert(offered(names, true) =~= Seq::<Seq<char>>::empty());
        },
    }
}

proof fn kept_by_the_filter(all: Seq<Seq<char>>, test: spec_fn(Seq<char>) -> bool, i: int)
    requires
        0 <= i < all.len(),
        test(all[i]),
    ensures
        all.filter(test).contains(all[i]),
    decreases all.len(),
{
    reveal(Seq::filter);
    let rest = all.drop_last();
    let kept = all.filter(test);
    if i < rest.len() {
        kept_by_the_filter(rest, test, i);
        let k = choose|k: int| 0 <= k < rest.filter(test).len() && rest.filter(test)[k] == all[i];
        assert(kept[k] == all[i]);
    } else {
        assert(kept[kept.len() - 1] == all[i]);
    }
}

proof fn passed_by_the_filter(all: Seq<Seq<char>>, test: spec_fn(Seq<char>) -> bool, i: int)
    requires
        0 <= i < all.filter(test).len(),
    ensures
        test(all.filter(test)[i]),
        all.contains(all.filter(test)[i]),
    decreases all.len(),
{
    reveal(Seq::filter);
    let rest = all.drop_last();
    if i < rest.filter(test).len() {
        passed_by_the_filter(rest, test, i);
        let name = rest.filter(test)[i];
        let k = choose|k: int| 0 <= k < rest.len() && rest[k] == name;
        assert(all[k] == name);
    } else {
        assert(all[all.len() - 1] == all.filter(test)[i]);
    }
}

/// A device that was chosen stays chosen; where none was, the first there is becomes
/// the choice, and with no device nothing changes.
pub proof fn the_first_device_is_the_default(choice: ChoiceView, names: Seq<Seq<char>>)
    ensures
        choice is Device ==> defaulted(choice, names) == choice,
        choice is Synthetic && names.len() > 0 ==> defaulted(choice, names) == ChoiceView::Device(
            names[0],
        ),
        names.len() == 0 ==> defaulted(choice, names) == choice,
{
}

/// The microphones on offer are those of the routes, in their order.
pub proof fn the_microphones_of_the_routes_are_on_offer(routes: Seq<RouteView>)
    ensures
        mics_of(routes).len() == routes.len(),
        forall|i: int| 0 <= i < routes.len() ==> #[trigger] mics_of(routes)[i]
            == routes[i].game_mic,
{
}

/// The first route to a microphone is found, wherever it stands, and none where no
/// route leads there.
pub proof fn the_first_route_to_a_microphone_is_found(mic: Seq<char>, routes: Seq<RouteView>)
    ensures
        match route_to(mic, routes) {
            Some(route) => exists|i: int|
                {
                    &&& 0 <= i < routes.len()
                    &&& #[trigger] routes[i] == route
                    &&& route.game_mic == mic
                    &&& forall|j: int| 0 <= j < i ==> (#[trigger] routes[j]).game_mic != mic
                },
            None => forall|j: int|
                0 <= j < routes.len() ==> (#[trigger] routes[j]).game_mic != mic,
        },
    decreases routes.len(),
{
    if routes.len() > 0 {
        if routes[0].game_mic == mic {
            assert(routes[0] == route_to(mic, routes)->Some_0);
        } else {
            let rest = routes.skip(1);
            the_first_route_to_a_microphone_is_found(mic, rest);
            match route_to(mic, rest) {
                Some(route) => {
                    let i = choose|i: int|
                        {
                            &&& 0 <= i < rest.len()
                            &&& #[trigger] rest[i] == route
                            &&& route.game_mic == mic
                            &&& forall|j: int| 0 <= j < i ==> (#[trigger] rest[j]).game_mic != mic
                        };
                    assert(routes[i + 1] == route);
                    assert forall|j: int| 0 <= j < i + 1 implies (#[trigger] routes[j]).game_mic
                        != mic by {
                        if j > 0 {
                            assert(rest[j - 1] == routes[j]);
                        }
                    }
                },
                None => {
                    assert forall|j: int| 0 <= j < routes.len() implies (
                    #[trigger] routes[j]).game_mic != mic by {
                        if j > 0 {
                            assert(rest[j - 1] == routes[j]);
                        }
                    }
                },
            }
        }
    }
}

/// A session plays into what feeds the chosen microphone, into the choice itself
/// where nothing is known to feed it, and into a file where no device is chosen.
pub proof fn a_session_plays_into_what_feeds_the_microphone(app: &App)
    ensures
        ({
            let routes = virtual_device::route_views(app.routes@);
            &&& app.recv_choice matches Choice::Device(mic) ==> {
                &&& chosen_route(app.recv_choice@, routes) == route_to(mic@, routes)
                &&& app.playback() == Some(
                    match route_to(mic@, routes) {
                        Some(route) => route.render_into,
                        None => mic@,
                    },
                )
            }
            &&& app.recv_choice is Synthetic ==> app.playback() is None && chosen_route(
                app.recv_choice@,
                routes,
            ) is None
        }),
{
}

/// The window shows the state of the last session, and is idle before the first.
pub proof fn the_window_shows_the_last_session(app: &App)
    ensures
        app.last matches Some(snapshot) ==> app.phase() == snapshot.status@,
        app.last is None ==> app.phase() is Idle,
{
}

/// The tray shows the level while a session runs, and a receiver's buffer behind it;
/// otherwise it shows nothing.
pub proof fn the_tray_shows_the_level(app: &App, running: bool, level: Option<&str>, fill: &str)
    ensures
        ({
            let shown = app.tray_detail(running, level, fill);
            let heard = match level {
                Some(db) => db@ + " dB"@,
                None => "no signal"@,
            };
            &&& !running ==> shown.len() == 0
            &&& running && !(app.mode == Mode::Receive && app.last is Some) ==> shown == heard
            &&& running && app.mode == Mode::Receive && app.last is Some ==> shown == heard
                + " · "@ + fill@ + " ms"@
        }),
{
}

/// All receivers but the first are named, in their order.
pub proof fn the_other_receivers_are_named(found: Seq<Receiver>, i: int)
    requires
        0 < i < found.len(),
    ensures
        other_addresses(found).len() == found.len() - 1,
        other_addresses(found)[i - 1] == found[i].address@,
{
}

/// What the window says of a search: that it failed, that it is under way, what it
/// found, what it can find, or that nothing answered, and whether the host that was
/// typed does.
pub proof fn the_window_says_what_a_search_came_to(app: &App)
    ensures
        ({
            let says = app.find_says();
            let quiet = app.find_error is None && !app.searching;
            &&& app.find_error matches Some(err) ==> says.text == "search failed: "@ + err@
                && says.tone == Tone::Bad
            &&& app.find_error is None && app.searching ==> says.text
                == "Looking on the local network..."@ && says.tone == Tone::Weak
            &&& quiet && app.found@.len() == 1 ==> says.text == "Found "@ + app.found@[0].label@
                && says.tone == Tone::Weak
            &&& quiet && app.found@.len() > 1 ==> says.text == "Found "@ + text::decimal(
                app.found@.len(),
            ) + " receivers; using "@ + app.host@ + ". Others: "@ + text::joined(
                other_addresses(app.found@),
                ", "@,
            ) && says.tone == Tone::Weak
            &&& quiet && app.found@.len() == 0 && !app.searched ==> says.tone == Tone::Weak
                && says.text
                == "Find searches the local network only — it does not reach across Tailscale, a VPN, or a routed subnet. Type the address the receiver prints if it comes back empty."@
            &&& quiet && app.found@.len() == 0 && app.searched && app.host_answers ==> says.tone
                == Tone::Good && says.text == "Discovery found nothing, but "@ + text::trimmed(
                app.host@,
            ) + " is answering on "@ + text::decimal(app.port as nat)
                + " — press Start. Something on the receiver is blocking UDP "@ + text::decimal(
                42102,
            ) + ", usually a firewall. That affects Find only, not audio."@
            &&& quiet && app.found@.len() == 0 && app.searched && !app.host_answers ==> says.tone
                == Tone::Warn && says.text
                == "Nothing answered. Discovery is a local broadcast: it does not cross Tailscale, a VPN, or a routed network, and a firewall on the receiver can block it even on the same network. Type the address the receiver prints when it starts."@
        }),
{
}

/// A gain is heavy above twelve decibels: the bit patterns of positive numbers are in
/// their order, and from 12 dB, which is not, up to infinity all are.
pub proof fn a_gain_above_twelve_decibels_is_heavy(app: &App)
    ensures
        app.boosts() <==> 0x4140_0000 < app.gain_db_bits && app.gain_db_bits <= 0x7F80_0000,
{
}

/// What the window says of where audio goes: into a file, into the device that feeds
/// the microphone, with a note where that may be wrong, or that nothing is known to
/// feed it.
pub proof fn the_window_says_where_audio_goes(app: &App)
    ensures
        ({
            let says = app.sink_says();
            let routes = virtual_device::route_views(app.routes@);
            &&& app.recv_choice is Synthetic ==> says.len() == 1 && says[0].text
                == "Writes to a file. Useful for testing with no hardware."@ && says[0].tone
                == Tone::Weak
            &&& app.recv_choice matches Choice::Device(mic) ==> match route_to(mic@, routes) {
                Some(route) => {
                    &&& says[0].text == "Audio is sent to "@ + text::quoted(route.render_into)
                    &&& says[0].tone == Tone::Weak
                    &&& says.len() == if route.how == Pairing::NamedPair {
                        1int
                    } else {
                        2
                    }
                    &&& route.how == Pairing::SameName ==> says[1].text == "Note: "@
                        + route.how.words() && says[1].tone == Tone::Warn
                },
                None => {
                    &&& says.len() == 1
                    &&& says[0].tone == Tone::Warn
                    &&& routes.len() == 0 ==> says[0].text
                        == "No microphone on this machine can be fed by an app. Install a virtual audio cable, or choose the WAV file option to test without one."@
                    &&& routes.len() > 0 ==> says[0].text
                        == "Could not work out which device feeds this microphone; treating the selection as a playback device."@
                },
            }
        }),
{
}

/// Under the buttons stands what is starting or why it failed, and then whether the
/// devices could be listed; nothing where there is nothing to say.
pub proof fn the_window_says_what_went_wrong(app: &App)
    ensures
        ({
            let says = app.control_says();
            let first: int = if app.phase() is Starting || app.phase() is Failed {
                1
            } else {
                0
            };
            &&& says.len() == first + if app.device_error is Some {
                1int
            } else {
                0
            }
            &&& app.phase() matches StatusView::Starting(what) ==> says[0].text == what
                && says[0].tone == Tone::Muted
            &&& app.phase() matches StatusView::Failed(err) ==> says[0].text == err && says[0].tone
                == Tone::Bad
            &&& app.device_error matches Some(err) ==> says[first].text
                == "device enumeration failed: "@ + err@ && says[first].tone == Tone::Bad
        }),
{
}

/// Lines and tiles say what they hold, in their order.
pub proof fn lines_and_tiles_say_what_they_hold(notes: Seq<Note>, tiles: Seq<Tile>)
    ensures
        note_views(notes).len() == notes.len(),
        forall|i: int|
            0 <= i < notes.len() ==> (#[trigger] note_views(notes)[i]).text == notes[i].text@
                && note_views(notes)[i].tone == notes[i].tone,
        tile_views(tiles).len() == tiles.len(),
        forall|i: int|
            0 <= i < tiles.len() ==> (#[trigger] tile_views(tiles)[i]).name == tiles[i].name@
                && tile_views(tiles)[i].value == tiles[i].value@ && tile_views(tiles)[i].bad
                == tiles[i].bad,
{
}

/// While a session runs each tile shows its own number, in decimal, and warns where
/// that is a loss and not zero.
pub proof fn each_tile_shows_its_own_number(
    stats: Stats,
    buffer: Seq<char>,
    trim: Seq<char>,
    gain: Seq<char>,
)
    ensures
        ({
            let shown = tiles_for(Mode::Receive, true, stats, buffer, trim, gain);
            let format = if stats.sample_rate > 0 {
                text::decimal((stats.sample_rate / 1000) as nat) + "k·"@ + text::decimal(
                    stats.channels as nat,
                ) + "ch"@
            } else {
                "—"@
            };
            let of = |n: u64| text::decimal(n as nat);
            &&& shown.len() == 8
            &&& shown[0] == (TileView { name: "packets"@, value: of(stats.packets), bad: false })
            &&& shown[1] == (TileView { name: "format"@, value: format, bad: false })
            &&& shown[2] == (TileView { name: "buffer"@, value: buffer, bad: false })
            &&& shown[3] == (TileView { name: "trim ppm"@, value: trim, bad: false })
            &&& shown[4] == (TileView {
                name: "underruns"@,
                value: of(stats.underruns),
                bad: stats.underruns > 0,
            })
            &&& shown[5] == (TileView {
                name: "overruns"@,
                value: of(stats.overruns),
                bad: stats.overruns > 0,
            })
            &&& shown[6] == (TileView {
                name: "lost"@,
                value: of(stats.frames_lost),
                bad: stats.frames_lost > 0,
            })
            &&& shown[7] == (TileView {
                name: "late"@,
                value: of(stats.packets_late),
                bad: stats.packets_late > 0,
            })
        }),
        ({
            let shown = tiles_for(Mode::Send, true, stats, buffer, trim, gain);
            let of = |n: u64| text::decimal(n as nat);
            &&& shown.len() == 4
            &&& shown[0] == (TileView { name: "packets"@, value: of(stats.packets), bad: false })
            &&& shown[1] == tiles_for(Mode::Receive, true, stats, buffer, trim, gain)[1]
            &&& shown[2] == (TileView {
                name: "dropped"@,
                value: of(stats.frames_dropped),
                bad: stats.frames_dropped > 0,
            })
            &&& shown[3] == (TileView { name: "gain"@, value: gain, bad: false })
        }),
{
}

/// Whether a session runs makes no difference to which tiles there are, nor to which
/// of them warn.
pub proof fn the_same_tiles_stand_when_nothing_runs(
    mode: Mode,
    stats: Stats,
    buffer: Seq<char>,
    trim: Seq<char>,
    gain: Seq<char>,
    i: int,
)
    requires
        0 <= i < tiles_for(mode, true, stats, buffer, trim, gain).len(),
    ensures
        ({
            let on = tiles_for(mode, true, stats, buffer, trim, gain);
            let off = tiles_for(mode, false, stats, buffer, trim, gain);
            &&& on.len() == off.len()
            &&& on[i].name == off[i].name
            &&& on[i].bad == off[i].bad
            &&& i == 1 || mode == Mode::Send && i == 3 ==> on[i].value == off[i].value
        }),
{
}

/// What to select in the game is shown where something is fed, and what to type on
/// the other machine where there is an address.
pub proof fn instructions_are_shown_where_there_are_any(app: &App)
    ensures
        app.last is None ==> app.banners_say().len() == 0,
        app.last matches Some(snapshot) ==> {
            let fed: int = if snapshot.stats.game_device@.len() > 0 {
                1
            } else {
                0
            };
            let reached: int = if snapshot.stats.reachable@.len() > 0 {
                1
            } else {
                0
            };
            &&& app.banners_say().len() == fed + reached
            &&& fed == 1 ==> app.banners_say()[0] == (
                "select this in the game"@,
                snapshot.stats.game_device@,
            )
            &&& reached == 1 ==> app.banners_say()[fed] == (
                "send to"@,
                text::joined(texts(snapshot.stats.reachable@), "  or  "@),
            )
        },
{
}

/// The last six lines of the log are shown, oldest first, and all of a shorter one.
pub proof fn the_last_lines_are_shown(app: &App)
    ensures
        app.last is None ==> app.tail().len() == 0,
        app.last matches Some(snapshot) ==> {
            let lines = snapshot.log@.len();
            &&& app.tail().len() == if lines < 6 {
                lines
            } else {
                6
            }
            &&& forall|i: int|
                0 <= i < app.tail().len() ==> #[trigger] app.tail()[i] == snapshot.log@[lines
                    - app.tail().len() + i]@
        },
{
}

/// A choice says what it holds.
pub proof fn a_choice_says_what_it_holds(choice: Choice)
    ensures
        choice is Synthetic <==> choice@ is Synthetic,
        choice matches Choice::Device(name) ==> choice@ == ChoiceView::Device(name@),
{
}

/// A running session is drawn thirty times a second and an idle window four times;
/// the tone is 1000 Hz, and tiles stand four in a row.
pub proof fn the_window_keeps_its_measures()
    ensures
        30 * ACTIVE_REPAINT_MS <= 1000 < 31 * ACTIVE_REPAINT_MS,
        4 * IDLE_REPAINT_MS == 1000,
        TONE_HZ_BITS == 0x408F_4000_0000_0000,
        TILE_COLUMNS == 4,
        VISIBLE_LINES == 6,
{
}

} // verus!
