//! Live session state, shared between the session thread and whoever is
//! watching.

use std::collections::VecDeque;

use vstd::prelude::*;

use crate::protocol::api::ReceiverStats;
use crate::signal::gain::Gain;
use crate::signal::level::LevelMeter;
use crate::signal::gain;
use crate::text::{copy_texts, texts};

verus! {

/// How many log lines are kept for display.
pub const LOG_CAPACITY: usize = 200;

/// Where a session has got to.
#[derive(Debug, PartialEq, Eq)]
pub enum Status {
    /// Not started.
    Idle,
    /// Opening devices, connecting, or waiting for a sender to appear.
    Starting(String),
    /// Handshake done and audio moving.
    Running,
    /// Ended cleanly.
    Stopped,
    /// Ended with an error, with its causes.
    Failed(String),
}

/// What a [`Status`] says.
pub enum StatusView {
    Idle,
    Starting(Seq<char>),
    Running,
    Stopped,
    Failed(Seq<char>),
}

impl View for Status {
    type V = StatusView;

    open spec fn view(&self) -> StatusView {
        match self {
            Status::Idle => StatusView::Idle,
            Status::Starting(what) => StatusView::Starting(what@),
            Status::Running => StatusView::Running,
            Status::Stopped => StatusView::Stopped,
            Status::Failed(err) => StatusView::Failed(err@),
        }
    }
}

impl Clone for Status {
    fn clone(&self) -> (status: Self)
        ensures
            status@ == self@,
    {
        match self {
            Status::Idle => Status::Idle,
            Status::Starting(what) => Status::Starting(what.clone()),
            Status::Running => Status::Running,
            Status::Stopped => Status::Stopped,
            Status::Failed(err) => Status::Failed(err.clone()),
        }
    }
}

impl StatusView {
    /// A short label for display.
    pub open spec fn word(self) -> Seq<char> {
        match self {
            StatusView::Idle => "Idle"@,
            StatusView::Starting(_) => "Starting"@,
            StatusView::Running => "Running"@,
            StatusView::Stopped => "Stopped"@,
            StatusView::Failed(_) => "Failed"@,
        }
    }

    /// The session is doing something.
    pub open spec fn active(self) -> bool {
        self is Starting || self is Running
    }

    /// The log line for entering the status, if it gets one.
    pub open spec fn line(self) -> Option<Seq<char>> {
        match self {
            StatusView::Idle => None,
            StatusView::Starting(what) => Some("starting: "@ + what),
            StatusView::Running => Some("running"@),
            StatusView::Stopped => Some("stopped"@),
            StatusView::Failed(err) => Some("failed: "@ + err),
        }
    }
}

impl Status {
    pub fn is_active(&self) -> (yes: bool)
        ensures
            yes == self@.active(),
    {
        matches!(self, Status::Starting(_) | Status::Running)
    }

    /// A short label for display.
    pub fn label(&self) -> (word: &'static str)
        ensures
            word@ == self@.word(),
    {
        match self {
            Status::Idle => "Idle",
            Status::Starting(_) => "Starting",
            Status::Running => "Running",
            Status::Stopped => "Stopped",
            Status::Failed(_) => "Failed",
        }
    }
}

/// Numbers worth showing. One struct for both directions; the fields the
/// current direction does not produce stay zero.
#[derive(Debug, PartialEq, Eq)]
pub struct Stats {
    pub packets: u64,
    /// The bit pattern of the buffer fill in milliseconds, single precision.
    pub fill_bits: u32,
    /// The bit pattern of the resampler trim in parts per million, double
    /// precision.
    pub trim_bits: u64,
    pub underruns: u64,
    pub overruns: u64,
    pub frames_lost: u64,
    pub packets_late: u64,
    /// Sender side: capture frames dropped because the network thread fell
    /// behind.
    pub frames_dropped: u64,
    pub sample_rate: u32,
    pub channels: u16,
    /// What the session is actually talking to: a device name, or a file path.
    pub endpoint: String,
    /// The recording device a game should select as its microphone. Empty when
    /// the sink feeds none.
    pub game_device: String,
    /// Addresses a peer could reach this receiver on.
    pub reachable: Vec<String>,
    /// The receiver's actual listening address, once bound.
    pub local_addr: String,
}

impl Stats {
    /// Two sets of numbers say the same.
    pub open spec fn same(&self, other: &Stats) -> bool {
        &&& self.packets == other.packets
        &&& self.fill_bits == other.fill_bits
        &&& self.trim_bits == other.trim_bits
        &&& self.underruns == other.underruns
        &&& self.overruns == other.overruns
        &&& self.frames_lost == other.frames_lost
        &&& self.packets_late == other.packets_late
        &&& self.frames_dropped == other.frames_dropped
        &&& self.sample_rate == other.sample_rate
        &&& self.channels == other.channels
        &&& self.endpoint@ == other.endpoint@
        &&& self.game_device@ == other.game_device@
        &&& texts(self.reachable@) == texts(other.reachable@)
        &&& self.local_addr@ == other.local_addr@
    }

    /// Nothing has been measured.
    pub open spec fn is_blank(&self) -> bool {
        &&& self.packets == 0
        &&& self.fill_bits == 0
        &&& self.trim_bits == 0
        &&& self.underruns == 0
        &&& self.overruns == 0
        &&& self.frames_lost == 0
        &&& self.packets_late == 0
        &&& self.frames_dropped == 0
        &&& self.sample_rate == 0
        &&& self.channels == 0
        &&& self.endpoint@ == Seq::<char>::empty()
        &&& self.game_device@ == Seq::<char>::empty()
        &&& self.reachable@ == Seq::<String>::empty()
        &&& self.local_addr@ == Seq::<char>::empty()
    }
}

impl Stats {
    /// A receiver is listening: where, and on which addresses a peer could reach
    /// it.
    pub fn listening(self, local_addr: String, reachable: Vec<String>) -> (stats: Self)
        ensures
            stats == (Stats { local_addr, reachable, ..self }),
    {
        Stats { local_addr, reachable, ..self }
    }

    /// A stream was agreed on, from or to this endpoint.
    pub fn streaming(self, sample_rate: u32, channels: u16, endpoint: String) -> (stats: Self)
        ensures
            stats == (Stats { sample_rate, channels, endpoint, ..self }),
    {
        Stats { sample_rate, channels, endpoint, ..self }
    }

    /// The output feeds this microphone, or none.
    pub fn feeding(self, game_device: String) -> (stats: Self)
        ensures
            stats == (Stats { game_device, ..self }),
    {
        Stats { game_device, ..self }
    }

    /// A receiver's own numbers, `trim_bits` being the trim they amount to.
    pub fn playing(self, report: &ReceiverStats, trim_bits: u64) -> (stats: Self)
        ensures
            stats == (Stats {
                packets: report.packets_received,
                fill_bits: report.buffer_fill_bits,
                trim_bits,
                underruns: report.underruns,
                overruns: report.overruns,
                frames_lost: report.frames_lost,
                packets_late: report.packets_late,
                ..self
            }),
    {
        Stats {
            packets: report.packets_received,
            fill_bits: report.buffer_fill_bits,
            trim_bits,
            underruns: report.underruns,
            overruns: report.overruns,
            frames_lost: report.frames_lost,
            packets_late: report.packets_late,
            ..self
        }
    }

    /// A sender's own numbers.
    pub fn sending(self, packets: u64, frames_dropped: u64) -> (stats: Self)
        ensures
            stats == (Stats { packets, frames_dropped, ..self }),
    {
        Stats { packets, frames_dropped, ..self }
    }

    /// What a receiver told a sender: the sender has no view of the buffer, so
    /// these are the only numbers of it worth showing.
    pub fn told(self, report: &ReceiverStats) -> (stats: Self)
        ensures
            stats == (Stats {
                fill_bits: report.buffer_fill_bits,
                underruns: report.underruns,
                overruns: report.overruns,
                frames_lost: report.frames_lost,
                packets_late: report.packets_late,
                ..self
            }),
    {
        Stats {
            fill_bits: report.buffer_fill_bits,
            underruns: report.underruns,
            overruns: report.overruns,
            frames_lost: report.frames_lost,
            packets_late: report.packets_late,
            ..self
        }
    }

    /// What a sender told a receiver: how many frames it dropped.
    pub fn losing(self, frames_dropped: u64) -> (stats: Self)
        ensures
            stats == (Stats { frames_dropped, ..self }),
    {
        Stats { frames_dropped, ..self }
    }
}

impl Default for Stats {
    fn default() -> (stats: Self)
        ensures
            stats.is_blank(),
    {
        Self {
            packets: 0,
            fill_bits: 0,
            trim_bits: 0,
            underruns: 0,
            overruns: 0,
            frames_lost: 0,
            packets_late: 0,
            frames_dropped: 0,
            sample_rate: 0,
            channels: 0,
            endpoint: String::new(),
            game_device: String::new(),
            reachable: Vec::new(),
            local_addr: String::new(),
        }
    }
}

impl Clone for Stats {
    fn clone(&self) -> (stats: Self)
        ensures
            stats.same(self),
    {
        Self {
            packets: self.packets,
            fill_bits: self.fill_bits,
            trim_bits: self.trim_bits,
            underruns: self.underruns,
            overruns: self.overruns,
            frames_lost: self.frames_lost,
            packets_late: self.packets_late,
            frames_dropped: self.frames_dropped,
            sample_rate: self.sample_rate,
            channels: self.channels,
            endpoint: self.endpoint.clone(),
            game_device: self.game_device.clone(),
            reachable: copy_texts(&self.reachable),
            local_addr: self.local_addr.clone(),
        }
    }
}

/// Everything a watcher can see, captured at one moment.
#[derive(Debug, PartialEq, Eq)]
pub struct Snapshot {
    pub status: Status,
    pub stats: Stats,
    /// The bit pattern of the peak magnitude since the previous snapshot.
    pub level_bits: u32,
    pub log: Vec<String>,
}

/// A log after one more line: the oldest line goes where it is full.
pub open spec fn logged(log: Seq<Seq<char>>, line: Seq<char>) -> Seq<Seq<char>> {
    if log.len() >= LOG_CAPACITY {
        log.skip(1).push(line)
    } else {
        log.push(line)
    }
}

/// Observable session state.
pub struct SessionState {
    stop: bool,
    status: Status,
    stats: Stats,
    log: VecDeque<String>,
    level: LevelMeter,
    gain: Gain,
}

impl Default for SessionState {
    fn default() -> (state: Self)
        ensures
            state.is_new(),
    {
        Self::new()
    }
}

impl SessionState {
    pub closed spec fn stopping(&self) -> bool {
        self.stop
    }

    pub closed spec fn phase(&self) -> StatusView {
        self.status@
    }

    pub closed spec fn numbers(&self) -> Stats {
        self.stats
    }

    /// The lines kept, oldest first.
    pub closed spec fn lines(&self) -> Seq<Seq<char>> {
        texts(self.log@)
    }

    /// The bit pattern of the peak held.
    pub closed spec fn peak(&self) -> u32 {
        self.level@
    }

    /// The bit pattern of the gain's factor.
    pub closed spec fn factor(&self) -> u32 {
        self.gain@
    }

    /// Idle, not stopping, with nothing measured or logged and unity gain.
    pub open spec fn is_new(&self) -> bool {
        &&& !self.stopping()
        &&& self.phase() is Idle
        &&& self.numbers().is_blank()
        &&& self.lines() == Seq::<Seq<char>>::empty()
        &&& self.peak() == 0
        &&& self.factor() == gain::UNITY_BITS
    }

    /// Everything but the log and the status is as in `other`.
    pub open spec fn same_numbers(&self, other: &SessionState) -> bool {
        &&& self.stopping() == other.stopping()
        &&& self.numbers() == other.numbers()
        &&& self.peak() == other.peak()
        &&& self.factor() == other.factor()
    }

    pub fn new() -> (state: Self)
        ensures
            state.is_new(),
    {
        let state = Self {
            stop: false,
            status: Status::Idle,
            stats: Stats::default(),
            log: VecDeque::new(),
            level: LevelMeter::new(),
            gain: Gain::unity(),
        };
        assert(state.lines() =~= Seq::<Seq<char>>::empty());
        state
    }

    /// The meter the audio callbacks write into.
    pub fn level_meter(&self) -> (meter: LevelMeter)
        ensures
            meter@ == self.peak(),
    {
        self.level
    }

    /// Takes note of a block's peak magnitude, by its bit pattern.
    pub fn record_peak(&mut self, peak: u32)
        ensures
            final(self).stopping() == old(self).stopping(),
            final(self).phase() == old(self).phase(),
            final(self).numbers() == old(self).numbers(),
            final(self).lines() == old(self).lines(),
            final(self).factor() == old(self).factor(),
            final(self).peak() == crate::signal::level::held_after(old(self).peak(), peak),
    {
        self.level.record_peak(peak);
    }

    /// The session's gain.
    pub fn gain(&self) -> (gain: Gain)
        ensures
            gain@ == self.factor(),
    {
        self.gain
    }

    /// Changes the session's gain while it runs.
    pub fn set_gain(&mut self, gain: Gain)
        ensures
            final(self).factor() == gain@,
            final(self).stopping() == old(self).stopping(),
            final(self).phase() == old(self).phase(),
            final(self).numbers() == old(self).numbers(),
            final(self).lines() == old(self).lines(),
            final(self).peak() == old(self).peak(),
    {
        self.gain = gain;
    }

    pub fn request_stop(&mut self)
        ensures
            final(self).stopping(),
            final(self).phase() == old(self).phase(),
            final(self).numbers() == old(self).numbers(),
            final(self).lines() == old(self).lines(),
            final(self).peak() == old(self).peak(),
            final(self).factor() == old(self).factor(),
    {
        self.stop = true;
    }

    pub fn stop_requested(&self) -> (yes: bool)
        ensures
            yes == self.stopping(),
    {
        self.stop
    }

    /// Clears the stop flag so the same state can drive another session.
    pub fn rearm(&mut self)
        ensures
            !final(self).stopping(),
            final(self).phase() == old(self).phase(),
            final(self).numbers() == old(self).numbers(),
            final(self).lines() == old(self).lines(),
            final(self).peak() == old(self).peak(),
            final(self).factor() == old(self).factor(),
    {
        self.stop = false;
    }

    /// Enters a status. Every transition but the one to idle is logged.
    pub fn set_status(&mut self, status: Status)
        ensures
            final(self).phase() == status@,
            final(self).same_numbers(old(self)),
            final(self).lines() == match status@.line() {
                Some(line) => logged(old(self).lines(), line),
                None => old(self).lines(),
            },
    {
        match &status {
            Status::Starting(what) => {
                let mut line = "starting: ".to_owned();
                line.append(what.as_str());
                self.push_log(line);
            },
            Status::Running => self.push_log("running".to_owned()),
            Status::Stopped => self.push_log("stopped".to_owned()),
            Status::Failed(err) => {
                let mut line = "failed: ".to_owned();
                line.append(err.as_str());
                self.push_log(line);
            },
            Status::Idle => {},
        }
        self.status = status;
    }

    /// Starts a session. Done before its thread is there, so that whoever looks
    /// at once finds it active: an idle session is one that was never started.
    pub fn begin(&mut self)
        ensures
            final(self).phase() == StatusView::Starting("initialising"@),
            final(self).phase().active(),
            final(self).same_numbers(old(self)),
            final(self).lines() == logged(old(self).lines(), "starting: "@ + "initialising"@),
    {
        self.set_status(Status::Starting("initialising".to_owned()));
    }

    /// Ends a session with its outcome, an error standing with its causes.
    pub fn finish(&mut self, outcome: Result<(), String>)
        ensures
            final(self).phase() == (match outcome {
                Ok(_) => StatusView::Stopped,
                Err(message) => StatusView::Failed(message@),
            }),
            !final(self).phase().active(),
            final(self).same_numbers(old(self)),
            final(self).lines() == logged(
                old(self).lines(),
                match outcome {
                    Ok(_) => "stopped"@,
                    Err(message) => "failed: "@ + message@,
                },
            ),
    {
        match outcome {
            Ok(_) => self.set_status(Status::Stopped),
            Err(message) => self.set_status(Status::Failed(message)),
        }
    }

    pub fn status(&self) -> (status: Status)
        ensures
            status@ == self.phase(),
    {
        self.status.clone()
    }

    pub fn set_stats(&mut self, stats: Stats)
        ensures
            final(self).numbers() == stats,
            final(self).stopping() == old(self).stopping(),
            final(self).phase() == old(self).phase(),
            final(self).lines() == old(self).lines(),
            final(self).peak() == old(self).peak(),
            final(self).factor() == old(self).factor(),
    {
        self.stats = stats;
    }

    /// Applies a change to the current stats, so that the sender's and the
    /// receiver's separate updates do not clobber each other.
    pub fn update_stats<F: FnOnce(Stats) -> Stats>(&mut self, edit: F)
        requires
            forall|stats: Stats| call_requires(edit, (stats,)),
        ensures
            exists|before: Stats|
                before.same(&old(self).numbers()) && #[trigger] call_ensures(
                    edit,
                    (before,),
                    final(self).numbers(),
                ),
            final(self).stopping() == old(self).stopping(),
            final(self).phase() == old(self).phase(),
            final(self).lines() == old(self).lines(),
            final(self).peak() == old(self).peak(),
            final(self).factor() == old(self).factor(),
    {
        let before = self.stats.clone();
        let ghost given = before;
        let after = edit(before);
        self.stats = after;
        assert(given.same(&old(self).numbers()));
        assert(call_ensures(edit, (given,), self.numbers()));
    }

    pub fn stats(&self) -> (stats: Stats)
        ensures
            stats.same(&self.numbers()),
    {
        self.stats.clone()
    }

    /// Adds a log line, dropping the oldest where the log is full.
    pub fn push_log(&mut self, line: String)
        ensures
            final(self).lines() == logged(old(self).lines(), line@),
            final(self).phase() == old(self).phase(),
            final(self).same_numbers(old(self)),
    {
        let ghost before = self.log@;
        if self.log.len() >= LOG_CAPACITY {
            let _ = self.log.pop_front();
        }
        self.log.push_back(line);
        assert(self.lines() =~= logged(texts(before), line@));
    }

    /// Reads everything at once. Takes the level meter's peak, so consecutive
    /// calls each report the interval since the last.
    pub fn snapshot(&mut self) -> (snapshot: Snapshot)
        ensures
            snapshot.status@ == old(self).phase(),
            snapshot.stats.same(&old(self).numbers()),
            snapshot.level_bits == old(self).peak(),
            texts(snapshot.log@) == old(self).lines(),
            final(self).peak() == 0,
            final(self).stopping() == old(self).stopping(),
            final(self).phase() == old(self).phase(),
            final(self).numbers() == old(self).numbers(),
            final(self).lines() == old(self).lines(),
            final(self).factor() == old(self).factor(),
    {
        let mut log: Vec<String> = Vec::new();
        let mut i: usize = 0;
        while i < self.log.len()
            invariant
                i <= self.log@.len(),
                texts(log@) =~= texts(self.log@).take(i as int),
            decreases self.log@.len() - i,
        {
            let ghost before = log@;
            let line = self.log[i].clone();
            log.push(line);
            assert(texts(log@) =~= texts(before).push(line@));
            assert(texts(self.log@)[i as int] == line@);
            i = i + 1;
        }
        let status = self.status();
        let stats = self.stats();
        let level_bits: u32 = self.level.take();
        Snapshot { status, stats, level_bits, log }
    }
}

/// The log is bounded and keeps the newest: after any lines, it is the end of
/// the old log followed by those lines.
pub open spec fn logged_all(log: Seq<Seq<char>>, lines: Seq<Seq<char>>) -> Seq<Seq<char>>
    decreases lines.len(),
{
    if lines.len() == 0 {
        log
    } else {
        logged(logged_all(log, lines.drop_last()), lines.last())
    }
}

/// A bounded log never grows past its bound, and what it drops is the oldest:
/// it is always the end of everything that was ever logged.
pub proof fn the_log_keeps_the_newest_lines(log: Seq<Seq<char>>, lines: Seq<Seq<char>>)
    requires
        log.len() <= LOG_CAPACITY,
    ensures
        ({
            let all = log + lines;
            let kept = logged_all(log, lines);
            &&& kept.len() == if all.len() <= LOG_CAPACITY {
                all.len()
            } else {
                LOG_CAPACITY as nat
            }
            &&& kept == all.skip(all.len() - kept.len())
        }),
    decreases lines.len(),
{
    let all = log + lines;
    if lines.len() == 0 {
        assert(all =~= log);
        assert(all.skip(0) =~= all);
    } else {
        the_log_keeps_the_newest_lines(log, lines.drop_last());
        assert(all.drop_last() =~= log + lines.drop_last());
        let kept = logged_all(log, lines);
        assert(kept =~= all.skip(all.len() - kept.len()));
    }
}

/// The log keeps two hundred lines, and one more puts the oldest out.
pub proof fn the_log_keeps_two_hundred_lines(log: Seq<Seq<char>>, line: Seq<char>)
    ensures
        logged(log, line).last() == line,
        log.len() < 200 ==> logged(log, line).drop_last() == log,
        log.len() >= 200 ==> logged(log, line).drop_last() == log.skip(1),
{
    assert(log.push(line).drop_last() =~= log);
    if log.len() >= 200 {
        assert(log.skip(1).push(line).drop_last() =~= log.skip(1));
    }
}

/// A session is active while it starts and while it runs, and each status has its
/// own word and, all but idle, its own line in the log.
pub proof fn each_status_has_its_own_words(status: StatusView)
    ensures
        status.active() <==> status is Starting || status is Running,
        status is Idle ==> status.word() == "Idle"@ && status.line() is None,
        status matches StatusView::Starting(what) ==> status.word() == "Starting"@
            && status.line() == Some("starting: "@ + what),
        status is Running ==> status.word() == "Running"@ && status.line() == Some("running"@),
        status is Stopped ==> status.word() == "Stopped"@ && status.line() == Some("stopped"@),
        status matches StatusView::Failed(err) ==> status.word() == "Failed"@ && status.line()
            == Some("failed: "@ + err),
{
}

/// Numbers that say the same say the same of everything.
pub proof fn the_same_numbers_are_the_same_in_all(a: &Stats, b: &Stats)
    requires
        a.same(b),
    ensures
        (a.packets, a.underruns, a.overruns) == (b.packets, b.underruns, b.overruns),
        (a.frames_lost, a.packets_late, a.frames_dropped) == (
            b.frames_lost,
            b.packets_late,
            b.frames_dropped,
        ),
        (a.fill_bits, a.trim_bits) == (b.fill_bits, b.trim_bits),
        (a.sample_rate, a.channels) == (b.sample_rate, b.channels),
        (a.endpoint@, a.game_device@) == (b.endpoint@, b.game_device@),
        a.local_addr@ == b.local_addr@,
        a.reachable@.len() == b.reachable@.len(),
        forall|i: int|
            0 <= i < a.reachable@.len() ==> (#[trigger] a.reachable@[i])@ == b.reachable@[i]@,
{
    assert(texts(a.reachable@).len() == a.reachable@.len());
    assert(texts(b.reachable@).len() == b.reachable@.len());
    assert forall|i: int| 0 <= i < a.reachable@.len() implies (#[trigger] a.reachable@[i])@
        == b.reachable@[i]@ by {
        assert(texts(a.reachable@)[i] == texts(b.reachable@)[i]);
    }
}

/// A session that was never started has no number to show, no line and no peak, is
/// idle and not stopping, and leaves samples as they are.
pub proof fn a_new_session_has_nothing_to_show(state: SessionState)
    requires
        state.is_new(),
    ensures
        !state.stopping(),
        state.phase() is Idle,
        state.lines().len() == 0,
        state.peak() == 0,
        state.factor() == 0x3f80_0000,
        ({
            let n = state.numbers();
            &&& (n.packets, n.underruns, n.overruns) == (0u64, 0u64, 0u64)
            &&& (n.frames_lost, n.packets_late, n.frames_dropped) == (0u64, 0u64, 0u64)
            &&& (n.fill_bits, n.trim_bits) == (0u32, 0u64)
            &&& (n.sample_rate, n.channels) == (0u32, 0u16)
            &&& n.endpoint@.len() == 0 && n.game_device@.len() == 0 && n.local_addr@.len() == 0
            &&& n.reachable@.len() == 0
        }),
{
}

/// What a change of status or a log line leaves alone.
pub proof fn a_change_of_status_keeps_the_numbers(a: &SessionState, b: &SessionState)
    requires
        a.same_numbers(b),
    ensures
        a.stopping() == b.stopping(),
        a.numbers() == b.numbers(),
        a.peak() == b.peak(),
        a.factor() == b.factor(),
{
}

/// A status says what it holds.
pub proof fn a_status_says_what_it_holds(status: Status)
    ensures
        status is Idle <==> status@ is Idle,
        status is Running <==> status@ is Running,
        status is Stopped <==> status@ is Stopped,
        status matches Status::Starting(what) ==> status@ == StatusView::Starting(what@),
        status matches Status::Failed(why) ==> status@ == StatusView::Failed(why@),
{
}

} // verus!
