//! The window's state.
//!
//! Three tabs. **Downloads** is the one the app opens on and the one that does
//! the work: the subscription list goes in at the top, the podcasts it contains
//! are listed on the left to be picked from, what the run is doing is written on
//! the right, and the progress bar spans the width underneath both.
//! **Transcripts** turns episodes already on disk into text, laid out the same
//! way and driven by [`transcribe`](crate::transcribe) rather than the download
//! engine. **Settings** holds the things that are set once and then left alone.
//!
//! The OPML is read as soon as it is chosen rather than when the run starts,
//! because the list of podcasts is what the left pane is for — you cannot choose
//! from a list that only exists once you have committed to downloading all of it.
//!
//! Nothing here draws, and nothing here touches the disk or the network. What
//! the state wants done is put in [`PodBatchApp::todo`] for whoever drives it.

use crate::document::Format;
use crate::document::Style;
use crate::engine::topped;
use crate::engine::Cancel;
use crate::engine::EpisodeState;
use crate::engine::EpisodeStatus;
use crate::engine::FeedState;
use crate::engine::FeedStatus;
use crate::engine::Plan;
use crate::engine::Proceed;
use crate::engine::Settings;
use crate::feed::optional_text;
use crate::logs::Outcome as Filed;
use crate::opml::listings;
use crate::opml::Listing;
use crate::opml::Subscription;
use crate::questions::count;
use crate::questions::Dialog;
use crate::questions::Question;
use crate::sound::Cue;
use crate::text::decimal;
use crate::text::owned;
use crate::text::push_decimal;
use crate::text::texts;
use crate::tools::findings;
use crate::tools::joined_path;
use crate::tools::join_path;
use crate::tools::Finding;
use crate::tools::Found;
use crate::tools::Install;
use crate::tools::Remedy;
use crate::tools::Tool;
use crate::transcribe::Standing;
use crate::transcribe::Status;
use crate::util::capped;
use crate::util::counted_text;
use crate::util::text_of;
use crate::util::Rate;
use vstd::prelude::*;

pub mod actions;
pub mod answers;
pub mod news;
pub mod panes;
pub mod tallies;
pub mod transcripts;

verus! {

/// How many output lines to keep. Long enough to cover a whole run, short enough
/// that a pathological feed can't grow it without bound.
pub const OUTPUT_LIMIT: usize = 2000;

/// The least time between two cues, in microseconds.
///
/// Four downloads finish at once often enough, and four overlapping chimes are
/// noise rather than information; the run says the same thing in writing on the
/// line above, so a cue that has to be dropped costs nothing.
pub const CUE_GAP: u64 = 700_000;

/// How much a cue matters, when a batch of updates has earned more than one.
///
/// The end of a run outranks anything inside it: that is the cue someone who
/// walked away is listening for, and it is the one that must not be dropped in
/// favour of the episode that happened to land just before it.
pub const CUE_EPISODE_DONE: u8 = 0;

pub const CUE_SOMETHING_FAILED: u8 = 1;

pub const CUE_RUN_ENDED: u8 = 2;

#[derive(Clone, Copy, PartialEq, Eq, Debug, Structural)]
pub enum Tab {
    Downloads,
    Transcripts,
    Settings,
}

/// How the last run ended.
#[derive(Clone, Copy, PartialEq, Eq, Debug, Structural)]
pub enum Outcome {
    Completed,
    Stopped,
}

/// The look that was chosen.
#[derive(Clone, Copy, PartialEq, Eq, Debug, Structural)]
pub enum Appearance {
    System,
    Light,
    Dark,
}

/// A file in the chosen folder, and how far its transcript has got.
#[derive(Debug)]
pub struct AudioRow {
    pub path: String,
    pub name: String,
    pub selected: bool,
    pub status: Status,
    /// How far through the audio Whisper is, once it is the one running: how
    /// much it has heard, and how much there is.
    pub heard: u64,
    pub length: u64,
    /// Whether a transcript is already sitting beside it, worked out when the
    /// folder is scanned rather than every frame.
    pub transcribed: bool,
}

/// What an audio row says.
pub struct Track {
    pub path: Seq<char>,
    pub name: Seq<char>,
    pub selected: bool,
    pub status: Standing,
    pub heard: u64,
    pub length: u64,
    pub transcribed: bool,
}

impl View for AudioRow {
    type V = Track;

    open spec fn view(&self) -> Track {
        Track {
            path: self.path@,
            name: self.name@,
            selected: self.selected,
            status: self.status@,
            heard: self.heard,
            length: self.length,
            transcribed: self.transcribed,
        }
    }
}

/// What a list of audio rows says.
pub open spec fn tracks(v: Seq<AudioRow>) -> Seq<Track> {
    v.map_values(|a: AudioRow| a@)
}

/// An episode in the list.
#[derive(Debug)]
pub struct EpisodeRow {
    pub title: String,
    /// What it is called on disk, which is what the output reports for anything
    /// that actually landed there.
    pub file_name: String,
    pub status: EpisodeStatus,
    pub done: u64,
    pub total: Option<u64>,
}

/// What an episode row says.
pub struct Entry {
    pub title: Seq<char>,
    pub file_name: Seq<char>,
    pub status: EpisodeState,
    pub done: u64,
    pub total: Option<u64>,
}

impl View for EpisodeRow {
    type V = Entry;

    open spec fn view(&self) -> Entry {
        Entry {
            title: self.title@,
            file_name: self.file_name@,
            status: self.status@,
            done: self.done,
            total: self.total,
        }
    }
}

impl Entry {
    /// Whether nothing more will come of the episode. Cancelled episodes stay
    /// unfinished: the run stopped, they didn't.
    pub open spec fn is_finished(self) -> bool {
        self.status is Done || self.status is Skipped || self.status is Failed
    }
}

/// What a list of episode rows says.
pub open spec fn entries(v: Seq<EpisodeRow>) -> Seq<Entry> {
    v.map_values(|e: EpisodeRow| e@)
}

impl EpisodeRow {
    /// Whether nothing more will come of the episode.
    pub fn finished(&self) -> (r: bool)
        ensures
            r == self@.is_finished(),
    {
        match self.status {
            EpisodeStatus::Done => true,
            EpisodeStatus::Skipped => true,
            EpisodeStatus::Failed(_) => true,
            _ => false,
        }
    }
}

/// One podcast from the OPML: both a thing to tick and, once a run starts, a
/// thing with progress of its own.
#[derive(Debug)]
pub struct FeedRow {
    pub title: String,
    pub url: String,
    pub selected: bool,
    pub folder: String,
    pub status: FeedStatus,
    pub episodes: Vec<EpisodeRow>,
    /// Set once the engine has said how many episodes there are; until then the
    /// row can only report that it is still fetching.
    pub listed: bool,
}

/// What a podcast's row says.
pub struct Row {
    pub title: Seq<char>,
    pub url: Seq<char>,
    pub selected: bool,
    pub folder: Seq<char>,
    pub status: FeedState,
    pub episodes: Seq<Entry>,
    pub listed: bool,
}

impl View for FeedRow {
    type V = Row;

    open spec fn view(&self) -> Row {
        Row {
            title: self.title@,
            url: self.url@,
            selected: self.selected,
            folder: self.folder@,
            status: self.status@,
            episodes: entries(self.episodes@),
            listed: self.listed,
        }
    }
}

/// What a list of podcasts says.
pub open spec fn rows(v: Seq<FeedRow>) -> Seq<Row> {
    v.map_values(|f: FeedRow| f@)
}

/// How many of the first `n` episodes are finished.
pub open spec fn finished_among(list: Seq<Entry>, n: int) -> int
    decreases n,
{
    if n <= 0 {
        0
    } else {
        finished_among(list, n - 1) + if list[n - 1].is_finished() { 1int } else { 0 }
    }
}

/// How many of the first `n` episodes failed.
pub open spec fn failed_among(list: Seq<Entry>, n: int) -> int
    decreases n,
{
    if n <= 0 {
        0
    } else {
        failed_among(list, n - 1) + if list[n - 1].status is Failed { 1int } else { 0 }
    }
}

impl FeedRow {
    /// How many of the podcast's episodes are finished.
    pub fn finished_count(&self) -> (r: usize)
        ensures
            r == finished_among(self@.episodes, self@.episodes.len() as int),
    {
        let ghost list = entries(self.episodes@);
        let mut n: usize = 0;
        let mut i: usize = 0;
        while i < self.episodes.len()
            invariant
                i <= self.episodes@.len(),
                list == entries(self.episodes@),
                n == finished_among(list, i as int),
                n <= i,
            decreases self.episodes@.len() - i,
        {
            assert(list[i as int] == self.episodes@[i as int]@);
            if self.episodes[i].finished() {
                n = n + 1;
            }
            i += 1;
        }
        n
    }

    /// How many of the podcast's episodes failed.
    pub fn failed_count(&self) -> (r: usize)
        ensures
            r == failed_among(self@.episodes, self@.episodes.len() as int),
    {
        let ghost list = entries(self.episodes@);
        let mut n: usize = 0;
        let mut i: usize = 0;
        while i < self.episodes.len()
            invariant
                i <= self.episodes@.len(),
                list == entries(self.episodes@),
                n == failed_among(list, i as int),
                n <= i,
            decreases self.episodes@.len() - i,
        {
            assert(list[i as int] == self.episodes@[i as int]@);
            let failed = match self.episodes[i].status {
                EpisodeStatus::Failed(_) => true,
                _ => false,
            };
            if failed {
                n = n + 1;
            }
            i += 1;
        }
        n
    }
}

#[derive(Clone, Copy, PartialEq, Eq, Debug, Structural)]
pub enum OutputKind {
    Plain,
    Good,
    Muted,
    Bad,
}

impl OutputKind {
    /// How a line of this colour is filed in `output.log` unless it says
    /// otherwise.
    pub open spec fn filed(self) -> Filed {
        match self {
            OutputKind::Good => Filed::Done,
            OutputKind::Bad => Filed::Failed,
            _ => Filed::Note,
        }
    }

    /// How a line of this colour is filed in `output.log` unless it says
    /// otherwise.
    ///
    /// Green is something that worked and red is something that didn't, both
    /// without exception. Grey is not an outcome at all — it is the colour of a
    /// line that is quieter than the rest, which covers a skipped episode but
    /// also "Stopping…" and where the logs are being kept. Those go down as
    /// notes, and the one caller that really does mean "skipped" says so.
    pub fn outcome(self) -> (r: Filed)
        ensures
            r == self.filed(),
    {
        match self {
            OutputKind::Good => Filed::Done,
            OutputKind::Bad => Filed::Failed,
            _ => Filed::Note,
        }
    }
}

/// A line in the output box, with the colour its severity earns.
#[derive(Debug)]
pub struct OutputLine {
    pub text: String,
    pub kind: OutputKind,
}

/// What a line in the output box says.
pub struct Shown {
    pub text: Seq<char>,
    pub kind: OutputKind,
}

impl View for OutputLine {
    type V = Shown;

    open spec fn view(&self) -> Shown {
        Shown { text: self.text@, kind: self.kind }
    }
}

/// What the output box says.
pub open spec fn shown_lines(v: Seq<OutputLine>) -> Seq<Shown> {
    v.map_values(|l: OutputLine| l@)
}

/// What a transcription run is started with.
#[derive(Debug)]
pub struct TranscribeOrder {
    /// The audio files that were ticked, in the order they are listed.
    pub files: Vec<String>,
    pub ffmpeg: String,
    pub whisper: String,
    pub model: String,
    pub label_speakers: bool,
    pub skip_existing: bool,
    pub format: Format,
    pub style: Style,
}

/// Something the window wants done that it cannot do itself.
#[derive(Debug)]
pub enum Effect {
    /// A line for `output.log`.
    Record { outcome: Filed, text: String },
    /// A line for `debug.log`.
    Debug(String),
    /// Start a download run.
    StartRun(Settings),
    /// Ask for an OPML file, and load what is chosen.
    PickOpml,
    /// Ask for a folder of episodes, and load what is chosen.
    PickAudioFolder,
    /// Look the machine over.
    Survey,
    Play(Cue),
    /// Run or fetch what was agreed to.
    StartInstall { tool: Tool, install: Install },
    /// Start Ollama's server: installing it does not.
    StartOllama,
    StartTranscribing(TranscribeOrder),
    OpenTerminal,
    OpenUrl(String),
}

/// What an effect asks for.
pub enum Wish {
    Record { outcome: Filed, text: Seq<char> },
    Debug(Seq<char>),
    StartRun {
        subscriptions: Seq<Listing>,
        out_dir: Seq<char>,
        concurrency: usize,
        limit: Option<usize>,
        skip_existing: bool,
    },
    PickOpml,
    PickAudioFolder,
    Survey,
    Play(Cue),
    StartInstall { tool: Tool, remedy: Remedy },
    StartOllama,
    StartTranscribing {
        files: Seq<Seq<char>>,
        ffmpeg: Seq<char>,
        whisper: Seq<char>,
        model: Seq<char>,
        label_speakers: bool,
        skip_existing: bool,
        format: Format,
        style: Style,
    },
    OpenTerminal,
    OpenUrl(Seq<char>),
}

impl View for Effect {
    type V = Wish;

    open spec fn view(&self) -> Wish {
        match self {
            Effect::Record { outcome, text } => Wish::Record { outcome: *outcome, text: text@ },
            Effect::Debug(m) => Wish::Debug(m@),
            Effect::StartRun(s) => Wish::StartRun {
                subscriptions: listings(s.subscriptions@),
                out_dir: s.out_dir@,
                concurrency: s.concurrency,
                limit: s.limit,
                skip_existing: s.skip_existing,
            },
            Effect::PickOpml => Wish::PickOpml,
            Effect::PickAudioFolder => Wish::PickAudioFolder,
            Effect::Survey => Wish::Survey,
            Effect::Play(c) => Wish::Play(*c),
            Effect::StartInstall { tool, install } => Wish::StartInstall {
                tool: *tool,
                remedy: install@,
            },
            Effect::StartOllama => Wish::StartOllama,
            Effect::StartTranscribing(o) => Wish::StartTranscribing {
                files: texts(o.files@),
                ffmpeg: o.ffmpeg@,
                whisper: o.whisper@,
                model: o.model@,
                label_speakers: o.label_speakers,
                skip_existing: o.skip_existing,
                format: o.format,
                style: o.style,
            },
            Effect::OpenTerminal => Wish::OpenTerminal,
            Effect::OpenUrl(u) => Wish::OpenUrl(u@),
        }
    }
}

/// What a list of effects asks for.
pub open spec fn wishes(v: Seq<Effect>) -> Seq<Wish> {
    v.map_values(|e: Effect| e@)
}

/// Everything the window knows.
#[derive(Debug)]
pub struct PodBatchApp {
    pub tab: Tab,
    pub opml_path: Option<String>,
    pub out_dir: String,
    pub concurrency: usize,
    pub limit_enabled: bool,
    pub limit: usize,
    pub skip_existing: bool,
    pub play_sounds: bool,
    pub theme: Appearance,
    pub feeds: Vec<FeedRow>,
    /// Engine feed index -> index into `feeds`. The engine is only told about
    /// the ticked podcasts, so its numbering is not ours.
    pub running_map: Vec<usize>,
    pub output: Vec<OutputLine>,
    pub running: bool,
    pub cancelling: bool,
    /// How the last run ended, shown in the headline once it has. `None` before
    /// the first run.
    pub outcome: Option<Outcome>,
    pub cancel: Option<Cancel>,
    /// The engine holds between reading the feeds and downloading them; this is
    /// what releases it, once the user has agreed to the job.
    pub proceed: Option<Proceed>,
    /// The question on screen, if there is one.
    pub dialog: Option<Dialog>,
    /// A plan that arrived while another question was up, waiting its turn.
    pub pending_plan: Option<Plan>,
    /// Set the moment a dialog opens, so its safe answer can be given the
    /// keyboard focus on that frame and left alone on every frame after — a
    /// dialog that grabs focus back every frame cannot be tabbed away from.
    pub focus_dialog: bool,
    /// When the downloads themselves began, in microseconds, and the rate the
    /// last run actually managed. A rate measured by moving real episodes beats
    /// the one guessed from reading the feeds, so once there is one it is what
    /// the estimate uses.
    pub downloads_began: Option<u64>,
    pub measured_rate: Option<Rate>,
    /// When the last cue was played, in microseconds.
    pub last_cue: Option<u64>,
    pub audio_dir: Option<String>,
    pub audio: Vec<AudioRow>,
    /// What the machine was found to have, last time we looked.
    pub tools: Vec<Found>,
    /// Whether to spend the extra minutes keeping a speaker's number attached
    /// to the same person.
    pub label_speakers: bool,
    pub skip_transcribed: bool,
    /// What a transcript is written as, and how big and bold.
    pub transcript_format: Format,
    pub transcript_style: Style,
    pub transcribing: bool,
    /// The paths of the files the transcription run was given, in the order it
    /// numbers them. It is only told about the ticked files, so its numbering is
    /// not ours; and the list can be read again while it runs, so a row is found
    /// by its path.
    pub transcribe_files: Vec<String>,
    pub transcribe_cancel: Option<Cancel>,
    /// The install running now, if any, and what it has said. Only one at a
    /// time — they are all package-manager operations and running two at once
    /// is how a lock file gets fought over.
    pub installing: Option<Tool>,
    pub install_progress: Option<(u64, Option<u64>)>,
    /// What has to be done about all this, in order.
    pub todo: Vec<Effect>,
}

/// What the window's state says.
pub struct Window {
    pub tab: Tab,
    pub opml_path: Option<Seq<char>>,
    pub out_dir: Seq<char>,
    pub concurrency: usize,
    pub limit_enabled: bool,
    pub limit: usize,
    pub skip_existing: bool,
    pub play_sounds: bool,
    pub theme: Appearance,
    pub feeds: Seq<Row>,
    pub running_map: Seq<usize>,
    pub output: Seq<Shown>,
    pub running: bool,
    pub cancelling: bool,
    pub outcome: Option<Outcome>,
    /// Whether there is a run to stop, and whether it has been.
    pub cancel: Option<bool>,
    /// Whether there is a run to let go, and whether it has been.
    pub proceed: Option<bool>,
    pub dialog: Option<Question>,
    pub pending_plan: Option<Plan>,
    pub focus_dialog: bool,
    pub downloads_began: Option<u64>,
    pub measured_rate: Option<Rate>,
    pub last_cue: Option<u64>,
    pub audio_dir: Option<Seq<char>>,
    pub audio: Seq<Track>,
    pub tools: Seq<Finding>,
    pub label_speakers: bool,
    pub skip_transcribed: bool,
    pub transcript_format: Format,
    pub transcript_style: Style,
    pub transcribing: bool,
    pub transcribe_files: Seq<Seq<char>>,
    pub transcribe_cancel: Option<bool>,
    pub installing: Option<Tool>,
    pub install_progress: Option<(u64, Option<u64>)>,
    pub todo: Seq<Wish>,
}

/// What an optional stop handle says.
pub open spec fn handle(c: Option<Cancel>) -> Option<bool> {
    match c {
        Some(c) => Some(c.stopped()),
        None => None,
    }
}

impl View for PodBatchApp {
    type V = Window;

    open spec fn view(&self) -> Window {
        Window {
            tab: self.tab,
            opml_path: optional_text(self.opml_path),
            out_dir: self.out_dir@,
            concurrency: self.concurrency,
            limit_enabled: self.limit_enabled,
            limit: self.limit,
            skip_existing: self.skip_existing,
            play_sounds: self.play_sounds,
            theme: self.theme,
            feeds: rows(self.feeds@),
            running_map: self.running_map@,
            output: shown_lines(self.output@),
            running: self.running,
            cancelling: self.cancelling,
            outcome: self.outcome,
            cancel: handle(self.cancel),
            proceed: match self.proceed {
                Some(p) => Some(p.released()),
                None => None,
            },
            dialog: match self.dialog {
                Some(d) => Some(d@),
                None => None,
            },
            pending_plan: self.pending_plan,
            focus_dialog: self.focus_dialog,
            downloads_began: self.downloads_began,
            measured_rate: self.measured_rate,
            last_cue: self.last_cue,
            audio_dir: optional_text(self.audio_dir),
            audio: tracks(self.audio@),
            tools: findings(self.tools@),
            label_speakers: self.label_speakers,
            skip_transcribed: self.skip_transcribed,
            transcript_format: self.transcript_format,
            transcript_style: self.transcript_style,
            transcribing: self.transcribing,
            transcribe_files: texts(self.transcribe_files@),
            transcribe_cancel: handle(self.transcribe_cancel),
            installing: self.installing,
            install_progress: self.install_progress,
            todo: wishes(self.todo@),
        }
    }
}

// ---- The output box -------------------------------------------------------

/// The newest lines of a list, as many as the box keeps.
pub open spec fn newest(lines: Seq<Shown>) -> Seq<Shown> {
    if lines.len() > OUTPUT_LIMIT {
        lines.skip(lines.len() - OUTPUT_LIMIT)
    } else {
        lines
    }
}

impl Window {
    /// A line in the box.
    pub open spec fn shown(self, kind: OutputKind, text: Seq<char>) -> Window {
        Window { output: newest(self.output.push(Shown { text, kind })), ..self }
    }

    /// One more thing to do.
    pub open spec fn wished(self, wish: Wish) -> Window {
        Window { todo: self.todo.push(wish), ..self }
    }

    /// A line in the box, and in the log.
    pub open spec fn said_as(self, kind: OutputKind, outcome: Filed, text: Seq<char>) -> Window {
        self.wished(Wish::Record { outcome, text }).shown(kind, text)
    }

    /// A line in the box, and in the log as its colour says.
    pub open spec fn said(self, kind: OutputKind, text: Seq<char>) -> Window {
        self.said_as(kind, kind.filed(), text)
    }
}

impl PodBatchApp {
    /// Puts something on the list of things to do.
    pub fn wish(&mut self, effect: Effect)
        ensures
            final(self)@ == old(self)@.wished(effect@),
    {
        let ghost before = self@;
        self.todo.push(effect);
        assert(self@.todo =~= before.todo.push(effect@));
    }

    /// Put a line in the box without writing it to the logs.
    ///
    /// For the transcript as it comes in. `output.log` is a record of what the
    /// program did, and `debug.log` is the same story in more detail — neither
    /// is a place to keep the thing the program produced.
    pub fn show(&mut self, kind: OutputKind, text: String)
        ensures
            final(self)@ == old(self)@.shown(kind, text@),
    {
        let ghost before = self@;
        self.output.push(OutputLine { text, kind });
        keep_newest(&mut self.output);
        assert(shown_lines(old(self).output@.push(OutputLine { text, kind }))
            =~= before.output.push(Shown { text: text@, kind }));
    }

    /// The same as [`PodBatchApp::say`], for the line whose outcome its colour
    /// doesn't give away.
    pub fn say_as(&mut self, kind: OutputKind, outcome: Filed, text: String)
        ensures
            final(self)@ == old(self)@.said_as(kind, outcome, text@),
    {
        self.wish(Effect::Record { outcome, text: text.clone() });
        self.show(kind, text);
    }

    /// Put a line in the output box — and, since this is every line the user is
    /// ever shown, in `output.log` as well. The box scrolls back only so far
    /// and empties when the window closes; the file is the copy that keeps.
    pub fn say(&mut self, kind: OutputKind, text: String)
        ensures
            final(self)@ == old(self)@.said(kind, text@),
    {
        self.say_as(kind, kind.outcome(), text);
    }
}

/// Drops the oldest lines beyond what the box keeps.
fn keep_newest(lines: &mut Vec<OutputLine>)
    ensures
        shown_lines(final(lines)@) == newest(shown_lines(old(lines)@)),
{
    while lines.len() > OUTPUT_LIMIT
        invariant
            newest(shown_lines(lines@)) == newest(shown_lines(old(lines)@)),
        decreases lines@.len(),
    {
        let ghost before = shown_lines(lines@);
        let _oldest = lines.remove(0);
        assert(newest(shown_lines(lines@)) =~= newest(before));
    }
}

/// However much is written, the box holds no more than its limit, and the line
/// just written is the last one in it.
pub proof fn law_the_box_stays_bounded(w: Window, kind: OutputKind, text: Seq<char>)
    ensures
        w.shown(kind, text).output.len() <= OUTPUT_LIMIT,
        w.shown(kind, text).output.last() == (Shown { text, kind }),
{
}

/// Every line the box is given after a full box pushes out the oldest one and
/// no other.
pub proof fn law_only_the_oldest_line_leaves(w: Window, kind: OutputKind, text: Seq<char>)
    requires
        w.output.len() == OUTPUT_LIMIT,
    ensures
        w.shown(kind, text).output == w.output.skip(1).push(Shown { text, kind }),
{
    assert(w.shown(kind, text).output =~= w.output.skip(1).push(Shown { text, kind }));
}

/// Showing a line leaves the list of things to do alone, so nothing of it
/// reaches the logs.
pub proof fn law_shown_lines_are_not_logged(w: Window, kind: OutputKind, text: Seq<char>)
    ensures
        w.shown(kind, text).todo == w.todo,
{
}

// ---- Opening --------------------------------------------------------------

/// `~/Podbatch/Downloads`, or the same under the current directory on the rare
/// system with no home.
pub open spec fn default_out_text(home: Option<Seq<char>>) -> Seq<char> {
    let top = match home {
        Some(h) => h,
        None => "."@,
    };
    joined_path(joined_path(top, "Podbatch"@), "Downloads"@)
}

/// `~/Podbatch/Downloads`, or the same under the current directory on the rare
/// system with no home.
///
/// Only the starting point: the folder is a setting, and one the user is free to
/// point anywhere they like — an external drive being the obvious case, since a
/// full subscription list is measured in gigabytes. The logs go to
/// `~/Podbatch/Logging` next door, so everything the app writes is under one
/// folder rather than scattered between the home directory and wherever the
/// platform keeps application data.
pub fn default_out_dir(home: Option<&str>) -> (r: String)
    ensures
        r@ == default_out_text(text_of(home)),
{
    let top = match home {
        Some(h) => h,
        None => ".",
    };
    join_path(join_path(top, "Podbatch").as_str(), "Downloads")
}

impl Window {
    /// A window nothing has happened in yet.
    pub open spec fn fresh(out_dir: Seq<char>) -> Window {
        Window {
            tab: Tab::Downloads,
            opml_path: None,
            out_dir,
            concurrency: 4,
            limit_enabled: false,
            limit: 10,
            skip_existing: true,
            play_sounds: true,
            theme: Appearance::System,
            feeds: Seq::empty(),
            running_map: Seq::empty(),
            output: Seq::empty(),
            running: false,
            cancelling: false,
            outcome: None,
            cancel: None,
            proceed: None,
            dialog: None,
            pending_plan: None,
            focus_dialog: false,
            downloads_began: None,
            measured_rate: None,
            last_cue: None,
            audio_dir: None,
            audio: Seq::empty(),
            tools: Seq::empty(),
            label_speakers: true,
            skip_transcribed: true,
            transcript_format: Format::Docx,
            transcript_style: Style { size: 16, bold: true },
            transcribing: false,
            transcribe_files: Seq::empty(),
            transcribe_cancel: None,
            installing: None,
            install_progress: None,
            todo: Seq::empty(),
        }
    }
}

impl PodBatchApp {
    /// The window as it opens, putting episodes in `out_dir`, and saying where
    /// the logs are kept, or why there are none: a log nobody can find is no
    /// better than one that was never written.
    ///
    /// The tools start empty rather than surveyed: looking for six programs is
    /// not something to make the first frame wait on. The tab surveys the first
    /// time it is opened.
    pub fn new(out_dir: String, logging: Result<String, String>) -> (r: Self)
        ensures
            r@ == match logging {
                Ok(dir) => Window::fresh(out_dir@).said(
                    OutputKind::Muted,
                    "Logging to "@ + dir@,
                ),
                Err(e) => Window::fresh(out_dir@).said(
                    OutputKind::Bad,
                    "No log files this time — "@ + e@,
                ),
            },
    {
        let mut app = PodBatchApp {
            tab: Tab::Downloads,
            opml_path: None,
            out_dir,
            concurrency: 4,
            limit_enabled: false,
            limit: 10,
            skip_existing: true,
            play_sounds: true,
            theme: Appearance::System,
            feeds: Vec::new(),
            running_map: Vec::new(),
            output: Vec::new(),
            running: false,
            cancelling: false,
            outcome: None,
            cancel: None,
            proceed: None,
            dialog: None,
            pending_plan: None,
            focus_dialog: false,
            downloads_began: None,
            measured_rate: None,
            last_cue: None,
            audio_dir: None,
            audio: Vec::new(),
            tools: Vec::new(),
            label_speakers: true,
            skip_transcribed: true,
            transcript_format: Format::default(),
            transcript_style: Style::default(),
            transcribing: false,
            transcribe_files: Vec::new(),
            transcribe_cancel: None,
            installing: None,
            install_progress: None,
            todo: Vec::new(),
        };
        proof {
            assert(app@.feeds =~= Seq::empty());
            assert(app@.running_map =~= Seq::empty());
            assert(app@.output =~= Seq::empty());
            assert(app@.audio =~= Seq::empty());
            assert(app@.transcribe_files =~= Seq::empty());
            assert(app@.tools =~= Seq::empty());
            assert(app@.todo =~= Seq::empty());
        }
        match logging {
            Ok(dir) => {
                let mut s = owned("Logging to ");
                s.push_str(dir.as_str());
                app.say(OutputKind::Muted, s);
            },
            Err(e) => {
                let mut s = owned("No log files this time — ");
                s.push_str(e.as_str());
                app.say(OutputKind::Bad, s);
            },
        }
        app
    }
}

// ---- The subscription list ------------------------------------------------

/// A podcast's row as it stands before anything has been fetched.
pub open spec fn fresh_row(sub: Listing, selected: bool) -> Row {
    Row {
        title: sub.title,
        url: sub.url,
        selected,
        folder: Seq::empty(),
        status: FeedState::Pending,
        episodes: Seq::empty(),
        listed: false,
    }
}

/// The rows for a list of subscriptions, all ticked.
pub open spec fn fresh_list(subs: Seq<Listing>) -> Seq<Row> {
    subs.map_values(|s: Listing| fresh_row(s, true))
}

/// The rows for a list of subscriptions, all ticked.
fn fresh_rows(subs: &Vec<Subscription>) -> (r: Vec<FeedRow>)
    ensures
        rows(r@) == fresh_list(listings(subs@)),
{
    let ghost want = fresh_list(listings(subs@));
    let mut r: Vec<FeedRow> = Vec::new();
    let mut i: usize = 0;
    while i < subs.len()
        invariant
            i <= subs@.len(),
            want == fresh_list(listings(subs@)),
            rows(r@) == want.take(i as int),
        decreases subs@.len() - i,
    {
        let row = FeedRow {
            title: subs[i].title.clone(),
            url: subs[i].url.clone(),
            selected: true,
            folder: String::new(),
            status: FeedStatus::Pending,
            episodes: Vec::new(),
            listed: false,
        };
        proof {
            assert(row@.folder =~= Seq::empty());
            assert(row@.episodes =~= Seq::empty());
            assert(rows(r@.push(row)) =~= rows(r@).push(row@));
            assert(want.take(i + 1) =~= want.take(i as int).push(want[i as int]));
        }
        r.push(row);
        i += 1;
    }
    assert(want.take(i as int) =~= want);
    r
}

/// What is said of a list that was read.
pub open spec fn loaded_text(n: int, path: Seq<char>) -> Seq<char> {
    "Loaded "@ + counted_text(n, "podcast"@) + " from "@ + path
}

/// What is said of a list that was read.
fn loaded_line(n: usize, path: &str) -> (r: String)
    ensures
        r@ == loaded_text(n as int, path@),
{
    let mut s = owned("Loaded ");
    s.push_str(count(n, "podcast").as_str());
    s.push_str(" from ");
    s.push_str(path);
    s
}

/// Two texts with a colon between.
fn colon(a: &str, b: &str) -> (r: String)
    ensures
        r@ == a@ + ": "@ + b@,
{
    let mut s = owned(a);
    s.push_str(": ");
    s.push_str(b);
    s
}

impl Window {
    /// After reading a subscription list.
    pub open spec fn loaded(self, path: Seq<char>, read: Result<Seq<Listing>, Seq<char>>) -> Window {
        match read {
            Ok(subs) => Window {
                opml_path: Some(path),
                running_map: Seq::empty(),
                feeds: fresh_list(subs),
                outcome: None,
                ..self
            }.said(OutputKind::Plain, loaded_text(subs.len() as int, path)),
            Err(e) => Window {
                opml_path: Some(path),
                running_map: Seq::empty(),
                feeds: Seq::empty(),
                ..self
            }.said(OutputKind::Bad, path + ": "@ + e),
        }
    }

    /// How many podcasts are ticked.
    pub open spec fn ticked(self) -> int {
        ticked_among(self.feeds, self.feeds.len() as int)
    }
}

/// How many of the first `n` podcasts are ticked.
pub open spec fn ticked_among(feeds: Seq<Row>, n: int) -> int
    decreases n,
{
    if n <= 0 {
        0
    } else {
        ticked_among(feeds, n - 1) + if feeds[n - 1].selected { 1int } else { 0 }
    }
}

impl PodBatchApp {
    /// Fill the left pane from what reading an OPML file gave.
    ///
    /// Everything starts ticked: the common case is "download the lot", and
    /// un-ticking the few you don't want is less work than ticking the many you
    /// do. A list that could not be read leaves no stale one behind, and its
    /// path is kept, so the field still shows what was tried and the error sits
    /// next to the file it is about.
    pub fn load_opml(&mut self, path: String, read: Result<Vec<Subscription>, String>)
        ensures
            final(self)@ == old(self)@.loaded(
                path@,
                match read {
                    Ok(subs) => Ok(listings(subs@)),
                    Err(e) => Err(e@),
                },
            ),
    {
        match read {
            Ok(subs) => {
                let line = loaded_line(subs.len(), path.as_str());
                self.outcome = None;
                self.replace_list(path, fresh_rows(&subs));
                self.say(OutputKind::Plain, line);
            },
            Err(e) => {
                let line = colon(path.as_str(), e.as_str());
                let none: Vec<FeedRow> = Vec::new();
                assert(rows(none@) =~= Seq::empty());
                self.replace_list(path, none);
                self.say(OutputKind::Bad, line);
            },
        }
    }

    /// Puts another list in place of the one there is. The map of a run points
    /// into the list being replaced, so it stops meaning anything too.
    fn replace_list(&mut self, path: String, feeds: Vec<FeedRow>)
        ensures
            final(self)@ == (Window {
                opml_path: Some(path@),
                running_map: Seq::empty(),
                feeds: rows(feeds@),
                ..old(self)@
            }),
    {
        self.running_map = Vec::new();
        self.feeds = feeds;
        self.opml_path = Some(path);
        assert(self@.running_map =~= Seq::empty());
    }

    /// How many podcasts are ticked.
    pub fn selected_count(&self) -> (r: usize)
        ensures
            r == self@.ticked(),
    {
        let ghost list = rows(self.feeds@);
        let mut n: usize = 0;
        let mut i: usize = 0;
        while i < self.feeds.len()
            invariant
                i <= self.feeds@.len(),
                list == rows(self.feeds@),
                n == ticked_among(list, i as int),
                n <= i,
            decreases self.feeds@.len() - i,
        {
            assert(list[i as int] == self.feeds@[i as int]@);
            if self.feeds[i].selected {
                n = n + 1;
            }
            i += 1;
        }
        n
    }
}

// ---- Totals ---------------------------------------------------------------

/// What the ticked podcasts' episodes come to.
#[derive(Clone, Copy, Debug, PartialEq, Eq, Structural)]
pub struct Totals {
    pub episodes: usize,
    pub finished: usize,
    pub downloaded: usize,
    pub skipped: usize,
    pub failed: usize,
    pub bytes: u64,
}

impl Default for Totals {
    fn default() -> (r: Self)
        ensures
            r == (Totals {
                episodes: 0,
                finished: 0,
                downloaded: 0,
                skipped: 0,
                failed: 0,
                bytes: 0,
            }),
    {
        Totals { episodes: 0, finished: 0, downloaded: 0, skipped: 0, failed: 0, bytes: 0 }
    }
}

/// What some episodes come to, however much that is.
pub struct Tally {
    pub episodes: int,
    pub finished: int,
    pub downloaded: int,
    pub skipped: int,
    pub failed: int,
    pub bytes: int,
}

impl Tally {
    /// Both together.
    pub open spec fn and(self, other: Tally) -> Tally {
        Tally {
            episodes: self.episodes + other.episodes,
            finished: self.finished + other.finished,
            downloaded: self.downloaded + other.downloaded,
            skipped: self.skipped + other.skipped,
            failed: self.failed + other.failed,
            bytes: self.bytes + other.bytes,
        }
    }

    /// The same in machine numbers, with what does not fit given as the most
    /// that does.
    pub open spec fn capped(self) -> Totals {
        Totals {
            episodes: topped(self.episodes, usize::MAX as int) as usize,
            finished: topped(self.finished, usize::MAX as int) as usize,
            downloaded: topped(self.downloaded, usize::MAX as int) as usize,
            skipped: topped(self.skipped, usize::MAX as int) as usize,
            failed: topped(self.failed, usize::MAX as int) as usize,
            bytes: topped(self.bytes, u64::MAX as int) as u64,
        }
    }

    /// Whether nothing in it is negative.
    pub open spec fn natural(self) -> bool {
        self.episodes >= 0 && self.finished >= 0 && self.downloaded >= 0 && self.skipped >= 0
            && self.failed >= 0 && self.bytes >= 0
    }
}

/// Nothing.
pub open spec fn no_tally() -> Tally {
    Tally { episodes: 0, finished: 0, downloaded: 0, skipped: 0, failed: 0, bytes: 0 }
}

/// What one episode comes to. Only the bytes of an episode that has landed
/// count.
pub open spec fn entry_tally(e: Entry) -> Tally {
    Tally {
        episodes: 1,
        finished: if e.is_finished() { 1 } else { 0 },
        downloaded: if e.status is Done { 1 } else { 0 },
        skipped: if e.status is Skipped { 1 } else { 0 },
        failed: if e.status is Failed { 1 } else { 0 },
        bytes: if e.status is Done { e.done as int } else { 0 },
    }
}

/// What the first `n` episodes come to.
pub open spec fn entries_tally(list: Seq<Entry>, n: int) -> Tally
    decreases n,
{
    if n <= 0 {
        no_tally()
    } else {
        entries_tally(list, n - 1).and(entry_tally(list[n - 1]))
    }
}

/// What the episodes of the first `n` podcasts come to, counting those that are
/// ticked.
pub open spec fn feeds_tally(feeds: Seq<Row>, n: int) -> Tally
    decreases n,
{
    if n <= 0 {
        no_tally()
    } else if feeds[n - 1].selected {
        feeds_tally(feeds, n - 1).and(
            entries_tally(feeds[n - 1].episodes, feeds[n - 1].episodes.len() as int),
        )
    } else {
        feeds_tally(feeds, n - 1)
    }
}

proof fn lemma_entries_tally_bounds(list: Seq<Entry>, n: int)
    requires
        0 <= n <= list.len(),
    ensures
        entries_tally(list, n).natural(),
        entries_tally(list, n).episodes == n,
        entries_tally(list, n).finished <= n,
        entries_tally(list, n).downloaded <= n,
        entries_tally(list, n).skipped <= n,
        entries_tally(list, n).failed <= n,
    decreases n,
{
    if n > 0 {
        lemma_entries_tally_bounds(list, n - 1);
    }
}

proof fn lemma_feeds_tally_natural(feeds: Seq<Row>, n: int)
    requires
        0 <= n <= feeds.len(),
    ensures
        feeds_tally(feeds, n).natural(),
    decreases n,
{
    if n > 0 {
        lemma_feeds_tally_natural(feeds, n - 1);
        lemma_entries_tally_bounds(
            feeds[n - 1].episodes,
            feeds[n - 1].episodes.len() as int,
        );
    }
}

/// What one podcast's episodes come to.
fn feed_totals(feed: &FeedRow) -> (r: Totals)
    ensures
        r == entries_tally(feed@.episodes, feed@.episodes.len() as int).capped(),
{
    let ghost list = feed@.episodes;
    let mut t = Totals::default();
    let mut i: usize = 0;
    while i < feed.episodes.len()
        invariant
            i <= feed.episodes@.len(),
            list == entries(feed.episodes@),
            t == entries_tally(list, i as int).capped(),
        decreases feed.episodes@.len() - i,
    {
        proof {
            lemma_entries_tally_bounds(list, i as int);
            assert(list[i as int] == feed.episodes@[i as int]@);
        }
        t.episodes = t.episodes + 1;
        match feed.episodes[i].status {
            EpisodeStatus::Done => {
                t.downloaded = t.downloaded + 1;
                t.bytes = t.bytes.saturating_add(feed.episodes[i].done);
            },
            EpisodeStatus::Skipped => {
                t.skipped = t.skipped + 1;
            },
            EpisodeStatus::Failed(_) => {
                t.failed = t.failed + 1;
            },
            _ => {},
        }
        if feed.episodes[i].finished() {
            t.finished = t.finished + 1;
        }
        i += 1;
    }
    t
}

impl Window {
    /// What the ticked podcasts' episodes come to.
    pub open spec fn totalled(self) -> Totals {
        feeds_tally(self.feeds, self.feeds.len() as int).capped()
    }

    /// Whether the podcast at a row has said all it will about its episodes.
    pub open spec fn has_read(self, row: usize) -> bool {
        self.feeds[row as int].listed || self.feeds[row as int].status is Done
            || self.feeds[row as int].status is Failed
    }

    /// Whether every podcast in the run has said what it holds.
    pub open spec fn everything_listed(self) -> bool {
        forall|i: int|
            0 <= i < self.running_map.len() && self.running_map[i] < self.feeds.len()
                ==> self.has_read(#[trigger] self.running_map[i])
    }
}

impl PodBatchApp {
    /// What the ticked podcasts' episodes come to.
    pub fn totals(&self) -> (r: Totals)
        ensures
            r == self@.totalled(),
    {
        let ghost list = rows(self.feeds@);
        let mut t = Totals::default();
        let mut i: usize = 0;
        while i < self.feeds.len()
            invariant
                i <= self.feeds@.len(),
                list == rows(self.feeds@),
                t == feeds_tally(list, i as int).capped(),
            decreases self.feeds@.len() - i,
        {
            proof {
                lemma_feeds_tally_natural(list, i as int);
                assert(list[i as int] == self.feeds@[i as int]@);
                lemma_entries_tally_bounds(
                    list[i as int].episodes,
                    list[i as int].episodes.len() as int,
                );
            }
            if self.feeds[i].selected {
                let f = feed_totals(&self.feeds[i]);
                t =
                Totals {
                    episodes: t.episodes.saturating_add(f.episodes),
                    finished: t.finished.saturating_add(f.finished),
                    downloaded: t.downloaded.saturating_add(f.downloaded),
                    skipped: t.skipped.saturating_add(f.skipped),
                    failed: t.failed.saturating_add(f.failed),
                    bytes: t.bytes.saturating_add(f.bytes),
                };
            }
            i += 1;
        }
        t
    }

    /// True once every running feed has reported its episode list, which is when
    /// the overall total stops moving and a percentage starts meaning something.
    pub fn all_listed(&self) -> (r: bool)
        ensures
            r == self@.everything_listed(),
    {
        let ghost w = self@;
        let mut i: usize = 0;
        while i < self.running_map.len()
            invariant
                i <= self.running_map@.len(),
                w == self@,
                forall|j: int|
                    0 <= j < i && w.running_map[j] < w.feeds.len() ==> w.has_read(
                        #[trigger] w.running_map[j],
                    ),
            decreases self.running_map@.len() - i,
        {
            let row = self.running_map[i];
            if row < self.feeds.len() {
                assert(w.feeds[row as int] == self.feeds@[row as int]@);
                if !self.feeds[row].listed && !self.feeds[row].status.is_settled() {
                    assert(!w.has_read(w.running_map[i as int]));
                    return false;
                }
            }
            i += 1;
        }
        true
    }
}

/// Only the ticked podcasts are counted: what an unticked one holds changes
/// nothing.
pub proof fn law_totals_count_only_the_ticked(a: Seq<Row>, b: Seq<Row>, n: int)
    requires
        0 <= n <= a.len(),
        a.len() == b.len(),
        forall|i: int| 0 <= i < n ==> (#[trigger] a[i]).selected == b[i].selected,
        forall|i: int| 0 <= i < n && (#[trigger] a[i]).selected ==> a[i] == b[i],
    ensures
        feeds_tally(a, n) == feeds_tally(b, n),
    decreases n,
{
    if n > 0 {
        law_totals_count_only_the_ticked(a, b, n - 1);
    }
}

/// Every finished episode is counted as exactly one of downloaded, skipped and
/// failed, and none is finished that was not listed.
pub proof fn law_finished_episodes_add_up(feeds: Seq<Row>, n: int)
    requires
        0 <= n <= feeds.len(),
    ensures
        feeds_tally(feeds, n).finished == feeds_tally(feeds, n).downloaded + feeds_tally(
            feeds,
            n,
        ).skipped + feeds_tally(feeds, n).failed,
        feeds_tally(feeds, n).finished <= feeds_tally(feeds, n).episodes,
    decreases n,
{
    if n > 0 {
        law_finished_episodes_add_up(feeds, n - 1);
        lemma_entries_add_up(feeds[n - 1].episodes, feeds[n - 1].episodes.len() as int);
    }
}

proof fn lemma_entries_add_up(list: Seq<Entry>, n: int)
    ensures
        entries_tally(list, n).finished == entries_tally(list, n).downloaded + entries_tally(
            list,
            n,
        ).skipped + entries_tally(list, n).failed,
        entries_tally(list, n).finished <= entries_tally(list, n).episodes,
    decreases n,
{
    if n > 0 {
        lemma_entries_add_up(list, n - 1);
    }
}

/// The cue a run ends on: one failure is enough to make the run a failure.
pub open spec fn ending_cue(totals: Totals) -> Cue {
    if totals.failed > 0 {
        Cue::Failure
    } else {
        Cue::Success
    }
}

/// Which cue a finished run has earned. Anything that failed makes it a failure,
/// however much else succeeded — a run that quietly dropped one episode should
/// not sound like a clean one.
pub fn cue_for(totals: &Totals) -> (r: Cue)
    ensures
        r == ending_cue(*totals),
{
    if totals.failed > 0 {
        Cue::Failure
    } else {
        Cue::Success
    }
}

// ---- Starting and stopping ------------------------------------------------

/// What the ticked ones of the first `n` podcasts are subscribed to.
pub open spec fn chosen(feeds: Seq<Row>, n: int) -> Seq<Listing>
    decreases n,
{
    if n <= 0 {
        Seq::empty()
    } else if feeds[n - 1].selected {
        chosen(feeds, n - 1).push(Listing { title: feeds[n - 1].title, url: feeds[n - 1].url })
    } else {
        chosen(feeds, n - 1)
    }
}

/// Which of the first `n` podcasts are ticked.
pub open spec fn chosen_rows(feeds: Seq<Row>, n: int) -> Seq<usize>
    decreases n,
{
    if n <= 0 {
        Seq::empty()
    } else if feeds[n - 1].selected {
        chosen_rows(feeds, n - 1).push((n - 1) as usize)
    } else {
        chosen_rows(feeds, n - 1)
    }
}

/// A podcast's row with nothing of an earlier run left in it.
pub open spec fn reset_row(row: Row) -> Row {
    Row {
        folder: Seq::empty(),
        status: FeedState::Pending,
        episodes: Seq::empty(),
        listed: false,
        ..row
    }
}

/// Every row with nothing of an earlier run left in it.
pub open spec fn reset_rows(feeds: Seq<Row>) -> Seq<Row> {
    feeds.map_values(|r: Row| reset_row(r))
}

/// Whether something is so, in a word.
pub open spec fn truth(b: bool) -> Seq<char> {
    if b {
        "true"@
    } else {
        "false"@
    }
}

/// What the debug log is told when a run starts.
pub open spec fn starting_text(
    podcasts: int,
    out_dir: Seq<char>,
    concurrency: int,
    limit: Option<usize>,
    skip_existing: bool,
) -> Seq<char> {
    "run starting: "@ + decimal(podcasts) + " podcast(s), into "@ + out_dir + ", "@ + decimal(
        concurrency,
    ) + " at a time, limit "@ + (match limit {
        Some(n) => decimal(n as int),
        None => "none"@,
    }) + ", skip existing "@ + truth(skip_existing)
}

/// What the debug log is told when a run starts.
fn starting_line(
    podcasts: usize,
    out_dir: &str,
    concurrency: usize,
    limit: Option<usize>,
    skip_existing: bool,
) -> (r: String)
    ensures
        r@ == starting_text(
            podcasts as int,
            out_dir@,
            concurrency as int,
            limit,
            skip_existing,
        ),
{
    let mut s = owned("run starting: ");
    push_decimal(&mut s, podcasts as u64);
    s.push_str(" podcast(s), into ");
    s.push_str(out_dir);
    s.push_str(", ");
    push_decimal(&mut s, concurrency as u64);
    s.push_str(" at a time, limit ");
    match limit {
        Some(n) => push_decimal(&mut s, n as u64),
        None => s.push_str("none"),
    }
    s.push_str(", skip existing ");
    s.push_str(if skip_existing { "true" } else { "false" });
    s
}

impl Window {
    /// How many episodes a podcast is held to, if that is wanted: at least one.
    pub open spec fn held_to(self) -> Option<usize> {
        if !self.limit_enabled {
            None
        } else if self.limit == 0 {
            Some(1)
        } else {
            Some(self.limit)
        }
    }

    /// After asking for a run to start.
    pub open spec fn started(self) -> Window {
        let subs = chosen(self.feeds, self.feeds.len() as int);
        if subs.len() == 0 {
            self.said(OutputKind::Bad, "Tick at least one podcast first."@)
        } else {
            Window {
                running_map: chosen_rows(self.feeds, self.feeds.len() as int),
                feeds: reset_rows(self.feeds),
                output: Seq::empty(),
                cancelling: false,
                outcome: None,
                downloads_began: None,
                cancel: Some(false),
                proceed: Some(false),
                running: true,
                todo: self.todo.push(
                    Wish::Debug(
                        starting_text(
                            subs.len() as int,
                            self.out_dir,
                            self.concurrency as int,
                            self.held_to(),
                            self.skip_existing,
                        ),
                    ),
                ).push(
                    Wish::StartRun {
                        subscriptions: subs,
                        out_dir: self.out_dir,
                        concurrency: self.concurrency,
                        limit: self.held_to(),
                        skip_existing: self.skip_existing,
                    },
                ),
                ..self
            }
        }
    }

    /// After stopping the run, if there is one.
    pub open spec fn halted(self) -> Window {
        match self.cancel {
            Some(_) => Window { cancel: Some(true), cancelling: true, ..self }.said(
                OutputKind::Muted,
                "Stopping — letting the transfers in flight wind down…"@,
            ),
            None => self,
        }
    }
}

/// Puts every row back as it was before any run.
fn reset_all(feeds: &mut Vec<FeedRow>)
    ensures
        rows(final(feeds)@) == reset_rows(rows(old(feeds)@)),
{
    let ghost before = rows(feeds@);
    let mut i: usize = 0;
    while i < feeds.len()
        invariant
            i <= feeds@.len(),
            feeds@.len() == before.len(),
            before == rows(old(feeds)@),
            forall|j: int| 0 <= j < i ==> (#[trigger] feeds@[j])@ == reset_row(before[j]),
            forall|j: int| i <= j < feeds@.len() ==> (#[trigger] feeds@[j])@ == before[j],
        decreases feeds@.len() - i,
    {
        let ghost was = feeds@;
        feeds[i].status = FeedStatus::Pending;
        feeds[i].episodes = Vec::new();
        feeds[i].listed = false;
        feeds[i].folder = String::new();
        proof {
            assert(was[i as int]@ == before[i as int]);
            assert(feeds@[i as int]@.folder =~= Seq::empty());
            assert(feeds@[i as int]@.episodes =~= Seq::empty());
            assert(feeds@[i as int]@ == reset_row(before[i as int]));
        }
        i += 1;
    }
    assert(rows(feeds@) =~= reset_rows(before));
}

impl PodBatchApp {
    /// The podcasts that are ticked.
    fn ticked_subscriptions(&self) -> (r: Vec<Subscription>)
        ensures
            listings(r@) == chosen(self@.feeds, self@.feeds.len() as int),
    {
        let ghost list = rows(self.feeds@);
        let mut r: Vec<Subscription> = Vec::new();
        let mut i: usize = 0;
        assert(listings(r@) =~= Seq::empty());
        while i < self.feeds.len()
            invariant
                i <= self.feeds@.len(),
                list == rows(self.feeds@),
                listings(r@) == chosen(list, i as int),
            decreases self.feeds@.len() - i,
        {
            assert(list[i as int] == self.feeds@[i as int]@);
            if self.feeds[i].selected {
                let sub = Subscription {
                    title: self.feeds[i].title.clone(),
                    url: self.feeds[i].url.clone(),
                };
                assert(listings(r@.push(sub)) =~= listings(r@).push(sub@));
                r.push(sub);
            }
            i += 1;
        }
        r
    }

    /// Where in the list the ticked podcasts are.
    fn ticked_rows(&self) -> (r: Vec<usize>)
        ensures
            r@ == chosen_rows(self@.feeds, self@.feeds.len() as int),
    {
        let ghost list = rows(self.feeds@);
        let mut r: Vec<usize> = Vec::new();
        let mut i: usize = 0;
        assert(r@ =~= Seq::empty());
        while i < self.feeds.len()
            invariant
                i <= self.feeds@.len(),
                list == rows(self.feeds@),
                r@ == chosen_rows(list, i as int),
            decreases self.feeds@.len() - i,
        {
            assert(list[i as int] == self.feeds@[i as int]@);
            if self.feeds[i].selected {
                r.push(i);
            }
            i += 1;
        }
        r
    }

    /// Starts a run on the podcasts that are ticked.
    pub fn start(&mut self)
        ensures
            final(self)@ == old(self)@.started(),
    {
        let ghost before = self@;
        let subscriptions = self.ticked_subscriptions();
        if subscriptions.len() == 0 {
            self.say(OutputKind::Bad, owned("Tick at least one podcast first."));
            return ;
        }
        self.running_map = self.ticked_rows();
        reset_all(&mut self.feeds);
        self.output = Vec::new();
        assert(self@.output =~= Seq::empty());
        self.cancelling = false;
        self.outcome = None;
        self.downloads_began = None;
        let limit: Option<usize> = if !self.limit_enabled {
            None
        } else if self.limit == 0 {
            Some(1)
        } else {
            Some(self.limit)
        };

        // The box is cleared for the new run; the debug log is where the
        // settings a run was given can still be read afterwards.
        let line = starting_line(
            subscriptions.len(),
            self.out_dir.as_str(),
            self.concurrency,
            limit,
            self.skip_existing,
        );
        self.wish(Effect::Debug(line));
        let settings = Settings {
            subscriptions,
            out_dir: owned(self.out_dir.as_str()),
            concurrency: self.concurrency,
            limit,
            skip_existing: self.skip_existing,
        };
        self.wish(Effect::StartRun(settings));
        self.cancel = Some(Cancel::new());
        self.proceed = Some(Proceed::new());
        self.running = true;
        assert(self@ == before.started());
    }

    /// Stops the run, if there is one.
    pub fn stop(&mut self)
        ensures
            final(self)@ == old(self)@.halted(),
    {
        let ghost before = self@;
        if self.cancel.is_none() {
            return ;
        }
        let mut stopped = Cancel::new();
        stopped.cancel();
        self.cancel = Some(stopped);
        self.cancelling = true;
        assert(self@ == (Window { cancel: Some(true), cancelling: true, ..before }));
        self.say(
            OutputKind::Muted,
            owned("Stopping — letting the transfers in flight wind down…"),
        );
    }
}

/// The rows the engine's numbering points at are the ticked ones, in order, one
/// for each podcast it was given.
pub proof fn law_engine_numbers_map_back(feeds: Seq<Row>, n: int, i: int)
    requires
        0 <= n <= feeds.len(),
        n <= usize::MAX,
        0 <= i < chosen_rows(feeds, n).len(),
    ensures
        chosen_rows(feeds, n).len() == chosen(feeds, n).len(),
        ({
            let row = chosen_rows(feeds, n)[i] as int;
            0 <= row < n && feeds[row].selected && chosen(feeds, n)[i] == (Listing {
                title: feeds[row].title,
                url: feeds[row].url,
            })
        }),
        i > 0 ==> chosen_rows(feeds, n)[i - 1] < chosen_rows(feeds, n)[i],
    decreases n,
{
    lemma_chosen_lengths(feeds, n);
    if n > 0 {
        lemma_chosen_lengths(feeds, n - 1);
        if i < chosen_rows(feeds, n - 1).len() {
            law_engine_numbers_map_back(feeds, n - 1, i);
        } else if i > 0 {
            law_engine_numbers_map_back(feeds, n - 1, i - 1);
        }
    }
}

proof fn lemma_chosen_lengths(feeds: Seq<Row>, n: int)
    ensures
        chosen_rows(feeds, n).len() == chosen(feeds, n).len(),
    decreases n,
{
    if n > 0 {
        lemma_chosen_lengths(feeds, n - 1);
    }
}

// ---- Questions ------------------------------------------------------------

impl Window {
    /// With a question on screen.
    pub open spec fn asked(self, question: Question) -> Window {
        Window { dialog: Some(question), focus_dialog: true, ..self }
    }

    /// After a plan has arrived.
    pub open spec fn offered(self, plan: Plan) -> Window {
        match self.dialog {
            Some(_) => Window { pending_plan: Some(plan), ..self },
            None => self.asked(Question::Confirm(plan)),
        }
    }
}

impl PodBatchApp {
    /// Puts a question on screen.
    pub fn ask(&mut self, dialog: Dialog)
        ensures
            final(self)@ == old(self)@.asked(dialog@),
    {
        self.dialog = Some(dialog);
        self.focus_dialog = true;
    }

    /// Put the plan up as a question, or hold it if something else is being
    /// asked first.
    ///
    /// Stopping is reachable while the feeds are still being read, so the plan
    /// can arrive with "Stop downloading?" already on screen. Replacing it
    /// there would swap the buttons under a press already on its way to one of
    /// them — and the swap is from "Stop" to "Download", so an attempt to
    /// abort would start the whole run instead.
    pub fn put_plan(&mut self, plan: Plan)
        ensures
            final(self)@ == old(self)@.offered(plan),
    {
        if self.dialog.is_some() {
            self.pending_plan = Some(plan);
        } else {
            self.ask(Dialog::Confirm(plan));
        }
    }
}

/// A plan that arrives while a question is up changes neither the question nor
/// anything else on screen: it waits.
pub proof fn law_a_plan_mid_question_waits(w: Window, plan: Plan)
    requires
        w.dialog is Some,
    ensures
        w.offered(plan).dialog == w.dialog,
        w.offered(plan).focus_dialog == w.focus_dialog,
        w.offered(plan).pending_plan == Some(plan),
{
}

} // verus!
