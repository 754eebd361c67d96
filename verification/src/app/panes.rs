//! What the panes say: the words, the marks and the colours, and which buttons
//! can be pressed.

use crate::app::failed_among;
use crate::app::finished_among;
use crate::app::tracks;
use crate::app::AudioRow;
use crate::app::FeedRow;
use crate::app::Outcome;
use crate::app::PodBatchApp;
use crate::app::Row;
use crate::app::Totals;
use crate::app::Track;
use crate::app::Window;
use crate::app::news::MARK_DONE;
use crate::app::news::MARK_FAILED;
use crate::app::news::MARK_SKIPPED;
use crate::engine::FeedState;
use crate::engine::FeedStatus;
use crate::engine::Plan;
use crate::feed::optional_text;
use crate::questions::put;
use crate::questions::Dialog;
use crate::questions::Question;
use crate::questions::Speed;
use crate::questions::Wording;
use crate::text::decimal;
use crate::text::owned;
use crate::text::push_decimal;
use crate::text::texts;
use crate::tools::findings;
use crate::tools::plan;
use crate::tools::remedy;
use crate::tools::Finding;
use crate::tools::Found;
use crate::tools::Manager;
use crate::tools::Presence;
use crate::tools::Site;
use crate::tools::Tool;
use crate::transcribe::Stage;
use crate::transcribe::Standing;
use crate::transcribe::Status;
use crate::util::bytes_text;
use crate::util::human_bytes;
use crate::util::text_of;
use crate::util::Rate;
use vstd::prelude::*;

verus! {

/// The most episodes a podcast can be held to.
pub const MOST_EPISODES: usize = 1000;

/// The most files that can be fetched at once.
pub const MOST_AT_ONCE: usize = 16;

/// The smallest and the largest text a transcript can be written in, in points.
pub const SMALLEST_TEXT: u32 = 8;

pub const LARGEST_TEXT: u32 = 48;

/// The colour something is said in.
#[derive(Clone, Copy, PartialEq, Eq, Debug, Structural)]
pub enum Tone {
    Accent,
    Good,
    Muted,
    Bad,
}

/// A few words and their colour.
#[derive(Debug)]
pub struct Note {
    pub text: String,
    pub tone: Tone,
}

/// What a note says.
pub struct Remark {
    pub text: Seq<char>,
    pub tone: Tone,
}

impl View for Note {
    type V = Remark;

    open spec fn view(&self) -> Remark {
        Remark { text: self.text@, tone: self.tone }
    }
}

/// What some notes say.
pub open spec fn remarks(v: Seq<Note>) -> Seq<Remark> {
    v.map_values(|n: Note| n@)
}

// ---- The rows -------------------------------------------------------------

/// The status a podcast row reports on the right of its name.
pub open spec fn feed_remark(row: Row) -> Remark {
    let n = row.episodes.len() as int;
    match row.status {
        FeedState::Pending => Remark { text: ""@, tone: Tone::Muted },
        FeedState::Fetching => Remark { text: "reading…"@, tone: Tone::Accent },
        FeedState::Downloading => Remark {
            text: decimal(finished_among(row.episodes, n)) + "/"@ + decimal(n),
            tone: Tone::Accent,
        },
        FeedState::Done => if failed_among(row.episodes, n) > 0 {
            Remark { text: decimal(failed_among(row.episodes, n)) + " failed"@, tone: Tone::Bad }
        } else {
            Remark { text: decimal(n) + " episodes"@, tone: Tone::Good }
        },
        FeedState::Failed(e) => Remark { text: e, tone: Tone::Bad },
    }
}

/// A number followed by a few words.
fn numbered(n: usize, words: &str) -> (r: String)
    ensures
        r@ == decimal(n as int) + words@,
{
    let mut s = String::new();
    push_decimal(&mut s, n as u64);
    assert(s@ =~= decimal(n as int));
    s.push_str(words);
    s
}

/// Two numbers with a few words between them.
fn fraction_text(a: usize, words: &str, b: usize) -> (r: String)
    ensures
        r@ == decimal(a as int) + words@ + decimal(b as int),
{
    let mut s = numbered(a, words);
    push_decimal(&mut s, b as u64);
    s
}

/// The status a podcast row reports on the right of its name.
pub fn feed_status(feed: &FeedRow) -> (r: Note)
    ensures
        r@ == feed_remark(feed@),
{
    match &feed.status {
        FeedStatus::Pending => Note { text: owned(""), tone: Tone::Muted },
        FeedStatus::Fetching => Note { text: owned("reading…"), tone: Tone::Accent },
        FeedStatus::Downloading => Note {
            text: fraction_text(feed.finished_count(), "/", feed.episodes.len()),
            tone: Tone::Accent,
        },
        FeedStatus::Done => {
            let failed: usize = feed.failed_count();
            if failed > 0 {
                Note { text: numbered(failed, " failed"), tone: Tone::Bad }
            } else {
                Note { text: numbered(feed.episodes.len(), " episodes"), tone: Tone::Good }
            }
        },
        FeedStatus::Failed(e) => Note { text: owned(e.as_str()), tone: Tone::Bad },
    }
}

/// The status an audio row reports on the right of its name: a few words, or
/// how far through the audio Whisper is.
#[derive(Debug)]
pub enum AudioNote {
    Words(Note),
    Heard { heard: u64, length: u64 },
}

/// What an audio row's status says.
pub enum AudioRemark {
    Words(Remark),
    Heard { heard: u64, length: u64 },
}

impl View for AudioNote {
    type V = AudioRemark;

    open spec fn view(&self) -> AudioRemark {
        match self {
            AudioNote::Words(n) => AudioRemark::Words(n@),
            AudioNote::Heard { heard, length } => AudioRemark::Heard {
                heard: *heard,
                length: *length,
            },
        }
    }
}

/// The status an audio row reports on the right of its name.
pub open spec fn audio_remark(track: Track) -> AudioRemark {
    match track.status {
        Standing::Pending => AudioRemark::Words(
            Remark {
                text: if track.transcribed {
                    "transcribed"@
                } else {
                    ""@
                },
                tone: Tone::Muted,
            },
        ),
        Standing::Working(Stage::Transcribing) => AudioRemark::Heard {
            heard: track.heard,
            length: track.length,
        },
        Standing::Working(stage) => AudioRemark::Words(
            Remark { text: stage.name(), tone: Tone::Accent },
        ),
        Standing::Done => AudioRemark::Words(Remark { text: "done"@, tone: Tone::Good }),
        Standing::Skipped => AudioRemark::Words(Remark { text: "skipped"@, tone: Tone::Muted }),
        Standing::Failed(e) => AudioRemark::Words(Remark { text: e, tone: Tone::Bad }),
    }
}

/// The status an audio row reports on the right of its name.
///
/// The stage matters more than the percentage while converting, and the
/// percentage only means anything once Whisper is the one running.
pub fn audio_status(row: &AudioRow) -> (r: AudioNote)
    ensures
        r@ == audio_remark(row@),
{
    match &row.status {
        Status::Pending => AudioNote::Words(
            Note {
                text: if row.transcribed {
                    owned("transcribed")
                } else {
                    owned("")
                },
                tone: Tone::Muted,
            },
        ),
        Status::Working(stage) => match *stage {
            Stage::Transcribing => AudioNote::Heard { heard: row.heard, length: row.length },
            other => AudioNote::Words(Note { text: owned(other.label()), tone: Tone::Accent }),
        },
        Status::Done => AudioNote::Words(Note { text: owned("done"), tone: Tone::Good }),
        Status::Skipped => AudioNote::Words(Note { text: owned("skipped"), tone: Tone::Muted }),
        Status::Failed(e) => AudioNote::Words(Note { text: owned(e.as_str()), tone: Tone::Bad }),
    }
}

// ---- The bar under the downloads ------------------------------------------

/// How many of the first `n` podcasts in the run have said what they hold.
pub open spec fn read_among(w: Window, n: int) -> int
    decreases n,
{
    if n <= 0 {
        0
    } else {
        read_among(w, n - 1) + if w.running_map[n - 1] < w.feeds.len() && w.has_read(
            w.running_map[n - 1],
        ) {
            1int
        } else {
            0
        }
    }
}

/// How far the episodes have got.
pub open spec fn counts_text(t: Totals) -> Seq<char> {
    decimal(t.finished as int) + "/"@ + decimal(t.episodes as int) + " episodes"@
}

/// How far the episodes have got.
fn counts_line(t: &Totals) -> (r: String)
    ensures
        r@ == counts_text(*t),
{
    let mut s = fraction_text(t.finished, "/", t.episodes);
    s.push_str(" episodes");
    s
}

/// How far reading the feeds has got.
pub open spec fn reading_text(read: int, feeds: int) -> Seq<char> {
    "Reading feeds — "@ + decimal(read) + "/"@ + decimal(feeds) + " done"@
}

/// How far reading the feeds has got.
fn reading_line(read: usize, feeds: usize) -> (r: String)
    ensures
        r@ == reading_text(read as int, feeds as int),
{
    let mut s = owned("Reading feeds — ");
    push_decimal(&mut s, read as u64);
    s.push_str("/");
    push_decimal(&mut s, feeds as u64);
    s.push_str(" done");
    s
}

impl Window {
    /// The line above the bar.
    pub open spec fn headline(self) -> Seq<char> {
        if self.feeds.len() == 0 || (!self.running && self.outcome is None) {
            "Ready."@
        } else if self.dialog matches Some(Question::Confirm(_)) {
            "Feeds read — waiting for you"@
        } else if self.running && !self.everything_listed() {
            reading_text(
                read_among(self, self.running_map.len() as int),
                self.running_map.len() as int,
            )
        } else if self.running {
            counts_text(self.totalled())
        } else if self.outcome == Some(Outcome::Stopped) {
            "Stopped at "@ + counts_text(self.totalled())
        } else {
            "Finished — "@ + counts_text(self.totalled())
        }
    }

    /// Whether something on screen moves by itself. Not while the run is held
    /// at the confirmation box: nothing is moving there.
    pub open spec fn moving(self) -> bool {
        self.transcribing || self.installing is Some || (self.running && !(self.dialog matches Some(
            Question::Confirm(_),
        )))
    }
}

/// What follows the line above the bar: what was downloaded, what was already
/// there and what failed, each only where there is any.
pub open spec fn total_remarks(t: Totals) -> Seq<Remark> {
    (if t.downloaded > 0 {
        seq![
            Remark {
                text: "· "@ + decimal(t.downloaded as int) + " downloaded ("@ + bytes_text(
                    t.bytes as int,
                ) + ")"@,
                tone: Tone::Good,
            },
        ]
    } else {
        seq![]
    }) + (if t.skipped > 0 {
        seq![
            Remark {
                text: "· "@ + decimal(t.skipped as int) + " already had"@,
                tone: Tone::Muted,
            },
        ]
    } else {
        seq![]
    }) + (if t.failed > 0 {
        seq![Remark { text: "· "@ + decimal(t.failed as int) + " failed"@, tone: Tone::Bad }]
    } else {
        seq![]
    })
}

/// One of the counts after the line above the bar.
fn dotted(n: usize, words: &str) -> (r: String)
    ensures
        r@ == "· "@ + decimal(n as int) + words@,
{
    let mut s = owned("· ");
    push_decimal(&mut s, n as u64);
    s.push_str(words);
    s
}

/// What was downloaded, after the line above the bar.
fn downloaded_line(t: &Totals) -> (r: String)
    ensures
        r@ == "· "@ + decimal(t.downloaded as int) + " downloaded ("@ + bytes_text(
            t.bytes as int,
        ) + ")"@,
{
    let mut s = dotted(t.downloaded, " downloaded (");
    s.push_str(human_bytes(t.bytes).as_str());
    s.push_str(")");
    s
}

/// What follows the line above the bar.
pub fn total_notes(t: &Totals) -> (r: Vec<Note>)
    ensures
        remarks(r@) == total_remarks(*t),
{
    let mut r: Vec<Note> = Vec::new();
    if t.downloaded > 0 {
        r.push(Note { text: downloaded_line(t), tone: Tone::Good });
    }
    if t.skipped > 0 {
        r.push(Note { text: dotted(t.skipped, " already had"), tone: Tone::Muted });
    }
    if t.failed > 0 {
        r.push(Note { text: dotted(t.failed, " failed"), tone: Tone::Bad });
    }
    assert(remarks(r@) =~= total_remarks(*t));
    r
}

impl PodBatchApp {
    /// Whether the question on screen is whether to download.
    fn is_confirming(&self) -> (r: bool)
        ensures
            r == (self@.dialog matches Some(Question::Confirm(_))),
    {
        match &self.dialog {
            Some(Dialog::Confirm(_)) => true,
            _ => false,
        }
    }

    /// How many podcasts in the run have said what they hold.
    fn read_count(&self) -> (r: usize)
        ensures
            r == read_among(self@, self@.running_map.len() as int),
    {
        let ghost w = self@;
        let mut n: usize = 0;
        let mut i: usize = 0;
        while i < self.running_map.len()
            invariant
                i <= self.running_map@.len(),
                w == self@,
                n == read_among(w, i as int),
                n <= i,
            decreases self.running_map@.len() - i,
        {
            let row: usize = self.running_map[i];
            assert(w.running_map[i as int] == row);
            if row < self.feeds.len() {
                assert(w.feeds[row as int] == self.feeds@[row as int]@);
                if self.feeds[row].listed || self.feeds[row].status.is_settled() {
                    n = n + 1;
                }
            }
            i += 1;
        }
        n
    }

    /// The line above the bar that spans both panes.
    ///
    /// "0/0 episodes" before anything has run is a true statement that reads
    /// like a failure, so a run that hasn't happened says so.
    pub fn headline(&self) -> (r: String)
        ensures
            r@ == self@.headline(),
    {
        if self.feeds.len() == 0 || (!self.running && self.outcome.is_none()) {
            return owned("Ready.");
        }
        if self.is_confirming() {
            return owned("Feeds read — waiting for you");
        }
        if self.running && !self.all_listed() {
            return reading_line(self.read_count(), self.running_map.len());
        }
        let counts = counts_line(&self.totals());
        if self.running {
            return counts;
        }
        let mut s = match self.outcome {
            Some(Outcome::Stopped) => owned("Stopped at "),
            _ => owned("Finished — "),
        };
        s.push_str(counts.as_str());
        s
    }

    /// Whether something on screen moves by itself and needs a clock.
    ///
    /// Transcribing reports once per segment, which on a quiet passage can be
    /// several seconds apart; an install reports only when it feels like it; a
    /// download reports at most ten times a second. All need a steadier clock
    /// than that to animate against.
    pub fn animates(&self) -> (r: bool)
        ensures
            r == self@.moving(),
    {
        self.transcribing || self.installing.is_some() || (self.running && !self.is_confirming())
    }

    /// The button that starts and stops downloads.
    pub fn download_button(&self) -> (r: DownloadButton)
        ensures
            r == (if self@.running {
                if self@.cancelling {
                    DownloadButton::Stopping
                } else {
                    DownloadButton::Stop { enabled: self@.dialog is None }
                }
            } else if self@.ticked() == 0 {
                DownloadButton::NeedsPodcasts
            } else {
                DownloadButton::Ready
            }),
    {
        if self.running {
            if self.cancelling {
                DownloadButton::Stopping
            } else {
                DownloadButton::Stop { enabled: self.dialog.is_none() }
            }
        } else if self.selected_count() == 0 {
            DownloadButton::NeedsPodcasts
        } else {
            DownloadButton::Ready
        }
    }
}

/// What the button that starts and stops downloads is.
#[derive(Clone, Copy, PartialEq, Eq, Debug, Structural)]
pub enum DownloadButton {
    Stopping,
    Stop { enabled: bool },
    /// Nothing is ticked, so there is nothing to start.
    NeedsPodcasts,
    Ready,
}

/// What the button that starts and stops transcribing is.
#[derive(Clone, Copy, PartialEq, Eq, Debug, Structural)]
pub enum TranscribeButton {
    Stop { enabled: bool },
    /// Something it takes is missing.
    NeedsTools,
    /// Nothing is ticked, so there is nothing to start.
    NeedsFiles,
    /// Something is being installed.
    Busy,
    Ready,
}

/// How many of a list are ticked, in words.
pub fn selection_text(ticked: usize, total: usize) -> (r: String)
    ensures
        r@ == decimal(ticked as int) + " of "@ + decimal(total as int) + " selected"@,
{
    let mut s = fraction_text(ticked, " of ", total);
    s.push_str(" selected");
    s
}

// ---- The Transcripts tab --------------------------------------------------

/// A line in the list of what transcribing needs.
#[derive(Debug)]
pub struct ToolRow {
    pub tool: Tool,
    pub mark: &'static str,
    pub tone: Tone,
    /// What identifies it, when it is there. When it is not, the row offers to
    /// install it.
    pub detail: Option<String>,
}

/// What a line in the list of what transcribing needs says.
pub struct ToolLine {
    pub tool: Tool,
    pub mark: Seq<char>,
    pub tone: Tone,
    pub detail: Option<Seq<char>>,
}

impl View for ToolRow {
    type V = ToolLine;

    open spec fn view(&self) -> ToolLine {
        ToolLine {
            tool: self.tool,
            mark: self.mark@,
            tone: self.tone,
            detail: optional_text(self.detail),
        }
    }
}

/// What the list of what transcribing needs says.
pub open spec fn tool_lines(v: Seq<ToolRow>) -> Seq<ToolLine> {
    v.map_values(|t: ToolRow| t@)
}

/// The line for one tool.
pub open spec fn tool_line(f: Finding) -> ToolLine {
    ToolLine {
        tool: f.tool,
        mark: if f.shown is Some {
            MARK_DONE@
        } else if f.tool.can_do_without() {
            MARK_SKIPPED@
        } else {
            MARK_FAILED@
        },
        tone: if f.shown is Some {
            Tone::Good
        } else if f.tool.can_do_without() {
            Tone::Muted
        } else {
            Tone::Bad
        },
        detail: f.shown,
    }
}

/// The lines for the first `n` tools looked for. A package manager that is
/// present is scaffolding, not a requirement, so it gets none.
pub open spec fn listed_tools(tools: Seq<Finding>, n: int) -> Seq<ToolLine>
    decreases n,
{
    if n <= 0 {
        Seq::empty()
    } else if tools[n - 1].tool == Tool::PackageManager && tools[n - 1].shown is Some {
        listed_tools(tools, n - 1)
    } else {
        listed_tools(tools, n - 1).push(tool_line(tools[n - 1]))
    }
}

/// The line for one tool.
fn tool_row(found: &Found) -> (r: ToolRow)
    ensures
        r@ == tool_line(found@),
{
    match &found.presence {
        Presence::Ready(detail) => ToolRow {
            tool: found.tool,
            mark: MARK_DONE,
            tone: Tone::Good,
            detail: Some(owned(detail.as_str())),
        },
        Presence::Missing => if found.tool.optional() {
            ToolRow { tool: found.tool, mark: MARK_SKIPPED, tone: Tone::Muted, detail: None }
        } else {
            ToolRow { tool: found.tool, mark: MARK_FAILED, tone: Tone::Bad, detail: None }
        },
    }
}

/// Whether the first mention of the package manager says it is there.
pub open spec fn has_manager(tools: Seq<Finding>) -> bool
    decreases tools.len(),
{
    if tools.len() == 0 {
        false
    } else if tools[0].tool == Tool::PackageManager {
        tools[0].shown is Some
    } else {
        has_manager(tools.skip(1))
    }
}

/// What the bar under the Transcripts tab shows.
#[derive(Debug)]
pub enum JobBar {
    /// How far an install is, when that is known.
    Installing { headline: String, detail: String, done: Option<(u64, u64)> },
    /// How many files have settled of how many, what is being done to the one
    /// in hand, and how far through the ones in hand Whisper is.
    Transcribing { settled: usize, total: usize, working: Option<String>, parts: Vec<(u64, u64)> },
}

/// How far an install is, in words.
pub open spec fn install_detail(progress: Option<(u64, Option<u64>)>) -> Seq<char> {
    match progress {
        Some((done, Some(total))) if total > 0 => bytes_text(done as int) + " of "@ + bytes_text(
            total as int,
        ),
        Some((done, _)) => bytes_text(done as int),
        None => "working…"@,
    }
}

/// How far an install is, where it says so.
pub open spec fn install_part(progress: Option<(u64, Option<u64>)>) -> Option<(u64, u64)> {
    match progress {
        Some((done, Some(total))) if total > 0 && done > 0 => Some((done, total)),
        _ => None,
    }
}

/// How far an install is, in words.
fn install_detail_line(progress: Option<(u64, Option<u64>)>) -> (r: String)
    ensures
        r@ == install_detail(progress),
{
    match progress {
        Some((done, total)) => {
            let mut s = human_bytes(done);
            match total {
                Some(total) => {
                    if total > 0 {
                        s.push_str(" of ");
                        s.push_str(human_bytes(total).as_str());
                    }
                },
                None => {},
            }
            s
        },
        None => owned("working…"),
    }
}

/// How many of the first `n` files nothing more will come of.
pub open spec fn settled_among(audio: Seq<Track>, n: int) -> int
    decreases n,
{
    if n <= 0 {
        0
    } else {
        settled_among(audio, n - 1) + if audio[n - 1].status is Done || audio[n - 1].status
            is Skipped || audio[n - 1].status is Failed {
            1int
        } else {
            0
        }
    }
}

/// How far through each of the files in hand, among the first `n`, Whisper is.
pub open spec fn parts_among(audio: Seq<Track>, n: int) -> Seq<(u64, u64)>
    decreases n,
{
    if n <= 0 {
        Seq::empty()
    } else if audio[n - 1].status is Working {
        parts_among(audio, n - 1).push((audio[n - 1].heard, audio[n - 1].length))
    } else {
        parts_among(audio, n - 1)
    }
}

/// The first file in hand and what is being done to it, from file `i` on.
pub open spec fn working_from(audio: Seq<Track>, i: int) -> Option<Seq<char>>
    decreases audio.len() - i,
{
    if i < 0 || i >= audio.len() {
        None
    } else {
        match audio[i].status {
            Standing::Working(stage) => Some(audio[i].name + " — "@ + stage.name()),
            _ => working_from(audio, i + 1),
        }
    }
}

impl Window {
    /// How many files the bar counts towards: those ticked, and at least one.
    pub open spec fn files_in_hand(self) -> int {
        if self.ticked_files().len() == 0 {
            1
        } else {
            self.ticked_files().len() as int
        }
    }
}

impl PodBatchApp {
    /// What transcribing needs, and what of it is there.
    pub fn tool_rows(&self) -> (r: Vec<ToolRow>)
        ensures
            tool_lines(r@) == listed_tools(self@.tools, self@.tools.len() as int),
    {
        let ghost list = findings(self.tools@);
        let mut r: Vec<ToolRow> = Vec::new();
        let mut i: usize = 0;
        assert(tool_lines(r@) =~= Seq::empty());
        while i < self.tools.len()
            invariant
                i <= self.tools@.len(),
                list == findings(self.tools@),
                tool_lines(r@) == listed_tools(list, i as int),
            decreases self.tools@.len() - i,
        {
            assert(list[i as int] == self.tools@[i as int]@);
            if self.tools[i].tool == Tool::PackageManager && self.tools[i].presence.is_ready() {
            } else {
                let row = tool_row(&self.tools[i]);
                assert(tool_lines(r@.push(row)) =~= tool_lines(r@).push(row@));
                r.push(row);
            }
            i += 1;
        }
        r
    }

    /// Whether to say that the pieces have to be installed by hand, there being
    /// no package manager.
    pub fn lacks_manager(&self) -> (r: bool)
        ensures
            r == (self@.tools.len() > 0 && !has_manager(self@.tools)),
    {
        let ghost list = findings(self.tools@);
        let mut i: usize = 0;
        assert(list.skip(0) =~= list);
        while i < self.tools.len()
            invariant
                i <= self.tools@.len(),
                list == findings(self.tools@),
                has_manager(list) == has_manager(list.skip(i as int)),
            decreases self.tools@.len() - i,
        {
            assert(list.skip(i as int)[0] == self.tools@[i as int]@);
            assert(list.skip(i as int).skip(1) =~= list.skip(i + 1));
            if self.tools[i].tool == Tool::PackageManager {
                return !self.tools[i].presence.is_ready();
            }
            i += 1;
        }
        self.tools.len() > 0
    }

    /// Asks before installing something, with the exact command written out.
    pub fn ask_install(&mut self, tool: Tool, manager: Option<Manager>, site: &Site)
        ensures
            final(self)@ == old(self)@.asked(
                Question::Install { tool, remedy: remedy(
                    tool,
                    manager,
                    site.platform,
                    optional_text(site.ollama),
                    site.model_path@,
                ) },
            ),
    {
        let install = plan(tool, manager, site);
        self.ask(Dialog::Install { tool, install });
    }

    /// The button that starts and stops transcribing.
    pub fn transcribe_button(&self) -> (r: TranscribeButton)
        ensures
            r == (if self@.transcribing {
                TranscribeButton::Stop { enabled: self@.dialog is None }
            } else if !self@.able() {
                TranscribeButton::NeedsTools
            } else if self@.ticked_files().len() == 0 {
                TranscribeButton::NeedsFiles
            } else if self@.installing is Some {
                TranscribeButton::Busy
            } else {
                TranscribeButton::Ready
            }),
    {
        let ticked = self.ticked_audio();
        assert(texts(ticked@).len() == ticked@.len());
        if self.transcribing {
            TranscribeButton::Stop { enabled: self.dialog.is_none() }
        } else if !self.can_transcribe() {
            TranscribeButton::NeedsTools
        } else if ticked.len() == 0 {
            TranscribeButton::NeedsFiles
        } else if self.installing.is_some() {
            TranscribeButton::Busy
        } else {
            TranscribeButton::Ready
        }
    }

    /// How many files nothing more will come of.
    fn settled_files(&self) -> (r: usize)
        ensures
            r == settled_among(self@.audio, self@.audio.len() as int),
    {
        let ghost list = tracks(self.audio@);
        let mut n: usize = 0;
        let mut i: usize = 0;
        while i < self.audio.len()
            invariant
                i <= self.audio@.len(),
                list == tracks(self.audio@),
                n == settled_among(list, i as int),
                n <= i,
            decreases self.audio@.len() - i,
        {
            assert(list[i as int] == self.audio@[i as int]@);
            let settled = match self.audio[i].status {
                Status::Done => true,
                Status::Skipped => true,
                Status::Failed(_) => true,
                _ => false,
            };
            if settled {
                n = n + 1;
            }
            i += 1;
        }
        n
    }

    /// How far through each of the files in hand Whisper is.
    fn parts(&self) -> (r: Vec<(u64, u64)>)
        ensures
            r@ == parts_among(self@.audio, self@.audio.len() as int),
    {
        let ghost list = tracks(self.audio@);
        let mut r: Vec<(u64, u64)> = Vec::new();
        let mut i: usize = 0;
        assert(r@ =~= Seq::empty());
        while i < self.audio.len()
            invariant
                i <= self.audio@.len(),
                list == tracks(self.audio@),
                r@ == parts_among(list, i as int),
            decreases self.audio@.len() - i,
        {
            assert(list[i as int] == self.audio@[i as int]@);
            let working = match self.audio[i].status {
                Status::Working(_) => true,
                _ => false,
            };
            if working {
                r.push((self.audio[i].heard, self.audio[i].length));
            }
            i += 1;
        }
        r
    }

    /// The first file in hand and what is being done to it.
    fn working(&self) -> (r: Option<String>)
        ensures
            optional_text(r) == working_from(self@.audio, 0),
    {
        let ghost list = tracks(self.audio@);
        let mut i: usize = 0;
        while i < self.audio.len()
            invariant
                i <= self.audio@.len(),
                list == tracks(self.audio@),
                working_from(list, 0) == working_from(list, i as int),
            decreases self.audio@.len() - i,
        {
            assert(list[i as int] == self.audio@[i as int]@);
            match &self.audio[i].status {
                Status::Working(stage) => {
                    let mut s = owned(self.audio[i].name.as_str());
                    s.push_str(" — ");
                    s.push_str(stage.label());
                    return Some(s);
                },
                _ => {},
            }
            i += 1;
        }
        None
    }

    /// One bar across the bottom of the Transcripts tab, for whichever long job
    /// is running — an install, or the transcription itself.
    ///
    /// The two never overlap: installing is blocked while transcribing and the
    /// other way round, so one bar can serve both without ambiguity about which
    /// it is reporting. A package manager gives no percentage, so there the bar
    /// animates rather than lying about how far along it is. The file in hand
    /// counts for the fraction of itself that is done, so the bar keeps moving
    /// through a long episode rather than sitting still for ten minutes and then
    /// jumping.
    pub fn job_bar(&self) -> (r: Option<JobBar>)
        ensures
            match self@.installing {
                Some(tool) => r matches Some(JobBar::Installing { headline, detail, done })
                    && headline@ == "Installing "@ + tool.name() && detail@ == install_detail(
                    self@.install_progress,
                ) && done == install_part(self@.install_progress),
                None => if self@.transcribing {
                    r matches Some(JobBar::Transcribing { settled, total, working, parts })
                        && settled == settled_among(self@.audio, self@.audio.len() as int) && total
                        == self@.files_in_hand() && optional_text(working) == working_from(
                        self@.audio,
                        0,
                    ) && parts@ == parts_among(self@.audio, self@.audio.len() as int)
                } else {
                    r is None
                },
            },
    {
        match self.installing {
            Some(tool) => {
                let mut headline = owned("Installing ");
                headline.push_str(tool.label());
                let detail = install_detail_line(self.install_progress);
                let done: Option<(u64, u64)> = match self.install_progress {
                    Some((done, Some(total))) => if total > 0 && done > 0 {
                        Some((done, total))
                    } else {
                        None
                    },
                    _ => None,
                };
                Some(JobBar::Installing { headline, detail, done })
            },
            None => {
                if !self.transcribing {
                    return None;
                }
                let ticked = self.ticked_audio();
                assert(texts(ticked@).len() == ticked@.len());
                let total: usize = if ticked.len() == 0 {
                    1
                } else {
                    ticked.len()
                };
                Some(
                    JobBar::Transcribing {
                        settled: self.settled_files(),
                        total,
                        working: self.working(),
                        parts: self.parts(),
                    },
                )
            },
        }
    }
}

// ---- The question on screen -----------------------------------------------

impl Window {
    /// The speed an estimate is made from: one measured on a whole run, or
    /// failing that the one the plan was probed at.
    pub open spec fn speed(self, plan: Plan) -> Option<Speed> {
        match (self.measured_rate, plan.probed_rate) {
            (Some(rate), _) => Some(Speed::Measured(rate)),
            (None, Some(rate)) => Some(Speed::Probed(rate)),
            (None, None) => None,
        }
    }
}

impl PodBatchApp {
    /// The speed an estimate is made from: one measured on a whole run, or
    /// failing that the one the plan was probed at.
    pub fn speed(&self, plan: &Plan) -> (r: Option<Speed>)
        ensures
            r == self@.speed(*plan),
    {
        match (self.measured_rate, plan.probed_rate) {
            (Some(rate), _) => Some(Speed::Measured(rate)),
            (None, Some(rate)) => Some(Speed::Probed(rate)),
            (None, None) => None,
        }
    }

    /// The question on screen, in words.
    pub fn wording(&self, home: Option<&str>, sep: char) -> (r: Option<Wording>)
        ensures
            match self@.dialog {
                None => r is None,
                Some(question) => r matches Some(wording) && wording@ == put(
                    question,
                    match question {
                        Question::Confirm(plan) => self@.speed(plan),
                        _ => None,
                    },
                    self@.concurrency,
                    text_of(home),
                    sep,
                ),
            },
    {
        match &self.dialog {
            None => None,
            Some(dialog) => {
                let speed = match dialog {
                    Dialog::Confirm(plan) => self.speed(plan),
                    _ => None,
                };
                Some(dialog.wording(speed, self.concurrency, home, sep))
            },
        }
    }
}

/// Once a run has been measured, estimates rest on that and no longer on what
/// one connection managed beforehand.
pub proof fn law_a_measured_speed_replaces_the_probe(w: Window, rate: Rate, plan: Plan)
    requires
        w.measured_rate == Some(rate),
    ensures
        w.speed(plan) == Some(Speed::Measured(rate)),
{
}

} // verus!
