//! What the window makes of what it is told: by the download engine, by the
//! transcription engine, and by an install.

use crate::transcribe;
use crate::app::cue_for;
use crate::app::ending_cue;
use crate::app::entries;
use crate::app::tracks;
use crate::app::CUE_EPISODE_DONE;
use crate::app::CUE_GAP;
use crate::app::CUE_RUN_ENDED;
use crate::app::CUE_SOMETHING_FAILED;
use crate::app::Effect;
use crate::app::Entry;
use crate::app::EpisodeRow;
use crate::app::Outcome;
use crate::app::OutputKind;
use crate::app::PodBatchApp;
use crate::app::Row;
use crate::app::Shown;
use crate::app::Track;
use crate::app::Window;
use crate::app::Wish;
use crate::app::actions::Action;
use crate::app::transcripts::place_of_path;
use crate::engine::infos;
use crate::engine::planned;
use crate::engine::reports;
use crate::engine::EpisodeInfo;
use crate::engine::EpisodeState;
use crate::engine::EpisodeStatus;
use crate::engine::FeedStatus;
use crate::engine::Info;
use crate::engine::Plan;
use crate::engine::Report;
use crate::engine::Run;
use crate::engine::Update;
use crate::logs::Line;
use crate::logs::Outcome as Filed;
use crate::questions::count;
use crate::questions::headline_text;
use crate::questions::plan_headline;
use crate::questions::Question;
use crate::sound::Cue;
use crate::text::owned;
use crate::text::same_str;
use crate::tools::contains_text;
use crate::tools::has_text;
use crate::tools::Remedy;
use crate::tools::Tool;
use crate::transcribe::Standing;
use crate::transcribe::Status;
use crate::util::bytes_text;
use crate::util::counted_text;
use crate::util::human_bytes;
use crate::util::Rate;
use vstd::prelude::*;

verus! {

/// The marks down the left of the output.
///
/// Every one of these has a glyph in the fonts the window is drawn with. A
/// character none of them carries is drawn as an empty box — so "it looks like
/// a tick" is not a good enough reason to use one.
pub const MARK_DONE: &'static str = "✔";

pub const MARK_SKIPPED: &'static str = "=";

pub const MARK_FAILED: &'static str = "✖";

/// The shortest run a rate is kept from, in microseconds.
pub const RATE_TIME: u64 = 2_000_000;

/// The smallest run a rate is kept from, in bytes.
pub const RATE_BYTES: u64 = 4_194_304;

// ---- Cues -----------------------------------------------------------------

/// Whether a cue can be heard as a cue.
pub open spec fn due(rank: u8, last: Option<u64>, now: u64) -> bool {
    rank == CUE_RUN_ENDED || match last {
        Some(last) => now - last >= CUE_GAP,
        None => true,
    }
}

/// Whether a cue can be heard as a cue, given when the last one played.
///
/// The end of a run is never held back. That is the sound someone who walked
/// away is listening for, and dropping it because an episode happened to land
/// a moment earlier would lose the only one that had to be heard.
pub fn cue_is_due(rank: u8, last: Option<u64>, now: u64) -> (r: bool)
    ensures
        r == due(rank, last, now),
{
    rank == CUE_RUN_ENDED || match last {
        Some(last) => now >= last && now - last >= CUE_GAP,
        None => true,
    }
}

/// The louder of what a batch has earned so far and what came next; the later
/// of two that matter as much.
pub open spec fn louder(sofar: Option<(u8, Cue)>, next: Option<(u8, Cue)>) -> Option<(u8, Cue)> {
    match (sofar, next) {
        (Some((existing, _)), Some((rank, _))) => if rank >= existing {
            next
        } else {
            sofar
        },
        (None, _) => next,
        (_, None) => sofar,
    }
}

/// The louder of what a batch has earned so far and what came next; the later
/// of two that matter as much.
fn loudest(sofar: Option<(u8, Cue)>, next: Option<(u8, Cue)>) -> (r: Option<(u8, Cue)>)
    ensures
        r == louder(sofar, next),
{
    match (sofar, next) {
        (Some((existing, _)), Some((rank, _))) => if rank >= existing {
            next
        } else {
            sofar
        },
        (None, _) => next,
        (_, None) => sofar,
    }
}

impl Window {
    /// After a cue has been earned.
    pub open spec fn played(self, rank: u8, cue: Cue, now: u64) -> Window {
        if self.play_sounds && due(rank, self.last_cue, now) {
            Window { last_cue: Some(now), ..self.wished(Wish::Play(cue)) }
        } else {
            self
        }
    }

    /// After the loudest cue of a batch, if it earned any.
    pub open spec fn sounded(self, cue: Option<(u8, Cue)>, now: u64) -> Window {
        match cue {
            Some((rank, cue)) => self.played(rank, cue, now),
            None => self,
        }
    }
}

impl PodBatchApp {
    /// Play a cue, unless one was played too recently for a second to be heard
    /// as anything but noise.
    pub fn play(&mut self, rank: u8, cue: Cue, now: u64)
        ensures
            final(self)@ == old(self)@.played(rank, cue, now),
    {
        if self.play_sounds && cue_is_due(rank, self.last_cue, now) {
            self.wish(Effect::Play(cue));
            self.last_cue = Some(now);
        }
    }

    /// Play the loudest cue of a batch, if it earned any.
    fn sound(&mut self, cue: Option<(u8, Cue)>, now: u64)
        ensures
            final(self)@ == old(self)@.sounded(cue, now),
    {
        match cue {
            Some((rank, cue)) => self.play(rank, cue, now),
            None => {},
        }
    }
}

/// The cue that ends a run is heard whenever sounds are on, however recently
/// another was.
pub proof fn law_the_end_is_always_heard(w: Window, cue: Cue, now: u64)
    requires
        w.play_sounds,
    ensures
        w.played(CUE_RUN_ENDED, cue, now).todo == w.todo.push(Wish::Play(cue)),
{
}

/// Two cues inside a run are never closer than the gap.
pub proof fn law_cues_are_spaced_out(w: Window, rank: u8, cue: Cue, last: u64, now: u64)
    requires
        w.last_cue == Some(last),
        rank != CUE_RUN_ENDED,
        now - last < CUE_GAP,
    ensures
        w.played(rank, cue, now) == w,
{
}

// ---- The download engine --------------------------------------------------

/// An episode's row as it is first listed.
pub open spec fn fresh_entry(info: Info) -> Entry {
    Entry {
        title: info.title,
        file_name: info.file_name,
        status: EpisodeState::Pending,
        done: 0,
        total: info.size_hint,
    }
}

/// The rows for a podcast's episodes.
pub open spec fn fresh_entries(list: Seq<Info>) -> Seq<Entry> {
    list.map_values(|i: Info| fresh_entry(i))
}

/// The rows for a podcast's episodes.
fn fresh_episodes(list: &Vec<EpisodeInfo>) -> (r: Vec<EpisodeRow>)
    ensures
        entries(r@) == fresh_entries(infos(list@)),
{
    let ghost want = fresh_entries(infos(list@));
    let mut r: Vec<EpisodeRow> = Vec::new();
    let mut i: usize = 0;
    while i < list.len()
        invariant
            i <= list@.len(),
            want == fresh_entries(infos(list@)),
            entries(r@) == want.take(i as int),
        decreases list@.len() - i,
    {
        let row = EpisodeRow {
            title: list[i].title.clone(),
            file_name: list[i].file_name.clone(),
            status: EpisodeStatus::Pending,
            done: 0,
            total: list[i].size_hint,
        };
        proof {
            assert(row@ == want[i as int]);
            assert(entries(r@.push(row)) =~= entries(r@).push(row@));
            assert(want.take(i + 1) =~= want.take(i as int).push(want[i as int]));
        }
        r.push(row);
        i += 1;
    }
    assert(want.take(i as int) =~= want);
    r
}

/// The same status again.
fn copy_feed_status(status: &FeedStatus) -> (r: FeedStatus)
    ensures
        r@ == status@,
{
    match status {
        FeedStatus::Pending => FeedStatus::Pending,
        FeedStatus::Fetching => FeedStatus::Fetching,
        FeedStatus::Downloading => FeedStatus::Downloading,
        FeedStatus::Done => FeedStatus::Done,
        FeedStatus::Failed(e) => FeedStatus::Failed(owned(e.as_str())),
    }
}

/// The same status again.
fn copy_episode_status(status: &EpisodeStatus) -> (r: EpisodeStatus)
    ensures
        r@ == status@,
{
    match status {
        EpisodeStatus::Pending => EpisodeStatus::Pending,
        EpisodeStatus::Downloading => EpisodeStatus::Downloading,
        EpisodeStatus::Done => EpisodeStatus::Done,
        EpisodeStatus::Skipped => EpisodeStatus::Skipped,
        EpisodeStatus::Unticked => EpisodeStatus::Unticked,
        EpisodeStatus::Cancelled => EpisodeStatus::Cancelled,
        EpisodeStatus::Failed(e) => EpisodeStatus::Failed(owned(e.as_str())),
    }
}

/// The line an episode earns as it settles: its colour, how it is filed, and
/// what it says. Named by the episode throughout, with the file it landed in
/// after it: the file name is a timestamp, and on its own it says nothing about
/// which episode just arrived.
pub open spec fn settled_line(show: Seq<char>, e: Entry, status: EpisodeState) -> Option<
    (OutputKind, Filed, Seq<char>),
> {
    match status {
        EpisodeState::Done => Some(
            (
                OutputKind::Good,
                Filed::Done,
                MARK_DONE@ + " "@ + show + " — "@ + e.title + " → "@ + e.file_name + " ("@
                    + bytes_text(e.done as int) + ")"@,
            ),
        ),
        EpisodeState::Skipped => Some(
            (
                OutputKind::Muted,
                Filed::Skipped,
                MARK_SKIPPED@ + " "@ + show + " — "@ + e.title + " → "@ + e.file_name
                    + " (already downloaded)"@,
            ),
        ),
        EpisodeState::Failed(why) => Some(
            (
                OutputKind::Bad,
                Filed::Failed,
                MARK_FAILED@ + " "@ + show + " — "@ + e.title + ": "@ + why,
            ),
        ),
        _ => None,
    }
}

/// What is said of a line that may be earned.
pub open spec fn line_of(line: Option<(OutputKind, Filed, String)>) -> Option<
    (OutputKind, Filed, Seq<char>),
> {
    match line {
        Some((kind, filed, text)) => Some((kind, filed, text@)),
        None => None,
    }
}

/// The line an episode earns as it settles.
fn settle_line(show: &str, e: &EpisodeRow, status: &EpisodeStatus) -> (r: Option<
    (OutputKind, Filed, String),
>)
    ensures
        line_of(r) == settled_line(show@, e@, status@),
{
    match status {
        EpisodeStatus::Done => {
            let mut s = owned(MARK_DONE);
            s.push_str(" ");
            s.push_str(show);
            s.push_str(" — ");
            s.push_str(e.title.as_str());
            s.push_str(" → ");
            s.push_str(e.file_name.as_str());
            s.push_str(" (");
            s.push_str(human_bytes(e.done).as_str());
            s.push_str(")");
            Some((OutputKind::Good, Filed::Done, s))
        },
        EpisodeStatus::Skipped => {
            let mut s = owned(MARK_SKIPPED);
            s.push_str(" ");
            s.push_str(show);
            s.push_str(" — ");
            s.push_str(e.title.as_str());
            s.push_str(" → ");
            s.push_str(e.file_name.as_str());
            s.push_str(" (already downloaded)");
            Some((OutputKind::Muted, Filed::Skipped, s))
        },
        EpisodeStatus::Failed(why) => {
            let mut s = owned(MARK_FAILED);
            s.push_str(" ");
            s.push_str(show);
            s.push_str(" — ");
            s.push_str(e.title.as_str());
            s.push_str(": ");
            s.push_str(why.as_str());
            Some((OutputKind::Bad, Filed::Failed, s))
        },
        _ => None,
    }
}

/// The cue an episode earns as it settles.
pub open spec fn settled_cue(status: EpisodeState) -> Option<(u8, Cue)> {
    match status {
        EpisodeState::Done => Some((CUE_EPISODE_DONE, Cue::Success)),
        EpisodeState::Failed(_) => Some((CUE_SOMETHING_FAILED, Cue::Failure)),
        _ => None,
    }
}

/// A rate worth keeping: one from a run long enough and large enough to have
/// measured anything.
pub open spec fn run_rate(bytes: u64, micros: int) -> Option<Rate> {
    if micros >= RATE_TIME && bytes >= RATE_BYTES {
        Some(Rate { bytes, micros: micros as u64 })
    } else {
        None
    }
}

impl Window {
    /// The row the engine's number for a podcast stands for.
    pub open spec fn row_of(self, feed: int) -> Option<int> {
        if 0 <= feed < self.running_map.len() && self.running_map[feed] < self.feeds.len() {
            Some(self.running_map[feed] as int)
        } else {
            None
        }
    }

    /// With one podcast's row changed.
    pub open spec fn with_row(self, row: int, to: Row) -> Window {
        Window { feeds: self.feeds.update(row, to), ..self }
    }

    /// With one episode's row changed.
    pub open spec fn with_entry(self, row: int, episode: int, to: Entry) -> Window {
        self.with_row(
            row,
            Row { episodes: self.feeds[row].episodes.update(episode, to), ..self.feeds[row] },
        )
    }

    /// Where an episode the engine speaks of stands in the lists, if it does.
    pub open spec fn entry_of(self, feed: int, episode: int) -> Option<(int, int)> {
        match self.row_of(feed) {
            Some(row) => if 0 <= episode < self.feeds[row].episodes.len() {
                Some((row, episode))
            } else {
                None
            },
            None => None,
        }
    }

    /// After a line that may have been earned.
    pub open spec fn told(self, line: Option<(OutputKind, Filed, Seq<char>)>) -> Window {
        match line {
            Some((kind, filed, text)) => self.said_as(kind, filed, text),
            None => self,
        }
    }

    /// After a run has ended, with the rate it went at remembered.
    pub open spec fn rate_noted(self, cancelled: bool, now: u64) -> Window {
        let rested = Window { downloads_began: None, ..self };
        match self.downloads_began {
            None => self,
            Some(began) => if cancelled {
                rested
            } else {
                match run_rate(self.totalled().bytes, now - began) {
                    Some(rate) => Window { measured_rate: Some(rate), ..rested },
                    None => rested,
                }
            },
        }
    }

    /// After a run has ended.
    pub open spec fn finished(self, cancelled: bool, now: u64) -> Window {
        Window {
            outcome: Some(if cancelled {
                Outcome::Stopped
            } else {
                Outcome::Completed
            }),
            running: false,
            cancelling: false,
            cancel: None,
            proceed: None,
            dialog: None,
            pending_plan: None,
            ..self.rate_noted(cancelled, now)
        }
    }

    /// After a plan has been worked out. Nothing to fetch is nothing to ask
    /// about.
    pub open spec fn planned(self, plan: Plan) -> Window {
        if plan.episodes > 0 {
            self.said(OutputKind::Plain, headline_text(plan)).offered(plan)
        } else if plan.skipped > 0 {
            self.said(
                OutputKind::Muted,
                "Every episode is already downloaded — nothing to fetch."@,
            )
        } else {
            self
        }
    }

    /// After hearing one thing from the download engine.
    pub open spec fn heard(self, report: Report, now: u64) -> Window {
        match report {
            Report::FeedFolder { feed, name } => match self.row_of(feed) {
                Some(row) => self.with_row(row, Row { folder: name, ..self.feeds[row] }),
                None => self,
            },
            Report::FeedStatus { feed, status } => match self.row_of(feed) {
                Some(row) => self.with_row(row, Row { status, ..self.feeds[row] }),
                None => self,
            },
            Report::Episodes { feed, episodes } => match self.row_of(feed) {
                Some(row) => self.with_row(
                    row,
                    Row { episodes: fresh_entries(episodes), listed: true, ..self.feeds[row] },
                ),
                None => self,
            },
            Report::EpisodeStatus { feed, episode, status } => match self.entry_of(feed, episode) {
                Some((row, n)) => self.with_entry(
                    row,
                    n,
                    Entry { status, ..self.feeds[row].episodes[n] },
                ).told(
                    settled_line(self.feeds[row].title, self.feeds[row].episodes[n], status),
                ),
                None => self,
            },
            Report::Progress { feed, episode, done, total } => match self.entry_of(feed, episode) {
                Some((row, n)) => self.with_entry(
                    row,
                    n,
                    Entry {
                        done,
                        total: if total is Some {
                            total
                        } else {
                            self.feeds[row].episodes[n].total
                        },
                        ..self.feeds[row].episodes[n]
                    },
                ),
                None => self,
            },
            Report::Log(line) => self.said(OutputKind::Plain, line),
            Report::Problem(line) => self.said(OutputKind::Bad, line),
            Report::Planned(plan) => self.planned(plan),
            Report::Finished { cancelled } => self.finished(cancelled, now),
        }
    }

    /// The cue one thing from the download engine earns.
    pub open spec fn earned(self, report: Report) -> Option<(u8, Cue)> {
        match report {
            Report::FeedStatus { status, .. } => if status is Failed {
                Some((CUE_SOMETHING_FAILED, Cue::Failure))
            } else {
                None
            },
            Report::EpisodeStatus { feed, episode, status } => if self.entry_of(feed, episode)
                is Some {
                settled_cue(status)
            } else {
                None
            },
            Report::Finished { cancelled } => if cancelled {
                None
            } else {
                Some((CUE_RUN_ENDED, ending_cue(self.totalled())))
            },
            _ => None,
        }
    }

    /// After hearing the first `n` of some reports.
    pub open spec fn heard_all(self, list: Seq<Report>, n: int, now: u64) -> Window
        decreases n,
    {
        if n <= 0 {
            self
        } else {
            self.heard_all(list, n - 1, now).heard(list[n - 1], now)
        }
    }

    /// The loudest cue the first `n` of some reports earn.
    pub open spec fn earned_all(self, list: Seq<Report>, n: int, now: u64) -> Option<(u8, Cue)>
        decreases n,
    {
        if n <= 0 {
            None
        } else {
            louder(
                self.earned_all(list, n - 1, now),
                self.heard_all(list, n - 1, now).earned(list[n - 1]),
            )
        }
    }

    /// After a batch from the download engine.
    pub open spec fn drained(self, list: Seq<Report>, now: u64) -> Window {
        self.heard_all(list, list.len() as int, now).sounded(
            self.earned_all(list, list.len() as int, now),
            now,
        )
    }
}

impl PodBatchApp {
    /// The row the engine's number for a podcast stands for.
    pub fn row_index(&self, feed: usize) -> (r: Option<usize>)
        ensures
            match r {
                Some(row) => self@.row_of(feed as int) == Some(row as int),
                None => self@.row_of(feed as int) is None,
            },
    {
        if feed < self.running_map.len() {
            let row: usize = self.running_map[feed];
            if row < self.feeds.len() {
                return Some(row);
            }
        }
        None
    }

    /// Remember how fast the run that just ended actually went, so the next
    /// run's estimate rests on a measurement rather than a guess.
    ///
    /// Only worth keeping from a run long enough and large enough to have
    /// measured anything: a couple of small files in a couple of seconds says
    /// more about the server's latency than about the line.
    ///
    /// And only from a run that finished. The bytes counted here are the ones
    /// that landed complete, while the clock covers everything that was in
    /// flight — so a run stopped with four large episodes most of the way down
    /// looks like a slow line when it was nothing of the sort, and the next
    /// estimate would inherit that.
    pub fn note_rate(&mut self, cancelled: bool, now: u64)
        ensures
            final(self)@ == old(self)@.rate_noted(cancelled, now),
    {
        let bytes: u64 = self.totals().bytes;
        match self.downloads_began.take() {
            None => {},
            Some(began) => {
                if !cancelled && now >= began {
                    let micros: u64 = now - began;
                    if micros >= RATE_TIME && bytes >= RATE_BYTES {
                        self.measured_rate = Some(Rate { bytes, micros });
                    }
                }
            },
        }
    }

    /// A run has ended.
    fn finish(&mut self, cancelled: bool, now: u64)
        ensures
            final(self)@ == old(self)@.finished(cancelled, now),
    {
        self.note_rate(cancelled, now);
        self.outcome = Some(
            if cancelled {
                Outcome::Stopped
            } else {
                Outcome::Completed
            },
        );
        self.running = false;
        self.cancelling = false;
        self.cancel = None;
        self.proceed = None;
        // A question about a run that has ended has nothing left to ask; a
        // window closed under a modal that outlived it would be stuck behind
        // it.
        self.dialog = None;
        self.pending_plan = None;
    }

    /// A plan has been worked out.
    fn consider(&mut self, plan: Plan)
        ensures
            final(self)@ == old(self)@.planned(plan),
    {
        if plan.episodes == 0 {
            // Nothing to fetch is nothing to ask about, and the engine doesn't
            // wait for an answer in that case either.
            if plan.skipped > 0 {
                self.say(
                    OutputKind::Muted,
                    owned("Every episode is already downloaded — nothing to fetch."),
                );
            }
        } else {
            self.say(OutputKind::Plain, plan_headline(&plan));
            self.put_plan(plan);
        }
    }

    /// A podcast has been given its folder.
    fn feed_named(&mut self, feed: usize, name: &str)
        ensures
            final(self)@ == old(self)@.heard(Report::FeedFolder { feed: feed as int, name: name@ }, 0),
    {
        let ghost before = self@;
        match self.row_index(feed) {
            Some(row) => {
                assert(before.feeds[row as int] == self.feeds@[row as int]@);
                self.feeds[row].folder = owned(name);
                proof {
                    let to = before.with_row(row as int, Row { folder: name@, ..before.feeds[row as int] });
                    assert(self@.feeds =~= to.feeds);
                    assert(self@ == to);
                }
            },
            None => {},
        }
    }

    /// A podcast has moved on.
    fn feed_moved(&mut self, feed: usize, status: &FeedStatus)
        ensures
            final(self)@ == old(self)@.heard(Report::FeedStatus { feed: feed as int, status: status@ }, 0),
    {
        let ghost before = self@;
        match self.row_index(feed) {
            Some(row) => {
                assert(before.feeds[row as int] == self.feeds@[row as int]@);
                self.feeds[row].status = copy_feed_status(status);
                proof {
                    let to = before.with_row(row as int, Row { status: status@, ..before.feeds[row as int] });
                    assert(self@.feeds =~= to.feeds);
                    assert(self@ == to);
                }
            },
            None => {},
        }
    }

    /// A podcast has said what it holds.
    fn feed_listed(&mut self, feed: usize, episodes: &Vec<EpisodeInfo>)
        ensures
            final(self)@ == old(self)@.heard(
                Report::Episodes { feed: feed as int, episodes: infos(episodes@) },
                0,
            ),
    {
        let ghost before = self@;
        match self.row_index(feed) {
            Some(row) => {
                assert(before.feeds[row as int] == self.feeds@[row as int]@);
                self.feeds[row].episodes = fresh_episodes(episodes);
                self.feeds[row].listed = true;
                proof {
                    let to = before.with_row(row as int,
                        Row {
                            episodes: fresh_entries(infos(episodes@)),
                            listed: true,
                            ..before.feeds[row as int]
                        },
                    );
                    assert(self@.feeds =~= to.feeds);
                    assert(self@ == to);
                }
            },
            None => {},
        }
    }

    /// An episode has settled, or moved on.
    fn episode_moved(&mut self, feed: usize, episode: usize, status: &EpisodeStatus) -> (r: bool)
        ensures
            final(self)@ == old(self)@.heard(
                Report::EpisodeStatus {
                    feed: feed as int,
                    episode: episode as int,
                    status: status@,
                },
                0,
            ),
            r == (old(self)@.entry_of(feed as int, episode as int) is Some),
    {
        let ghost before = self@;
        match self.row_index(feed) {
            None => false,
            Some(row) => {
                let ghost was = self.feeds@[row as int];
                assert(before.feeds[row as int] == was@);
                if episode >= self.feeds[row].episodes.len() {
                    return false;
                }
                // One line per episode as it settles, which is what makes the
                // output box a record of the run rather than a log of things
                // that went wrong.
                let line = settle_line(
                    self.feeds[row].title.as_str(),
                    &self.feeds[row].episodes[episode],
                    status,
                );
                let ghost e = was.episodes@[episode as int]@;
                assert(was@.episodes[episode as int] == e);
                self.feeds[row].episodes[episode].status = copy_episode_status(status);
                proof {
                    let to = Entry { status: status@, ..e };
                    let now_row = self.feeds@[row as int];
                    assert(entries(now_row.episodes@) =~= was@.episodes.update(
                        episode as int,
                        to,
                    ));
                    assert(self@.feeds =~= before.with_entry(row as int, episode as int, to).feeds);
                    assert(self@ == before.with_entry(row as int, episode as int, to));
                }
                match line {
                    Some((kind, filed, text)) => self.say_as(kind, filed, text),
                    None => {},
                }
                true
            },
        }
    }

    /// An episode's bytes are coming in.
    fn episode_grew(&mut self, feed: usize, episode: usize, done: u64, total: Option<u64>)
        ensures
            final(self)@ == old(self)@.heard(
                Report::Progress { feed: feed as int, episode: episode as int, done, total },
                0,
            ),
    {
        let ghost before = self@;
        match self.row_index(feed) {
            None => {},
            Some(row) => {
                let ghost was = self.feeds@[row as int];
                assert(before.feeds[row as int] == was@);
                if episode >= self.feeds[row].episodes.len() {
                    return ;
                }
                let ghost e = was.episodes@[episode as int]@;
                assert(was@.episodes[episode as int] == e);
                self.feeds[row].episodes[episode].done = done;
                if total.is_some() {
                    self.feeds[row].episodes[episode].total = total;
                }
                proof {
                    let to = Entry {
                        done,
                        total: if total is Some {
                            total
                        } else {
                            e.total
                        },
                        ..e
                    };
                    let now_row = self.feeds@[row as int];
                    assert(entries(now_row.episodes@) =~= was@.episodes.update(
                        episode as int,
                        to,
                    ));
                    assert(self@.feeds =~= before.with_entry(row as int, episode as int, to).feeds);
                    assert(self@ == before.with_entry(row as int, episode as int, to));
                }
            },
        }
    }

    /// Takes in one thing the download engine said at `now` microseconds, and
    /// gives back the cue it earns.
    pub fn hear(&mut self, update: &Update, now: u64) -> (r: Option<(u8, Cue)>)
        ensures
            final(self)@ == old(self)@.heard(update@, now),
            r == old(self)@.earned(update@),
    {
        match update {
            Update::FeedFolder { feed, name } => {
                self.feed_named(*feed, name.as_str());
                None
            },
            Update::FeedStatus { feed, status } => {
                self.feed_moved(*feed, status);
                // A podcast that could not be read is a failure worth hearing
                // about: nothing under it will download at all.
                match status {
                    FeedStatus::Failed(_) => Some((CUE_SOMETHING_FAILED, Cue::Failure)),
                    _ => None,
                }
            },
            Update::Episodes { feed, episodes } => {
                self.feed_listed(*feed, episodes);
                None
            },
            Update::EpisodeStatus { feed, episode, status } => {
                if self.episode_moved(*feed, *episode, status) {
                    match status {
                        EpisodeStatus::Done => Some((CUE_EPISODE_DONE, Cue::Success)),
                        EpisodeStatus::Failed(_) => Some((CUE_SOMETHING_FAILED, Cue::Failure)),
                        _ => None,
                    }
                } else {
                    None
                }
            },
            Update::Progress { feed, episode, done, total } => {
                self.episode_grew(*feed, *episode, *done, *total);
                None
            },
            Update::Log(line) => {
                self.say(OutputKind::Plain, owned(line.as_str()));
                None
            },
            Update::Problem(line) => {
                self.say(OutputKind::Bad, owned(line.as_str()));
                None
            },
            Update::Planned(plan) => {
                self.consider(*plan);
                None
            },
            Update::Finished { cancelled } => {
                // Stopping was asked for, so it isn't news; the cue is for the
                // run that ended on its own while nobody was watching.
                let totals = self.totals();
                self.finish(*cancelled, now);
                if *cancelled {
                    None
                } else {
                    Some((CUE_RUN_ENDED, cue_for(&totals)))
                }
            },
        }
    }

    /// Drain everything the engine has said since the last frame.
    ///
    /// One cue for the lot, the loudest it deserves, because a batch can hold a
    /// dozen finished episodes and they are worth one sound between them.
    pub fn drain(&mut self, updates: &Vec<Update>, now: u64)
        ensures
            final(self)@ == old(self)@.drained(reports(updates@), now),
    {
        let ghost list = reports(updates@);
        let ghost before = self@;
        let mut cue: Option<(u8, Cue)> = None;
        let mut i: usize = 0;
        while i < updates.len()
            invariant
                i <= updates@.len(),
                list == reports(updates@),
                self@ == before.heard_all(list, i as int, now),
                cue == before.earned_all(list, i as int, now),
            decreases updates@.len() - i,
        {
            assert(list[i as int] == updates@[i as int]@);
            let earned = self.hear(&updates[i], now);
            cue = loudest(cue, earned);
            i += 1;
        }
        self.sound(cue, now);
    }
}

/// When a run ends on its own, its cue is the one that is heard, whatever else
/// the batch held before it or after.
pub proof fn law_the_end_outranks_the_rest(w: Window, list: Seq<Report>, k: int, n: int, now: u64)
    requires
        0 <= k < n <= list.len(),
        list[k] == (Report::Finished { cancelled: false }),
    ensures
        w.earned_all(list, n, now) matches Some((rank, _)) && rank == CUE_RUN_ENDED,
    decreases n,
{
    lemma_ranks_are_known(w, list, n - 1, now);
    if k < n - 1 {
        law_the_end_outranks_the_rest(w, list, k, n - 1, now);
    }
}

proof fn lemma_ranks_are_known(w: Window, list: Seq<Report>, n: int, now: u64)
    ensures
        w.earned_all(list, n, now) matches Some((rank, _)) ==> rank <= CUE_RUN_ENDED,
    decreases n,
{
    if n > 0 {
        lemma_ranks_are_known(w, list, n - 1, now);
    }
}

/// When a run has ended there is nothing left to stop, to let go, or to ask.
pub proof fn law_nothing_outlives_the_run(w: Window, cancelled: bool, now: u64)
    ensures
        ({
            let after = w.heard(Report::Finished { cancelled }, now);
            &&& !after.running
            &&& !after.cancelling
            &&& after.cancel is None
            &&& after.proceed is None
            &&& after.dialog is None
            &&& after.pending_plan is None
            &&& after.outcome is Some
        }),
{
}

/// A run that was stopped leaves the rate that was measured before alone.
pub proof fn law_a_stopped_run_measures_nothing(w: Window, now: u64)
    ensures
        w.heard(Report::Finished { cancelled: true }, now).measured_rate == w.measured_rate,
{
}

// ---- An install -----------------------------------------------------------

/// What the installer has to say.
#[derive(Debug)]
pub enum InstallUpdate {
    Line(String),
    Progress { done: u64, total: Option<u64> },
    Finished(Result<(), String>),
}

/// What an installer's message says.
pub enum InstallReport {
    Line(Seq<char>),
    Progress { done: u64, total: Option<u64> },
    Finished(Result<(), Seq<char>>),
}

impl View for InstallUpdate {
    type V = InstallReport;

    open spec fn view(&self) -> InstallReport {
        match self {
            InstallUpdate::Line(line) => InstallReport::Line(line@),
            InstallUpdate::Progress { done, total } => InstallReport::Progress {
                done: *done,
                total: *total,
            },
            InstallUpdate::Finished(result) => InstallReport::Finished(
                match result {
                    Ok(()) => Ok(()),
                    Err(e) => Err(e@),
                },
            ),
        }
    }
}

/// What an installer's messages say.
pub open spec fn install_reports(v: Seq<InstallUpdate>) -> Seq<InstallReport> {
    v.map_values(|u: InstallUpdate| u@)
}

/// Whether a line from a package manager says something happened.
pub open spec fn worth_showing(line: Seq<char>) -> bool {
    has_text(line, "Error"@) || has_text(line, "error:"@) || has_text(line, "Warning"@)
        || has_text(line, "==>"@) || has_text(line, "Pouring"@) || has_text(line, "🍺"@)
}

/// Whether a line from a package manager says something happened.
///
/// Package managers are chatty and most of it is noise; the debug log takes the
/// lot and the window takes the lines that say something happened.
fn is_interesting(line: &str) -> (r: bool)
    ensures
        r == worth_showing(line@),
{
    contains_text(line, "Error") || contains_text(line, "error:") || contains_text(line, "Warning")
        || contains_text(line, "==>") || contains_text(line, "Pouring") || contains_text(
        line,
        "🍺",
    )
}

/// The colour of a line from a package manager.
pub open spec fn line_kind(line: Seq<char>) -> OutputKind {
    if has_text(line, "rror"@) {
        OutputKind::Bad
    } else {
        OutputKind::Muted
    }
}

/// What is called installed, or not.
pub open spec fn installed_name(tool: Option<Tool>) -> Seq<char> {
    match tool {
        Some(t) => t.name(),
        None => "It"@,
    }
}

impl Window {
    /// After an install has ended.
    pub open spec fn installed(self, result: Result<(), Seq<char>>, now: u64) -> Window {
        let rested = Window {
            installing: None,
            install_progress: None,
            transcribe_cancel: None,
            ..self
        };
        let told = match result {
            Ok(()) => {
                let said = rested.said(
                    OutputKind::Good,
                    installed_name(self.installing) + " is installed."@,
                );
                if self.installing == Some(Tool::Ollama) {
                    said.wished(Wish::StartOllama)
                } else {
                    said
                }
            },
            Err(e) => rested.said(
                OutputKind::Bad,
                installed_name(self.installing) + " — "@ + e,
            ),
        };
        told.wished(Wish::Survey).played(CUE_RUN_ENDED, Cue::Success, now)
    }

    /// After hearing one thing from an install.
    pub open spec fn install_heard(self, report: InstallReport, now: u64) -> Window {
        match report {
            InstallReport::Line(line) => {
                let noted = self.wished(Wish::Debug("install: "@ + line));
                if worth_showing(line) {
                    noted.said(line_kind(line), line)
                } else {
                    noted
                }
            },
            InstallReport::Progress { done, total } => Window {
                install_progress: Some((done, total)),
                ..self
            },
            InstallReport::Finished(result) => self.installed(result, now),
        }
    }

    /// After hearing the first `n` things from an install.
    pub open spec fn install_drained(self, list: Seq<InstallReport>, n: int, now: u64) -> Window
        decreases n,
    {
        if n <= 0 {
            self
        } else {
            self.install_drained(list, n - 1, now).install_heard(list[n - 1], now)
        }
    }
}

/// What is said of an install that ended.
fn installed_line(tool: Option<Tool>, result: &Result<(), String>) -> (r: String)
    ensures
        r@ == match result {
            Ok(()) => installed_name(tool) + " is installed."@,
            Err(e) => installed_name(tool) + " — "@ + e@,
        },
{
    let mut s = match tool {
        Some(t) => owned(t.label()),
        None => owned("It"),
    };
    match result {
        Ok(()) => s.push_str(" is installed."),
        Err(e) => {
            s.push_str(" — ");
            s.push_str(e.as_str());
        },
    }
    s
}

impl PodBatchApp {
    /// An install has ended, well or badly.
    fn install_ended(&mut self, result: &Result<(), String>, now: u64)
        ensures
            final(self)@ == old(self)@.installed(
                match result {
                    Ok(()) => Ok(()),
                    Err(e) => Err(e@),
                },
                now,
            ),
    {
        let ghost before = self@;
        let tool = self.installing;
        self.installing = None;
        self.install_progress = None;
        self.transcribe_cancel = None;
        assert(self@ == (Window {
            installing: None,
            install_progress: None,
            transcribe_cancel: None,
            ..before
        }));
        let line = installed_line(tool, result);
        match result {
            Ok(()) => {
                self.say(OutputKind::Good, line);
                // Installing Ollama does not start it, and a server that isn't
                // running looks exactly like one that isn't installed. Start it
                // before looking again so the tab doesn't report a fresh install
                // as missing.
                match tool {
                    Some(Tool::Ollama) => self.wish(Effect::StartOllama),
                    _ => {},
                }
            },
            Err(_) => self.say(OutputKind::Bad, line),
        }
        self.wish(Effect::Survey);
        self.play(CUE_RUN_ENDED, Cue::Success, now);
    }

    /// Takes in one thing an install said.
    pub fn hear_install(&mut self, update: &InstallUpdate, now: u64)
        ensures
            final(self)@ == old(self)@.install_heard(update@, now),
    {
        match update {
            InstallUpdate::Line(line) => {
                let mut s = owned("install: ");
                s.push_str(line.as_str());
                self.wish(Effect::Debug(s));
                if is_interesting(line.as_str()) {
                    let kind = if contains_text(line.as_str(), "rror") {
                        OutputKind::Bad
                    } else {
                        OutputKind::Muted
                    };
                    self.say(kind, owned(line.as_str()));
                }
            },
            InstallUpdate::Progress { done, total } => {
                self.install_progress = Some((*done, *total));
            },
            InstallUpdate::Finished(result) => self.install_ended(result, now),
        }
    }

    /// Drain everything an install has said since the last frame.
    pub fn drain_install(&mut self, updates: &Vec<InstallUpdate>, now: u64)
        ensures
            final(self)@ == old(self)@.install_drained(
                install_reports(updates@),
                updates@.len() as int,
                now,
            ),
    {
        let ghost list = install_reports(updates@);
        let ghost before = self@;
        let mut i: usize = 0;
        while i < updates.len()
            invariant
                i <= updates@.len(),
                list == install_reports(updates@),
                self@ == before.install_drained(list, i as int, now),
            decreases updates@.len() - i,
        {
            assert(list[i as int] == updates@[i as int]@);
            self.hear_install(&updates[i], now);
            i += 1;
        }
    }
}

// ---- The transcription engine ---------------------------------------------

/// How many of the first `n` episodes have their transcript.
pub open spec fn transcribed_among(audio: Seq<Track>, n: int) -> int
    decreases n,
{
    if n <= 0 {
        0
    } else {
        transcribed_among(audio, n - 1) + if audio[n - 1].status is Done { 1int } else { 0 }
    }
}

/// An episode's row with a new status. One that is done has been heard to the
/// end.
pub open spec fn moved_track(t: Track, status: Standing) -> Track {
    if status is Done {
        Track { status, heard: 1, length: 1, transcribed: true, ..t }
    } else {
        Track { status, ..t }
    }
}

/// What is said as a transcription run ends.
pub open spec fn transcribed_text(done: int, cancelled: bool) -> Seq<char> {
    (if cancelled {
        "Stopped — "@
    } else {
        "Finished — "@
    }) + counted_text(done, "file"@) + " transcribed"@
}

/// What is said as a transcription run ends.
fn transcribed_line(done: usize, cancelled: bool) -> (r: String)
    ensures
        r@ == transcribed_text(done as int, cancelled),
{
    let mut s = if cancelled {
        owned("Stopped — ")
    } else {
        owned("Finished — ")
    };
    s.push_str(count(done, "file").as_str());
    s.push_str(" transcribed");
    s
}

impl Window {
    /// The row a transcription run's number for a file stands for, if the file
    /// is still listed.
    pub open spec fn track_of(self, file: int) -> Option<int> {
        if 0 <= file < self.transcribe_files.len() {
            place_of_path(self.audio, self.transcribe_files[file], 0)
        } else {
            None
        }
    }

    /// With one episode's row changed.
    pub open spec fn with_track(self, row: int, to: Track) -> Window {
        Window { audio: self.audio.update(row, to), ..self }
    }

    /// After hearing one thing from the transcription engine.
    pub open spec fn transcript_heard(self, report: transcribe::Report) -> Window {
        match report {
            transcribe::Report::Status { file, status } => match self.track_of(file) {
                Some(row) => self.with_track(row, moved_track(self.audio[row], status)),
                None => self,
            },
            transcribe::Report::Progress { file, heard_ms, total_ms } => match self.track_of(
                file,
            ) {
                Some(row) => self.with_track(
                    row,
                    Track { heard: heard_ms, length: total_ms, ..self.audio[row] },
                ),
                None => self,
            },
            transcribe::Report::Line { text } => self.shown(OutputKind::Muted, text),
            transcribe::Report::Log(text) => self.said(OutputKind::Plain, text),
            transcribe::Report::Problem(text) => self.said(OutputKind::Bad, text),
            transcribe::Report::Finished { cancelled } => Window {
                transcribing: false,
                transcribe_cancel: None,
                ..self
            }.said(
                if cancelled {
                    OutputKind::Muted
                } else {
                    OutputKind::Good
                },
                transcribed_text(
                    transcribed_among(self.audio, self.audio.len() as int),
                    cancelled,
                ),
            ),
        }
    }

    /// After hearing the first `n` things from the transcription engine.
    pub open spec fn transcripts_heard(self, list: Seq<transcribe::Report>, n: int) -> Window
        decreases n,
    {
        if n <= 0 {
            self
        } else {
            self.transcripts_heard(list, n - 1).transcript_heard(list[n - 1])
        }
    }

    /// After a batch from the transcription engine.
    pub open spec fn transcripts_drained(self, list: Seq<transcribe::Report>, now: u64) -> Window {
        self.transcripts_heard(list, list.len() as int).sounded(
            transcript_cues(list, list.len() as int),
            now,
        )
    }
}

/// The cue one thing from the transcription engine earns.
pub open spec fn transcript_cue(report: transcribe::Report) -> Option<(u8, Cue)> {
    match report {
        transcribe::Report::Status { status: Standing::Done, .. } => Some(
            (CUE_EPISODE_DONE, Cue::Success),
        ),
        transcribe::Report::Status { status: Standing::Failed(_), .. } => Some(
            (CUE_SOMETHING_FAILED, Cue::Failure),
        ),
        transcribe::Report::Finished { .. } => Some((CUE_RUN_ENDED, Cue::Success)),
        _ => None,
    }
}

/// The loudest cue the first `n` things from the transcription engine earn.
pub open spec fn transcript_cues(list: Seq<transcribe::Report>, n: int) -> Option<(u8, Cue)>
    decreases n,
{
    if n <= 0 {
        None
    } else {
        louder(transcript_cues(list, n - 1), transcript_cue(list[n - 1]))
    }
}

/// The same status again.
fn copy_status(status: &Status) -> (r: Status)
    ensures
        r@ == status@,
{
    match status {
        Status::Pending => Status::Pending,
        Status::Working(stage) => Status::Working(*stage),
        Status::Done => Status::Done,
        Status::Skipped => Status::Skipped,
        Status::Failed(e) => Status::Failed(owned(e.as_str())),
    }
}

impl PodBatchApp {
    /// How many episodes have their transcript.
    pub fn transcribed_count(&self) -> (r: usize)
        ensures
            r == transcribed_among(self@.audio, self@.audio.len() as int),
    {
        let ghost list = tracks(self.audio@);
        let mut n: usize = 0;
        let mut i: usize = 0;
        while i < self.audio.len()
            invariant
                i <= self.audio@.len(),
                list == tracks(self.audio@),
                n == transcribed_among(list, i as int),
                n <= i,
            decreases self.audio@.len() - i,
        {
            assert(list[i as int] == self.audio@[i as int]@);
            let done = match self.audio[i].status {
                Status::Done => true,
                _ => false,
            };
            if done {
                n = n + 1;
            }
            i += 1;
        }
        n
    }

    /// The row a transcription run's number for a file stands for, if the file
    /// is still listed.
    pub fn track_index(&self, file: usize) -> (r: Option<usize>)
        ensures
            match r {
                Some(row) => row < self@.audio.len() && self@.track_of(file as int) == Some(
                    row as int,
                ),
                None => self@.track_of(file as int) is None,
            },
    {
        if file >= self.transcribe_files.len() {
            return None;
        }
        let path = self.transcribe_files[file].as_str();
        let ghost list = tracks(self.audio@);
        let mut row: usize = 0;
        while row < self.audio.len()
            invariant
                row <= self.audio@.len(),
                list == tracks(self.audio@),
                file < self@.transcribe_files.len(),
                path@ == self@.transcribe_files[file as int],
                place_of_path(list, path@, 0) == place_of_path(list, path@, row as int),
            decreases self.audio@.len() - row,
        {
            assert(list[row as int] == self.audio@[row as int]@);
            if same_str(self.audio[row].path.as_str(), path) {
                return Some(row);
            }
            row += 1;
        }
        None
    }

    /// A file has moved on.
    fn file_moved(&mut self, file: usize, status: &Status)
        ensures
            final(self)@ == old(self)@.transcript_heard(
                transcribe::Report::Status { file: file as int, status: status@ },
            ),
    {
        let ghost before = self@;
        match self.track_index(file) {
            None => {},
            Some(row) => {
                assert(before.audio[row as int] == self.audio@[row as int]@);
                let done = match status {
                    Status::Done => true,
                    _ => false,
                };
                if done {
                    self.audio[row].transcribed = true;
                    self.audio[row].heard = 1;
                    self.audio[row].length = 1;
                }
                self.audio[row].status = copy_status(status);
                proof {
                    let to = before.with_track(
                        row as int,
                        moved_track(before.audio[row as int], status@),
                    );
                    assert(self@.audio =~= to.audio);
                    assert(self@ == to);
                }
            },
        }
    }

    /// More of a file has been listened to.
    fn file_heard(&mut self, file: usize, heard_ms: u64, total_ms: u64)
        ensures
            final(self)@ == old(self)@.transcript_heard(
                transcribe::Report::Progress { file: file as int, heard_ms, total_ms },
            ),
    {
        let ghost before = self@;
        match self.track_index(file) {
            None => {},
            Some(row) => {
                assert(before.audio[row as int] == self.audio@[row as int]@);
                self.audio[row].heard = heard_ms;
                self.audio[row].length = total_ms;
                proof {
                    let to = before.with_track(
                        row as int,
                        Track { heard: heard_ms, length: total_ms, ..before.audio[row as int] },
                    );
                    assert(self@.audio =~= to.audio);
                    assert(self@ == to);
                }
            },
        }
    }

    /// A transcription run has ended.
    fn transcripts_ended(&mut self, cancelled: bool)
        ensures
            final(self)@ == old(self)@.transcript_heard(transcribe::Report::Finished { cancelled }),
    {
        let ghost before = self@;
        let line = transcribed_line(self.transcribed_count(), cancelled);
        self.transcribing = false;
        self.transcribe_cancel = None;
        assert(self@ == (Window { transcribing: false, transcribe_cancel: None, ..before }));
        self.say(
            if cancelled {
                OutputKind::Muted
            } else {
                OutputKind::Good
            },
            line,
        );
    }

    /// Takes in one thing the transcription engine said, and gives back the cue
    /// it earns.
    pub fn hear_transcribe(&mut self, update: &transcribe::Update) -> (r: Option<(u8, Cue)>)
        ensures
            final(self)@ == old(self)@.transcript_heard(update@),
            r == transcript_cue(update@),
    {
        match update {
            transcribe::Update::Status { file, status } => {
                self.file_moved(*file, status);
                match status {
                    Status::Done => Some((CUE_EPISODE_DONE, Cue::Success)),
                    Status::Failed(_) => Some((CUE_SOMETHING_FAILED, Cue::Failure)),
                    _ => None,
                }
            },
            transcribe::Update::Progress { file, heard_ms, total_ms } => {
                self.file_heard(*file, *heard_ms, *total_ms);
                None
            },
            // The transcript as it appears. Shown, not logged: it is the thing
            // being produced rather than a report on how it went. Muted, because
            // colouring it like an outcome would drown the outcomes it sits
            // between.
            transcribe::Update::Line { text } => {
                self.show(OutputKind::Muted, owned(text.as_str()));
                None
            },
            transcribe::Update::Log(text) => {
                self.say(OutputKind::Plain, owned(text.as_str()));
                None
            },
            transcribe::Update::Problem(text) => {
                self.say(OutputKind::Bad, owned(text.as_str()));
                None
            },
            transcribe::Update::Finished { cancelled } => {
                self.transcripts_ended(*cancelled);
                Some((CUE_RUN_ENDED, Cue::Success))
            },
        }
    }

    /// Drain everything the transcription engine has said since the last frame.
    pub fn drain_transcribe(&mut self, updates: &Vec<transcribe::Update>, now: u64)
        ensures
            final(self)@ == old(self)@.transcripts_drained(transcribe::reports(updates@), now),
    {
        let ghost list = transcribe::reports(updates@);
        let ghost before = self@;
        let mut cue: Option<(u8, Cue)> = None;
        let mut i: usize = 0;
        while i < updates.len()
            invariant
                i <= updates@.len(),
                list == transcribe::reports(updates@),
                self@ == before.transcripts_heard(list, i as int),
                cue == transcript_cues(list, i as int),
            decreases updates@.len() - i,
        {
            assert(list[i as int] == updates@[i as int]@);
            let earned = self.hear_transcribe(&updates[i]);
            cue = loudest(cue, earned);
            i += 1;
        }
        self.sound(cue, now);
    }
}

/// The words of a transcript reach the screen without reaching the logs.
pub proof fn law_transcripts_stay_out_of_the_logs(w: Window, text: Seq<char>)
    ensures
        w.transcript_heard(transcribe::Report::Line { text }).todo == w.todo,
        w.transcript_heard(transcribe::Report::Line { text }).output.last() == (Shown {
            text,
            kind: OutputKind::Muted,
        }),
{
}

// ---- Nothing is installed unasked -----------------------------------------

/// Whether nothing that was put on the list of things to do is an install.
pub open spec fn installs_nothing(before: Window, after: Window) -> bool {
    &&& before.todo.len() <= after.todo.len()
    &&& after.todo.take(before.todo.len() as int) == before.todo
    &&& forall|i: int|
        before.todo.len() <= i < after.todo.len() ==> !((#[trigger] after.todo[i])
            is StartInstall)
}

/// Nothing that can be asked for, from the keyboard or with the mouse, installs
/// anything by itself.
pub proof fn law_no_action_installs(w: Window, action: Action)
    ensures
        installs_nothing(w, w.performed(action)),
{
    assert(w.todo.take(w.todo.len() as int) =~= w.todo);
    assert(w.performed(action).todo.take(w.todo.len() as int) =~= w.todo);
}

/// Nothing the download engine says installs anything.
pub proof fn law_no_news_installs(w: Window, report: Report, now: u64)
    ensures
        installs_nothing(w, w.heard(report, now)),
{
    assert(w.todo.take(w.todo.len() as int) =~= w.todo);
    assert(w.heard(report, now).todo.take(w.todo.len() as int) =~= w.todo);
}

/// No answer installs anything, save a yes to the question about that very
/// install.
pub proof fn law_only_a_yes_installs(w: Window, answer: Option<bool>, now: u64)
    requires
        !(answer == Some(true) && w.dialog matches Some(Question::Install { .. })),
    ensures
        installs_nothing(w, w.answered(answer, now)),
{
    assert(w.todo.take(w.todo.len() as int) =~= w.todo);
    assert(w.answered(answer, now).todo.take(w.todo.len() as int) =~= w.todo);
}

/// A yes to an install starts that one and nothing else, and only when it is of
/// a kind that is run from here.
pub proof fn law_a_yes_installs_what_was_asked(w: Window, tool: Tool, remedy: Remedy, now: u64, i: int)
    requires
        w.dialog == Some(Question::Install { tool, remedy }),
        w.todo.len() <= i < w.answered(Some(true), now).todo.len(),
        w.answered(Some(true), now).todo[i] is StartInstall,
    ensures
        w.answered(Some(true), now).todo[i] == (Wish::StartInstall { tool, remedy }),
        remedy is Run || remedy is Download,
{
}

} // verus!
