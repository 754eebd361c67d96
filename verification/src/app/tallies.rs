//! What the window makes of the news, counted and put in its place.

use crate::app::actions::first_path;
use crate::app::actions::ticked_tracks;
use crate::app::ending_cue;
use crate::app::entries_tally;
use crate::app::failed_among;
use crate::app::feeds_tally;
use crate::app::finished_among;
use crate::app::fresh_list;
use crate::app::newest;
use crate::app::news::fresh_entries;
use crate::app::news::louder;
use crate::app::news::run_rate;
use crate::app::news::settled_line;
use crate::app::news::transcribed_among;
use crate::app::news::MARK_DONE;
use crate::app::news::MARK_FAILED;
use crate::app::news::MARK_SKIPPED;
use crate::app::panes::feed_remark;
use crate::app::panes::install_detail;
use crate::app::panes::install_part;
use crate::app::panes::parts_among;
use crate::app::panes::settled_among;
use crate::app::panes::tool_line;
use crate::app::panes::total_remarks;
use crate::app::panes::working_from;
use crate::app::reset_row;
use crate::app::ticked_among;
use crate::app::transcripts::cleared_tracks;
use crate::app::transcripts::fresh_tracks;
use crate::app::transcripts::ticked_paths;
use crate::app::transcripts::Recording;
use crate::app::Cue;
use crate::app::Entry;
use crate::app::Outcome;
use crate::app::OutputKind;
use crate::app::Row;
use crate::app::Shown;
use crate::app::Tally;
use crate::app::Totals;
use crate::app::Track;
use crate::app::Window;
use crate::app::OUTPUT_LIMIT;
use crate::engine::EpisodeState;
use crate::engine::FeedState;
use crate::engine::Info;
use crate::engine::Report;
use crate::figures::says;
use crate::opml::Listing;
use crate::text::decimal;
use crate::tools::Finding;
use crate::transcribe;
use crate::transcribe::Stage;
use crate::transcribe::Standing;
use crate::util::bytes_text;
use crate::util::Rate;
use vstd::prelude::*;

verus! {

// ---- Counting -------------------------------------------------------------

/// Whether a count is two others together.
pub open spec fn together(whole: Tally, a: Tally, b: Tally) -> bool {
    &&& whole.episodes == a.episodes + b.episodes
    &&& whole.finished == a.finished + b.finished
    &&& whole.downloaded == a.downloaded + b.downloaded
    &&& whole.skipped == a.skipped + b.skipped
    &&& whole.failed == a.failed + b.failed
    &&& whole.bytes == a.bytes + b.bytes
}

/// The counts of two lists of podcasts add up to that of both.
pub proof fn law_totals_add_up_over_podcasts(a: Seq<Row>, b: Seq<Row>)
    ensures
        together(
            feeds_tally(a + b, (a + b).len() as int),
            feeds_tally(a, a.len() as int),
            feeds_tally(b, b.len() as int),
        ),
{
    lemma_feeds_joined(a, b, b.len() as int);
}

proof fn lemma_feeds_joined(a: Seq<Row>, b: Seq<Row>, n: int)
    requires
        0 <= n <= b.len(),
    ensures
        together(
            feeds_tally(a + b, a.len() + n),
            feeds_tally(a, a.len() as int),
            feeds_tally(b, n),
        ),
    decreases n,
{
    if n > 0 {
        lemma_feeds_joined(a, b, n - 1);
        assert((a + b)[a.len() + n - 1] == b[n - 1]);
    } else {
        lemma_feeds_prefix(a, a + b, a.len() as int);
    }
}

proof fn lemma_feeds_prefix(a: Seq<Row>, b: Seq<Row>, n: int)
    requires
        0 <= n <= a.len(),
        n <= b.len(),
        forall|i: int| 0 <= i < n ==> #[trigger] a[i] == b[i],
    ensures
        feeds_tally(a, n) == feeds_tally(b, n),
    decreases n,
{
    if n > 0 {
        lemma_feeds_prefix(a, b, n - 1);
        assert(a[n - 1] == b[n - 1]);
    }
}

/// The count of a ticked podcast adds up over its episodes.
pub proof fn law_totals_add_up_over_episodes(row: Row, a: Seq<Entry>, b: Seq<Entry>)
    requires
        row.selected,
    ensures
        together(
            feeds_tally(seq![Row { episodes: a + b, ..row }], 1),
            feeds_tally(seq![Row { episodes: a, ..row }], 1),
            feeds_tally(seq![Row { episodes: b, ..row }], 1),
        ),
{
    lemma_one_row(Row { episodes: a + b, ..row });
    lemma_one_row(Row { episodes: a, ..row });
    lemma_one_row(Row { episodes: b, ..row });
    lemma_entries_joined(a, b, b.len() as int);
}

proof fn lemma_one_row(row: Row)
    requires
        row.selected,
    ensures
        together(
            feeds_tally(seq![row], 1),
            crate::app::no_tally(),
            entries_tally(row.episodes, row.episodes.len() as int),
        ),
{
    reveal_with_fuel(feeds_tally, 2);
}

proof fn lemma_entries_joined(a: Seq<Entry>, b: Seq<Entry>, n: int)
    requires
        0 <= n <= b.len(),
    ensures
        together(
            entries_tally(a + b, a.len() + n),
            entries_tally(a, a.len() as int),
            entries_tally(b, n),
        ),
    decreases n,
{
    if n > 0 {
        lemma_entries_joined(a, b, n - 1);
        assert((a + b)[a.len() + n - 1] == b[n - 1]);
    } else {
        lemma_entries_prefix(a, a + b, a.len() as int);
    }
}

proof fn lemma_entries_prefix(a: Seq<Entry>, b: Seq<Entry>, n: int)
    requires
        0 <= n <= a.len(),
        n <= b.len(),
        forall|i: int| 0 <= i < n ==> #[trigger] a[i] == b[i],
    ensures
        entries_tally(a, n) == entries_tally(b, n),
    decreases n,
{
    if n > 0 {
        lemma_entries_prefix(a, b, n - 1);
        assert(a[n - 1] == b[n - 1]);
    }
}

/// One episode counts as one; as downloaded, with the bytes that landed, only
/// once it is done; as skipped or failed only when it is; and as finished in any
/// of the three.
pub proof fn law_an_episode_counts_once(row: Row, e: Entry)
    requires
        row.selected,
    ensures
        ({
            let t = feeds_tally(seq![Row { episodes: seq![e], ..row }], 1);
            &&& t.episodes == 1
            &&& t.downloaded == (if e.status is Done {
                1int
            } else {
                0
            })
            &&& t.bytes == (if e.status is Done {
                e.done as int
            } else {
                0
            })
            &&& t.skipped == (if e.status is Skipped {
                1int
            } else {
                0
            })
            &&& t.failed == (if e.status is Failed {
                1int
            } else {
                0
            })
            &&& t.finished == t.downloaded + t.skipped + t.failed
        }),
{
    lemma_one_row(Row { episodes: seq![e], ..row });
    reveal_with_fuel(entries_tally, 2);
}

// ---- News of the download -------------------------------------------------

/// Whether two windows list the same but for one episode of one podcast.
pub open spec fn same_but_for(a: Window, b: Window, row: int, episode: int) -> bool {
    &&& a.feeds.len() == b.feeds.len()
    &&& forall|i: int| 0 <= i < a.feeds.len() && i != row ==> #[trigger] b.feeds[i] == a.feeds[i]
    &&& b.feeds[row].episodes.len() == a.feeds[row].episodes.len()
    &&& forall|k: int|
        0 <= k < a.feeds[row].episodes.len() && k != episode ==> #[trigger] b.feeds[row].episodes[k]
            == a.feeds[row].episodes[k]
    &&& b.feeds[row].title == a.feeds[row].title
    &&& b.feeds[row].selected == a.feeds[row].selected
    &&& b.feeds[row].status == a.feeds[row].status
}

/// News of an episode's status reaches that episode and no other: the podcast is
/// the one the run was given under that number, and nothing but the status
/// changes.
pub proof fn law_a_status_reaches_its_episode(
    w: Window,
    feed: int,
    episode: int,
    status: EpisodeState,
    now: u64,
)
    requires
        0 <= feed < w.running_map.len(),
        w.running_map[feed] < w.feeds.len(),
        0 <= episode < w.feeds[w.running_map[feed] as int].episodes.len(),
    ensures
        ({
            let row = w.running_map[feed] as int;
            let after = w.heard(Report::EpisodeStatus { feed, episode, status }, now);
            let (was, is) = (w.feeds[row].episodes[episode], after.feeds[row].episodes[episode]);
            &&& same_but_for(w, after, row, episode)
            &&& is.status == status
            &&& is.title == was.title && is.file_name == was.file_name
            &&& is.done == was.done && is.total == was.total
        }),
{
}

/// News of how far an episode is reaches that episode and no other; a size that
/// is not given leaves the one that was.
pub proof fn law_progress_reaches_its_episode(
    w: Window,
    feed: int,
    episode: int,
    done: u64,
    total: Option<u64>,
    now: u64,
)
    requires
        0 <= feed < w.running_map.len(),
        w.running_map[feed] < w.feeds.len(),
        0 <= episode < w.feeds[w.running_map[feed] as int].episodes.len(),
    ensures
        ({
            let row = w.running_map[feed] as int;
            let after = w.heard(Report::Progress { feed, episode, done, total }, now);
            let (was, is) = (w.feeds[row].episodes[episode], after.feeds[row].episodes[episode]);
            &&& same_but_for(w, after, row, episode)
            &&& is.done == done
            &&& is.total == (match total {
                Some(_) => total,
                None => was.total,
            })
            &&& is.status == was.status && is.title == was.title
            &&& after.output == w.output && after.todo == w.todo
        }),
{
}

/// A podcast's episodes are listed under it as they were announced, none of them
/// begun, and no other podcast is touched.
pub proof fn law_episodes_are_listed_as_announced(
    w: Window,
    feed: int,
    list: Seq<Info>,
    now: u64,
)
    requires
        0 <= feed < w.running_map.len(),
        w.running_map[feed] < w.feeds.len(),
    ensures
        ({
            let row = w.running_map[feed] as int;
            let after = w.heard(Report::Episodes { feed, episodes: list }, now);
            &&& after.feeds.len() == w.feeds.len()
            &&& forall|i: int|
                0 <= i < w.feeds.len() && i != row ==> #[trigger] after.feeds[i] == w.feeds[i]
            &&& after.feeds[row].listed
            &&& after.feeds[row].episodes.len() == list.len()
            &&& forall|k: int|
                0 <= k < list.len() ==> {
                    let e = #[trigger] after.feeds[row].episodes[k];
                    &&& e.title == list[k].title
                    &&& e.file_name == list[k].file_name
                    &&& e.total == list[k].size_hint
                    &&& e.done == 0
                    &&& e.status is Pending
                }
        }),
{
    assert(fresh_entries(list).len() == list.len());
}

/// News of a podcast the run was not given changes nothing in the lists.
pub proof fn law_stray_news_is_ignored(
    w: Window,
    feed: int,
    episode: int,
    status: EpisodeState,
    now: u64,
)
    requires
        feed < 0 || feed >= w.running_map.len(),
    ensures
        w.heard(Report::EpisodeStatus { feed, episode, status }, now) == w,
        w.heard(Report::Progress { feed, episode, done: 0, total: None }, now) == w,
        w.heard(Report::Episodes { feed, episodes: Seq::empty() }, now) == w,
{
}

/// A speed is remembered from runs of two seconds and four megabytes and more,
/// and it is the bytes of the run over the time it took.
pub proof fn law_only_real_runs_measure(bytes: u64, micros: int)
    requires
        micros <= u64::MAX,
    ensures
        run_rate(bytes, micros) == (if micros >= 2 * 1_000_000 && bytes >= 4 * 1024 * 1024 {
            Some(Rate { bytes, micros: micros as u64 })
        } else {
            None
        }),
{
}

/// A limit that is set is at least one episode, and is the one that was set.
pub proof fn law_limits_are_at_least_one(w: Window)
    ensures
        w.held_to() is Some <==> w.limit_enabled,
        w.held_to() matches Some(n) ==> n >= 1 && (w.limit >= 1 ==> n == w.limit),
{
}

// ---- News of the transcripts ----------------------------------------------

/// Whether two windows list the same but for one audio file.
pub open spec fn same_files_but(a: Window, b: Window, row: int) -> bool {
    &&& a.audio.len() == b.audio.len()
    &&& forall|i: int| 0 <= i < a.audio.len() && i != row ==> #[trigger] b.audio[i] == a.audio[i]
    &&& b.audio[row].path == a.audio[row].path
    &&& b.audio[row].name == a.audio[row].name
    &&& b.audio[row].selected == a.audio[row].selected
}

/// News of a file's transcript reaches that file and no other. One that is done
/// has its transcript, and has been heard to its end.
pub proof fn law_a_transcript_reaches_its_file(w: Window, file: int, row: int, status: Standing)
    requires
        w.track_of(file) == Some(row),
        0 <= row < w.audio.len(),
    ensures
        ({
            let after = w.transcript_heard(transcribe::Report::Status { file, status });
            &&& same_files_but(w, after, row)
            &&& after.audio[row].status == status
            &&& status is Done ==> after.audio[row].transcribed && after.audio[row].heard
                == after.audio[row].length && after.audio[row].length > 0
            &&& !(status is Done) ==> after.audio[row].transcribed == w.audio[row].transcribed
                && after.audio[row].heard == w.audio[row].heard && after.audio[row].length
                == w.audio[row].length
        }),
{
}

/// News of how far Whisper has listened reaches that file and no other, and
/// changes nothing else about it.
pub proof fn law_listening_reaches_its_file(
    w: Window,
    file: int,
    row: int,
    heard_ms: u64,
    total_ms: u64,
)
    requires
        w.track_of(file) == Some(row),
        0 <= row < w.audio.len(),
    ensures
        ({
            let after = w.transcript_heard(
                transcribe::Report::Progress { file, heard_ms, total_ms },
            );
            &&& same_files_but(w, after, row)
            &&& after.audio[row].heard == heard_ms
            &&& after.audio[row].length == total_ms
            &&& after.audio[row].status == w.audio[row].status
            &&& after.audio[row].transcribed == w.audio[row].transcribed
        }),
{
}

/// The counts of two lists of files add up to that of both: those with a
/// transcript, those that are settled, and those in hand.
pub proof fn law_file_counts_add_up(a: Seq<Track>, b: Seq<Track>, n: int)
    requires
        0 <= n <= b.len(),
    ensures
        transcribed_among(a + b, a.len() + n) == transcribed_among(a, a.len() as int)
            + transcribed_among(b, n),
        settled_among(a + b, a.len() + n) == settled_among(a, a.len() as int) + settled_among(b, n),
        parts_among(a + b, a.len() + n) == parts_among(a, a.len() as int) + parts_among(b, n),
    decreases n,
{
    if n > 0 {
        law_file_counts_add_up(a, b, n - 1);
        assert((a + b)[a.len() + n - 1] == b[n - 1]);
        assert(parts_among(a + b, a.len() + n) =~= parts_among(a, a.len() as int) + parts_among(
            b,
            n,
        ));
    } else {
        lemma_files_prefix(a, a + b, a.len() as int);
        assert(parts_among(a, a.len() as int) + parts_among(b, n) =~= parts_among(
            a,
            a.len() as int,
        ));
    }
}

proof fn lemma_files_prefix(a: Seq<Track>, b: Seq<Track>, n: int)
    requires
        0 <= n <= a.len(),
        n <= b.len(),
        forall|i: int| 0 <= i < n ==> #[trigger] a[i] == b[i],
    ensures
        transcribed_among(a, n) == transcribed_among(b, n),
        settled_among(a, n) == settled_among(b, n),
        parts_among(a, n) == parts_among(b, n),
    decreases n,
{
    if n > 0 {
        lemma_files_prefix(a, b, n - 1);
        assert(a[n - 1] == b[n - 1]);
    }
}

/// One file counts as transcribed when it is done, as settled when nothing more
/// will come of it, and as in hand while it is being worked on.
pub proof fn law_a_file_counts_by_its_status(t: Track)
    ensures
        transcribed_among(seq![t], 1) == (if t.status is Done {
            1int
        } else {
            0
        }),
        settled_among(seq![t], 1) == (if t.status is Pending || t.status is Working {
            0int
        } else {
            1
        }),
        parts_among(seq![t], 1) == (if t.status is Working {
            seq![(t.heard, t.length)]
        } else {
            Seq::empty()
        }),
{
    reveal_with_fuel(transcribed_among, 2);
    reveal_with_fuel(settled_among, 2);
    reveal_with_fuel(parts_among, 2);
    assert(parts_among(seq![t], 1) =~= (if t.status is Working {
        seq![(t.heard, t.length)]
    } else {
        Seq::empty()
    }));
}

// ---- Lists ----------------------------------------------------------------

/// Every podcast of a list is shown in its order, ticked, with nothing fetched of
/// it yet.
pub proof fn law_podcasts_arrive_ticked(subs: Seq<Listing>, i: int)
    requires
        0 <= i < subs.len(),
    ensures
        fresh_list(subs).len() == subs.len(),
        ({
            let row = fresh_list(subs)[i];
            &&& row.title == subs[i].title
            &&& row.url == subs[i].url
            &&& row.selected
            &&& !row.listed
            &&& row.episodes.len() == 0
            &&& row.status is Pending
        }),
{
}

/// What is said of an episode that settled names the podcast and the episode; of
/// one that landed or was there also the file it is in, of one that landed how
/// large it is, and of one that failed why.
pub proof fn law_settled_episodes_are_named(
    show: Seq<char>,
    e: Entry,
    status: EpisodeState,
    why: Seq<char>,
)
    ensures
        status is Done ==> (settled_line(show, e, status) matches Some((kind, _, text)) && kind
            == OutputKind::Good && says(text, show + " — "@ + e.title) && says(text, e.file_name)
            && says(text, bytes_text(e.done as int))),
        status is Skipped ==> (settled_line(show, e, status) matches Some((kind, _, text)) && kind
            == OutputKind::Muted && says(text, show + " — "@ + e.title) && says(text, e.file_name)),
        status == EpisodeState::Failed(why) ==> (settled_line(show, e, status) matches Some(
            (kind, _, text),
        ) && kind == OutputKind::Bad && says(text, show + " — "@ + e.title) && says(text, why)),
        !(status is Done || status is Skipped || status is Failed) ==> settled_line(
            show,
            e,
            status,
        ) is None,
{
    let name = show + " — "@ + e.title;
    let none = Seq::<char>::empty();
    if let Some((_, _, text)) = settled_line(show, e, status) {
        match status {
            EpisodeState::Done => {
                let size = bytes_text(e.done as int);
                let mark = MARK_DONE@ + " "@;
                assert(text =~= mark + name + (" → "@ + e.file_name + " ("@ + size + ")"@));
                assert(text =~= (mark + name + " → "@) + e.file_name + (" ("@ + size + ")"@));
                assert(text =~= (mark + name + " → "@ + e.file_name + " ("@) + size + ")"@);
            },
            EpisodeState::Skipped => {
                let mark = MARK_SKIPPED@ + " "@;
                assert(text =~= mark + name + (" → "@ + e.file_name + " (already downloaded)"@));
                assert(text =~= (mark + name + " → "@) + e.file_name + " (already downloaded)"@);
            },
            EpisodeState::Failed(w) => {
                let mark = MARK_FAILED@ + " "@;
                assert(text =~= mark + name + (": "@ + w));
                assert(text =~= (mark + name + ": "@) + w + none);
            },
            _ => {},
        }
    }
}

// ---- Counts ---------------------------------------------------------------

/// The episodes that are finished, and those that failed, add up: those of a
/// list are those of its first part and those of the rest.
pub proof fn law_finished_counts_add_up(a: Seq<Entry>, b: Seq<Entry>, n: int)
    requires
        0 <= n <= b.len(),
    ensures
        finished_among(a + b, a.len() + n) == finished_among(a, a.len() as int) + finished_among(
            b,
            n,
        ),
        failed_among(a + b, a.len() + n) == failed_among(a, a.len() as int) + failed_among(b, n),
    decreases a.len() + n,
{
    let all = a + b;
    if n > 0 {
        law_finished_counts_add_up(a, b, n - 1);
        assert(all[a.len() + n - 1] == b[n - 1]);
    } else {
        lemma_counts_of_prefix(all, a, a.len() as int);
    }
}

proof fn lemma_counts_of_prefix(x: Seq<Entry>, y: Seq<Entry>, n: int)
    requires
        0 <= n <= x.len(),
        n <= y.len(),
        forall|i: int| 0 <= i < n ==> x[i] == #[trigger] y[i],
    ensures
        finished_among(x, n) == finished_among(y, n),
        failed_among(x, n) == failed_among(y, n),
    decreases n,
{
    if n > 0 {
        lemma_counts_of_prefix(x, y, n - 1);
        assert(x[n - 1] == y[n - 1]);
    }
}

/// An episode is finished when it landed, was there already or failed, and it is
/// counted as failed in the last case alone.
pub proof fn law_what_is_finished(e: Entry)
    ensures
        finished_among(seq![e], 1) == (match e.status {
            EpisodeState::Done | EpisodeState::Skipped | EpisodeState::Failed(_) => 1int,
            EpisodeState::Pending | EpisodeState::Downloading | EpisodeState::Cancelled
            | EpisodeState::Unticked => 0,
        }),
        failed_among(seq![e], 1) == if e.status is Failed {
            1int
        } else {
            0
        },
{
    reveal_with_fuel(finished_among, 2);
    reveal_with_fuel(failed_among, 2);
    assert(seq![e][0] == e);
}

/// The ticked podcasts add up: each that is ticked counts one, and the others
/// nothing.
pub proof fn law_ticked_podcasts_add_up(a: Seq<Row>, row: Row)
    ensures
        ticked_among(a.push(row), a.len() as int + 1) == ticked_among(a, a.len() as int) + if row.selected {
            1int
        } else {
            0
        },
        ticked_among(Seq::empty(), 0) == 0,
{
    lemma_ticked_of_prefix(a.push(row), a, a.len() as int);
    assert(a.push(row)[a.len() as int] == row);
}

proof fn lemma_ticked_of_prefix(x: Seq<Row>, y: Seq<Row>, n: int)
    requires
        0 <= n <= x.len(),
        n <= y.len(),
        forall|i: int| 0 <= i < n ==> x[i] == #[trigger] y[i],
    ensures
        ticked_among(x, n) == ticked_among(y, n),
    decreases n,
{
    if n > 0 {
        lemma_ticked_of_prefix(x, y, n - 1);
        assert(x[n - 1] == y[n - 1]);
    }
}

/// The box keeps the newest lines, as many as it holds, in their order.
pub proof fn law_the_newest_lines_stay(lines: Seq<Shown>, i: int)
    requires
        0 <= i < newest(lines).len(),
    ensures
        newest(lines).len() == if lines.len() < OUTPUT_LIMIT {
            lines.len()
        } else {
            OUTPUT_LIMIT as nat
        },
        newest(lines)[newest(lines).len() - 1 - i] == lines[lines.len() - 1 - i],
{
}

// ---- Cues -----------------------------------------------------------------

/// Of what happened since the last look, the cue of the highest rank is heard,
/// and among equals the latest; with nothing to hear there is silence.
pub proof fn law_the_highest_rank_is_heard(a: (u8, Cue), b: (u8, Cue))
    ensures
        a.0 > b.0 ==> louder(Some(a), Some(b)) == Some(a),
        a.0 <= b.0 ==> louder(Some(a), Some(b)) == Some(b),
        louder(Some(a), None) == Some(a),
        louder(None, Some(b)) == Some(b),
        louder(None, None) is None,
{
}

/// A run ends on the sound of failure when anything failed, and on that of
/// success otherwise.
pub proof fn law_failures_are_heard(totals: Totals)
    ensures
        ending_cue(totals) == Cue::Success <==> totals.failed == 0,
        ending_cue(totals) == Cue::Failure <==> totals.failed > 0,
{
}

// ---- Files ----------------------------------------------------------------

/// A folder's files are listed in their order, ticked unless a transcript is
/// there already.
pub proof fn law_files_arrive_ticked_unless_done(files: Seq<Recording>, i: int)
    requires
        0 <= i < files.len(),
    ensures
        fresh_tracks(files).len() == files.len(),
        ({
            let t = fresh_tracks(files)[i];
            &&& t.path == files[i].path
            &&& t.name == files[i].name
            &&& t.selected == !files[i].transcribed
            &&& t.transcribed == files[i].transcribed
            &&& files[i].transcribed ==> t.status is Done
            &&& !files[i].transcribed ==> t.status is Pending
            &&& t.heard == 0 && t.length == 0
        }),
{
}

/// A new run starts over with the files that are ticked and leaves the others as
/// they are.
pub proof fn law_only_ticked_files_start_over(audio: Seq<Track>, i: int)
    requires
        0 <= i < audio.len(),
    ensures
        cleared_tracks(audio).len() == audio.len(),
        !audio[i].selected ==> cleared_tracks(audio)[i] == audio[i],
        audio[i].selected ==> ({
            let t = cleared_tracks(audio)[i];
            &&& t.path == audio[i].path && t.name == audio[i].name
            &&& t.selected
            &&& t.status is Pending
            &&& t.heard == 0 && t.length == 0
            &&& t.transcribed == audio[i].transcribed
        }),
{
}

/// Ticking all files, or none, changes their ticks and nothing else.
pub proof fn law_ticking_files_changes_only_ticks(audio: Seq<Track>, yes: bool, i: int)
    requires
        0 <= i < audio.len(),
    ensures
        ticked_tracks(audio, yes).len() == audio.len(),
        ticked_tracks(audio, yes)[i].selected == yes,
        ticked_tracks(ticked_tracks(audio, yes), audio[i].selected)[i] == audio[i],
{
}

// ---- Lines ----------------------------------------------------------------

/// A podcast's row says how many of its episodes are finished while they are
/// fetched, how many failed when some did, how many there are when none did, and
/// why the podcast could not be read.
pub proof fn law_rows_say_how_far_they_are(row: Row, why: Seq<char>)
    ensures
        ({
            let n = row.episodes.len() as int;
            let failed = failed_among(row.episodes, n);
            let r = feed_remark(row);
            &&& row.status is Downloading ==> says(
                r.text,
                decimal(finished_among(row.episodes, n)) + "/"@ + decimal(n),
            ) && r.tone is Accent
            &&& row.status is Done && failed > 0 ==> says(r.text, decimal(failed) + " failed"@)
                && r.tone is Bad
            &&& row.status is Done && failed == 0 ==> says(r.text, decimal(n) + " episodes"@)
                && r.tone is Good
            &&& row.status == FeedState::Failed(why) ==> says(r.text, why) && r.tone is Bad
            &&& row.status is Pending ==> r.text.len() == 0
        }),
{
    reveal_strlit("");
    let text = feed_remark(row).text;
    assert(text =~= Seq::<char>::empty() + text + Seq::<char>::empty());
    lemma_failed_is_counted(row.episodes, row.episodes.len() as int);
}

proof fn lemma_failed_is_counted(list: Seq<Entry>, n: int)
    ensures
        failed_among(list, n) >= 0,
    decreases n,
{
    if n > 0 {
        lemma_failed_is_counted(list, n - 1);
    }
}

/// While a run fetches, and after it, the headline says how many episodes are
/// finished and how many there are.
pub proof fn law_the_headline_says_how_far(w: Window)
    requires
        w.feeds.len() > 0,
        w.running || w.outcome is Some,
        !(w.dialog is Some),
        w.running ==> w.everything_listed(),
    ensures
        says(
            w.headline(),
            decimal(w.totalled().finished as int) + "/"@ + decimal(w.totalled().episodes as int),
        ),
        !w.running && w.outcome == Some(Outcome::Stopped) ==> says(w.headline(), "Stopped"@),
        !w.running && w.outcome != Some(Outcome::Stopped) ==> says(w.headline(), "Finished"@),
{
    let counts = decimal(w.totalled().finished as int) + "/"@ + decimal(
        w.totalled().episodes as int,
    );
    let none = Seq::<char>::empty();
    reveal_strlit("Stopped at ");
    reveal_strlit("Stopped");
    reveal_strlit("Finished — ");
    reveal_strlit("Finished");
    let h = w.headline();
    if w.running {
        assert(h =~= none + counts + " episodes"@);
    } else if w.outcome == Some(Outcome::Stopped) {
        assert(h =~= "Stopped at "@ + counts + " episodes"@);
        assert(h =~= none + "Stopped"@ + (seq![' ', 'a', 't', ' '] + counts + " episodes"@));
    } else {
        assert(h =~= "Finished — "@ + counts + " episodes"@);
        assert(h =~= none + "Finished"@ + (seq![' ', '—', ' '] + counts + " episodes"@));
    }
}

/// Below the headline stand, in this order, what was downloaded and how much,
/// what was there already and what failed, each only when there is any.
pub proof fn law_totals_say_only_what_there_is(t: Totals)
    ensures
        ({
            let r = total_remarks(t);
            let a: int = if t.downloaded > 0 {
                1
            } else {
                0
            };
            let b: int = if t.skipped > 0 {
                1
            } else {
                0
            };
            let c: int = if t.failed > 0 {
                1
            } else {
                0
            };
            &&& r.len() == a + b + c
            &&& a == 1 ==> says(r[0].text, decimal(t.downloaded as int) + " downloaded"@) && says(
                r[0].text,
                bytes_text(t.bytes as int),
            ) && r[0].tone is Good
            &&& b == 1 ==> says(r[a].text, decimal(t.skipped as int) + " already had"@)
                && r[a].tone is Muted
            &&& c == 1 ==> says(r[a + b].text, decimal(t.failed as int) + " failed"@) && r[a
                + b].tone is Bad
        }),
{
    let none = Seq::<char>::empty();
    let size = bytes_text(t.bytes as int);
    let got = "· "@ + decimal(t.downloaded as int) + " downloaded ("@ + size + ")"@;
    reveal_strlit(" downloaded (");
    reveal_strlit(" downloaded");
    assert(got =~= "· "@ + (decimal(t.downloaded as int) + " downloaded"@) + (seq![' ', '(']
        + size + ")"@));
    assert(got =~= ("· "@ + decimal(t.downloaded as int) + " downloaded ("@) + size + ")"@);
    let had = "· "@ + decimal(t.skipped as int) + " already had"@;
    assert(had =~= "· "@ + (decimal(t.skipped as int) + " already had"@) + none);
    let lost = "· "@ + decimal(t.failed as int) + " failed"@;
    assert(lost =~= "· "@ + (decimal(t.failed as int) + " failed"@) + none);
}

/// What lands is heard as a success and what fails as a failure; a run that was
/// stopped, and everything else, is silent.
pub proof fn law_outcomes_have_their_sound(w: Window, feed: int, episode: int, why: Seq<char>)
    ensures
        w.entry_of(feed, episode) is Some ==> {
            &&& w.earned(Report::EpisodeStatus { feed, episode, status: EpisodeState::Done })
                matches Some((_, Cue::Success))
            &&& w.earned(
                Report::EpisodeStatus { feed, episode, status: EpisodeState::Failed(why) },
            ) matches Some((_, Cue::Failure))
            &&& w.earned(
                Report::EpisodeStatus { feed, episode, status: EpisodeState::Skipped },
            ) is None
        },
        w.earned(Report::FeedStatus { feed, status: FeedState::Failed(why) }) matches Some(
            (_, Cue::Failure),
        ),
        w.earned(Report::FeedStatus { feed, status: FeedState::Done }) is None,
        w.earned(Report::Finished { cancelled: true }) is None,
        w.earned(Report::Finished { cancelled: false }) matches Some((_, cue)) && (cue
            == Cue::Failure <==> w.totalled().failed > 0),
{
}

/// The files of a run are those that are ticked, in the order of the list.
pub proof fn law_a_run_takes_the_ticked_files(audio: Seq<Track>, t: Track)
    ensures
        t.selected ==> ticked_paths(audio.push(t), audio.len() as int + 1) == ticked_paths(
            audio,
            audio.len() as int,
        ).push(t.path),
        !t.selected ==> ticked_paths(audio.push(t), audio.len() as int + 1) == ticked_paths(
            audio,
            audio.len() as int,
        ),
        ticked_paths(Seq::empty(), 0).len() == 0,
{
    lemma_paths_of_prefix(audio.push(t), audio, audio.len() as int);
    assert(audio.push(t)[audio.len() as int] == t);
}

proof fn lemma_paths_of_prefix(x: Seq<Track>, y: Seq<Track>, n: int)
    requires
        0 <= n <= x.len(),
        n <= y.len(),
        forall|i: int| 0 <= i < n ==> x[i] == #[trigger] y[i],
    ensures
        ticked_paths(x, n) == ticked_paths(y, n),
    decreases n,
{
    if n > 0 {
        lemma_paths_of_prefix(x, y, n - 1);
        assert(x[n - 1] == y[n - 1]);
    }
}

/// The file in hand is the first that is being worked on: its name and its stage
/// are told.
pub proof fn law_the_file_in_hand_is_told(audio: Seq<Track>, i: int, k: int, stage: Stage)
    requires
        0 <= i <= k < audio.len(),
        audio[k].status == Standing::Working(stage),
        forall|j: int| i <= j < k ==> !((#[trigger] audio[j]).status is Working),
    ensures
        working_from(audio, i) matches Some(text) && says(text, audio[k].name) && says(
            text,
            stage.name(),
        ),
    decreases k - i,
{
    if i < k {
        assert(!(audio[i].status is Working));
        law_the_file_in_hand_is_told(audio, i + 1, k, stage);
    } else {
        let none = Seq::<char>::empty();
        let text = audio[k].name + " — "@ + stage.name();
        assert(text =~= none + audio[k].name + (" — "@ + stage.name()));
        assert(text =~= (audio[k].name + " — "@) + stage.name() + none);
    }
}

/// A download of a tool says how much has arrived, and of how much where that is
/// known.
pub proof fn law_installs_say_how_far(done: u64, total: u64)
    ensures
        says(install_detail(Some((done, Some(total)))), bytes_text(done as int)),
        total > 0 ==> says(
            install_detail(Some((done, Some(total)))),
            bytes_text(done as int) + " of "@ + bytes_text(total as int),
        ),
        says(install_detail(Some((done, None))), bytes_text(done as int)),
        install_part(Some((done, None))) is None,
        install_part(None) is None,
        done > 0 && total > 0 ==> install_part(Some((done, Some(total)))) == Some((done, total)),
{
    let none = Seq::<char>::empty();
    let (d, t) = (bytes_text(done as int), bytes_text(total as int));
    assert(d =~= none + d + none);
    assert(d + " of "@ + t =~= none + d + (" of "@ + t));
    assert(d + " of "@ + t =~= none + (d + " of "@ + t) + none);
}

/// A tool that is there is shown with where it is, and one that is missing is
/// marked as a fault only where it is needed.
pub proof fn law_tools_are_marked_by_need(f: Finding)
    ensures
        tool_line(f).tool == f.tool,
        tool_line(f).detail == f.shown,
        tool_line(f).tone is Bad <==> f.shown is None && !f.tool.can_do_without(),
        tool_line(f).tone is Good <==> f.shown is Some,
        tool_line(f).mark == MARK_FAILED@ <==> tool_line(f).tone is Bad,
        tool_line(f).mark == MARK_DONE@ <==> tool_line(f).tone is Good,
{
    reveal_strlit("✔");
    reveal_strlit("✖");
    reveal_strlit("=");
    assert(MARK_DONE@[0] != MARK_FAILED@[0]);
    assert(MARK_SKIPPED@[0] != MARK_DONE@[0]);
    assert(MARK_SKIPPED@[0] != MARK_FAILED@[0]);
}

/// A podcast that is to be read again keeps its title, its address and its tick,
/// and has no episodes.
pub proof fn law_rows_start_over(row: Row)
    ensures
        reset_row(row).title == row.title,
        reset_row(row).url == row.url,
        reset_row(row).selected == row.selected,
        reset_row(row).status is Pending,
        reset_row(row).episodes.len() == 0,
        !reset_row(row).listed,
{
}

/// Of what was dropped, the first that is a file on disk is opened.
pub proof fn law_the_first_dropped_file_is_opened(before: Seq<Seq<char>>, path: Seq<char>, after: Seq<Seq<char>>)
    requires
        forall|i: int| 0 <= i < before.len() ==> (#[trigger] before[i]).len() == 0,
    ensures
        path.len() > 0 ==> first_path(before + seq![path] + after) == Some(path),
        first_path(before) is None,
    decreases before.len(),
{
    let all = before + seq![path] + after;
    if before.len() > 0 {
        let rest = before.skip(1);
        assert(before[0].len() == 0);
        assert(all[0] == before[0]);
        assert(all.skip(1) =~= rest + seq![path] + after);
        assert forall|i: int| 0 <= i < rest.len() implies (#[trigger] rest[i]).len() == 0 by {
            assert(rest[i] == before[i + 1]);
        }
        law_the_first_dropped_file_is_opened(rest, path, after);
    } else {
        assert(all[0] == path);
    }
}

/// What the engine calls its podcast of a number is the row that was handed to it
/// under that number.
pub proof fn law_numbers_lead_to_rows(w: Window, feed: int)
    ensures
        0 <= feed < w.running_map.len() && w.running_map[feed] < w.feeds.len() ==> w.row_of(feed)
            == Some(w.running_map[feed] as int),
        feed < 0 || feed >= w.running_map.len() ==> w.row_of(feed) is None,
{
}

} // verus!
