//! The two log files, in `~/Podbatch/Logging` — alongside the folder the
//! episodes themselves are saved in, so everything the app produces is under one
//! roof the user can find without being told where their platform hides
//! application data.
//!
//! * `output.log` — what the run did. One line per operation that succeeded,
//!   was skipped or failed: the same account the output box gives, kept after
//!   the window has been closed and past the point the box stops scrolling back.
//! * `debug.log` — how it did it. Every request, retry, decision and file name,
//!   for when the output log says something went wrong and the question is why.
//!
//! Nothing here can fail loudly. A read-only home directory or a full disk
//! costs the user their logs, which is a shame; it must not cost them their
//! downloads, so a log that never opened quietly discards what it is given.

use crate::text::owned;
use crate::tools::join_path;
use crate::tools::joined_path;
use crate::transcribe::replace_extension;
use crate::transcribe::with_extension;
use crate::util::log_stamp;
use crate::util::text_of;
use crate::util::utc_stamp;
use vstd::prelude::*;

verus! {

/// A log already bigger than this when the app starts is moved aside, so a
/// machine that runs this every night doesn't quietly grow a log until the disk
/// notices. Checked once, at startup: a single session that writes past it
/// keeps writing, which takes a very long run and costs only the disk space a
/// log of that run was always going to take.
pub const ROTATE_AT: u64 = 2 * 1024 * 1024;

/// How an operation turned out. The tag it writes is fixed-width, so a log read
/// in a plain editor lines up and can be grepped for `FAIL`.
#[derive(Debug, Clone, Copy, PartialEq, Eq, Structural)]
pub enum Outcome {
    Done,
    Skipped,
    Failed,
    /// Not an operation — the run starting, a file being loaded, a total.
    Note,
}

impl Outcome {
    /// The word that marks the outcome in a line.
    pub open spec fn word(self) -> Seq<char> {
        match self {
            Outcome::Done => "DONE"@,
            Outcome::Skipped => "SKIP"@,
            Outcome::Failed => "FAIL"@,
            Outcome::Note => "----"@,
        }
    }

    /// The word that marks the outcome in a line.
    pub fn tag(self) -> (r: &'static str)
        ensures
            r@ == self.word(),
    {
        match self {
            Outcome::Done => "DONE",
            Outcome::Skipped => "SKIP",
            Outcome::Failed => "FAIL",
            Outcome::Note => "----",
        }
    }
}

/// Every outcome is marked by four characters, so the lines of a log line up.
pub proof fn law_outcomes_are_one_width(o: Outcome)
    ensures
        o.word().len() == 4,
{
    reveal_strlit("DONE");
    reveal_strlit("SKIP");
    reveal_strlit("FAIL");
    reveal_strlit("----");
}

/// Which of the two files.
#[derive(Debug, Clone, Copy, PartialEq, Eq, Structural)]
pub enum LogFile {
    Debug,
    Output,
}

/// A line to write.
#[derive(Debug, Clone)]
pub struct Line {
    pub file: LogFile,
    pub text: String,
}

/// The time a line is stamped with: seconds and milliseconds since the start of
/// 1970.
#[derive(Debug, Clone, Copy)]
pub struct Moment {
    pub secs: u64,
    pub millis: u32,
}

/// The lines to write, and where.
pub open spec fn line_list(v: Seq<Line>) -> Seq<(LogFile, Seq<char>)> {
    v.map_values(|l: Line| (l.file, l.text@))
}

/// The lines that tell how the program got where it is.
pub open spec fn debug_lines(open: bool, now: Moment, message: Seq<char>) -> Seq<
    (LogFile, Seq<char>),
> {
    if open {
        seq![(LogFile::Debug, log_stamp(now.secs as int, now.millis as int) + " "@ + message)]
    } else {
        Seq::empty()
    }
}

/// The lines that tell how an operation turned out.
pub open spec fn record_lines(open: bool, now: Moment, outcome: Outcome, message: Seq<char>) -> Seq<
    (LogFile, Seq<char>),
> {
    if open {
        let line = log_stamp(now.secs as int, now.millis as int) + " "@ + outcome.word() + " "@
            + message;
        seq![(LogFile::Output, line), (LogFile::Debug, line)]
    } else {
        Seq::empty()
    }
}

/// What is told of an operation is in both logs, the same line in each, with the
/// moment before it and the outcome and the message behind; what is told of the
/// program's way is in the debug log alone. Logs that are not open are not
/// written.
pub proof fn law_logs_tell_one_story(now: Moment, outcome: Outcome, message: Seq<char>)
    ensures
        ({
            let stamp = log_stamp(now.secs as int, now.millis as int);
            let lines = record_lines(true, now, outcome, message);
            let text = lines[0].1;
            &&& lines.len() == 2
            &&& lines[0].0 == LogFile::Output
            &&& lines[1] == (LogFile::Debug, text)
            &&& text.take(stamp.len() as int) == stamp
            &&& text.skip(text.len() - message.len()) == message
            &&& text.subrange(stamp.len() as int + 1, text.len() - message.len() - 1)
                == outcome.word()
            &&& debug_lines(true, now, message).len() == 1
            &&& debug_lines(true, now, message)[0].0 == LogFile::Debug
            &&& debug_lines(true, now, message)[0].1 == stamp + seq![' '] + message
        }),
        record_lines(false, now, outcome, message).len() == 0,
        debug_lines(false, now, message).len() == 0,
{
    reveal_strlit(" ");
    let stamp = log_stamp(now.secs as int, now.millis as int);
    let text = record_lines(true, now, outcome, message)[0].1;
    assert(text.take(stamp.len() as int) =~= stamp);
    assert(text.skip(text.len() - message.len()) =~= message);
    assert(text.subrange(stamp.len() as int + 1, text.len() - message.len() - 1) =~= outcome.word());
    assert(debug_lines(true, now, message)[0].1 =~= stamp + seq![' '] + message);
}

/// Opened logs are where they were put, and stay there; where there is no folder,
/// or the files did not open, that is told.
pub proof fn law_logs_are_where_they_were_opened(
    folder: Seq<char>,
    why: Seq<char>,
    settled: Result<Seq<char>, Seq<char>>,
    again: Option<Seq<char>>,
    started: Result<(), Seq<char>>,
)
    ensures
        opened(None, Some(folder), Ok(())) == Ok::<Seq<char>, Seq<char>>(folder),
        opened(None, Some(folder), Err(why)) == Err::<Seq<char>, Seq<char>>(why),
        opened(None, None, started) is Err,
        opened(Some(settled), again, started) == settled,
        start_folder(None, Some(folder)) == Some(folder),
        start_folder(Some(settled), again) is None,
{
}

/// The views of both sides of a result.
pub open spec fn place_text(r: Result<String, String>) -> Result<Seq<char>, Seq<char>> {
    match r {
        Ok(s) => Ok(s@),
        Err(e) => Err(e@),
    }
}

/// The folder the files have still to be opened in: none once it is settled
/// where the logs go, and none where there is no place for them.
pub open spec fn start_folder(
    settled: Option<Result<Seq<char>, Seq<char>>>,
    folder: Option<Seq<char>>,
) -> Option<Seq<char>> {
    if settled is Some {
        None
    } else {
        folder
    }
}

/// Where the logs are after opening them: where they were, if that was settled,
/// and otherwise in `folder`, unless there is none or the files did not open.
pub open spec fn opened(
    settled: Option<Result<Seq<char>, Seq<char>>>,
    folder: Option<Seq<char>>,
    started: Result<(), Seq<char>>,
) -> Result<Seq<char>, Seq<char>> {
    match (settled, folder, started) {
        (Some(s), _, _) => s,
        (None, None, _) => Err("no application data folder on this system"@),
        (None, Some(_), Err(e)) => Err(e),
        (None, Some(f), Ok(_)) => Ok(f),
    }
}

/// What came of opening the files.
pub open spec fn started_text(started: Result<(), String>) -> Result<(), Seq<char>> {
    match started {
        Ok(_) => Ok(()),
        Err(e) => Err(e@),
    }
}

/// Opening the logs a second time is harmless: whatever came of the first time
/// comes again, and there is no folder to open files in.
pub proof fn law_opening_again_does_nothing(
    settled: Option<Result<Seq<char>, Seq<char>>>,
    first: Option<Seq<char>>,
    came: Result<(), Seq<char>>,
    second: Option<Seq<char>>,
    started: Result<(), Seq<char>>,
)
    ensures
        ({
            let place = opened(settled, first, came);
            &&& opened(Some(place), second, started) == place
            &&& start_folder(Some(place), second) is None
        }),
{
}

/// Where the logs go, or why they don't.
pub struct Logs {
    place: Option<Result<String, String>>,
}

impl Logs {
    /// Where the logs went, or why they didn't, once either is known.
    pub closed spec fn settled(self) -> Option<Result<Seq<char>, Seq<char>>> {
        match self.place {
            Some(r) => Some(place_text(r)),
            None => None,
        }
    }

    /// Whether lines are being written.
    pub open spec fn is_open(self) -> bool {
        self.settled() matches Some(Ok(_))
    }

    /// Logs that have not been started.
    pub fn new() -> (r: Self)
        ensures
            r.settled() is None,
    {
        Logs { place: None }
    }

    /// The folder to make and open both files in before calling [`Logs::open`]:
    /// none if that has been done, or if `folder` says there is no place for
    /// them.
    pub fn to_start(&self, folder: Option<&str>) -> (r: Option<String>)
        ensures
            crate::feed::optional_text(r) == start_folder(self.settled(), text_of(folder)),
    {
        match (&self.place, folder) {
            (None, Some(f)) => Some(owned(f)),
            _ => None,
        }
    }

    /// Settles where the logs go: `folder` is the place chosen for them, if
    /// there is one, and `started` what came of opening both files in the folder
    /// that [`Logs::to_start`] named. Returns the folder they are in, or the
    /// reason there are no logs this time.
    ///
    /// Calling it twice is harmless and does nothing the second time.
    pub fn open(&mut self, folder: Option<String>, started: Result<(), String>) -> (r: Result<
        String,
        String,
    >)
        ensures
            place_text(r) == opened(
                old(self).settled(),
                crate::feed::optional_text(folder),
                started_text(started),
            ),
            final(self).settled() == Some(place_text(r)),
    {
        if self.place.is_none() {
            self.place = Some(
                match folder {
                    None => Err(owned("no application data folder on this system")),
                    Some(f) => match started {
                        Ok(_) => Ok(f),
                        Err(e) => Err(e),
                    },
                },
            );
        }
        self.status()
    }

    /// Where the logs went, or why they didn't — for the window to say so once.
    pub fn status(&self) -> (r: Result<String, String>)
        ensures
            place_text(r) == match self.settled() {
                Some(s) => s,
                None => Err("logging was never started"@),
            },
    {
        match &self.place {
            Some(Ok(f)) => Ok(f.clone()),
            Some(Err(e)) => Err(e.clone()),
            None => Err(owned("logging was never started")),
        }
    }

    /// A line for `debug.log`: how the program got where it is.
    pub fn debug(&self, now: Moment, message: &str) -> (r: Vec<Line>)
        requires
            now.secs <= i64::MAX,
        ensures
            line_list(r@) == (if self.is_open() {
                seq![(LogFile::Debug, log_stamp(now.secs as int, now.millis as int) + " "@ + message@)]
            } else {
                Seq::empty()
            }),
            line_list(r@) == debug_lines(self.is_open(), now, message@),
    {
        let mut r: Vec<Line> = Vec::new();
        if let Some(Ok(_)) = &self.place {
            let mut text = utc_stamp(now.secs, now.millis);
            text.push_str(" ");
            text.push_str(message);
            r.push(Line { file: LogFile::Debug, text });
        }
        assert(line_list(r@) =~= (if self.is_open() {
            seq![(LogFile::Debug, log_stamp(now.secs as int, now.millis as int) + " "@ + message@)]
        } else {
            Seq::empty()
        }));
        r
    }

    /// A line for `output.log`: an operation, and how it turned out.
    ///
    /// Everything recorded here is also written to `debug.log`, so the debug
    /// file reads as one story rather than as the half of it the output file
    /// left out.
    pub fn record(&self, now: Moment, outcome: Outcome, message: &str) -> (r: Vec<Line>)
        requires
            now.secs <= i64::MAX,
        ensures
            line_list(r@) == (if self.is_open() {
                let line = log_stamp(now.secs as int, now.millis as int) + " "@ + outcome.word()
                    + " "@ + message@;
                seq![(LogFile::Output, line), (LogFile::Debug, line)]
            } else {
                Seq::empty()
            }),
            line_list(r@) == record_lines(self.is_open(), now, outcome, message@),
    {
        let mut r: Vec<Line> = Vec::new();
        if let Some(Ok(_)) = &self.place {
            let mut text = utc_stamp(now.secs, now.millis);
            text.push_str(" ");
            text.push_str(outcome.tag());
            text.push_str(" ");
            text.push_str(message);
            r.push(Line { file: LogFile::Output, text: text.clone() });
            r.push(Line { file: LogFile::Debug, text });
        }
        assert(line_list(r@) =~= (if self.is_open() {
            let line = log_stamp(now.secs as int, now.millis as int) + " "@ + outcome.word() + " "@
                + message@;
            seq![(LogFile::Output, line), (LogFile::Debug, line)]
        } else {
            Seq::empty()
        }));
        r
    }
}

/// The folder the logs go in: `Podbatch/Logging` under the home folder. No home
/// folder is vanishingly rare — a service account, a locked-down kiosk — but it
/// is the one case where insisting on `~` would mean no logs at all, so the
/// platform's own data folder, or else its configuration folder, stands in.
pub open spec fn log_folder(
    home: Option<Seq<char>>,
    data: Option<Seq<char>>,
    config: Option<Seq<char>>,
) -> Option<Seq<char>> {
    match (home, data, config) {
        (Some(h), _, _) => Some(joined_path(joined_path(h, "Podbatch"@), "Logging"@)),
        (None, Some(d), _) => Some(joined_path(d, "PodBatch"@)),
        (None, None, Some(c)) => Some(joined_path(c, "PodBatch"@)),
        (None, None, None) => None,
    }
}

/// The folder the logs go in.
pub fn folder_path(home: Option<&str>, data: Option<&str>, config: Option<&str>) -> (r: Option<
    String,
>)
    ensures
        crate::feed::optional_text(r) == log_folder(text_of(home), text_of(data), text_of(config)),
{
    match home {
        Some(h) => {
            let podbatch = join_path(h, "Podbatch");
            Some(join_path(podbatch.as_str(), "Logging"))
        },
        None => match data {
            Some(d) => Some(join_path(d, "PodBatch")),
            None => match config {
                Some(c) => Some(join_path(c, "PodBatch")),
                None => None,
            },
        },
    }
}

/// Where to move a log of this length before appending to it: nowhere, unless
/// it has grown too big. One generation back is kept: enough to compare a run
/// that worked against the one that didn't, and the folder can never hold more
/// than a handful of megabytes.
pub fn moved_aside(path: &str, length: Option<u64>) -> (r: Option<String>)
    ensures
        match r {
            Some(p) => length matches Some(n) && n > ROTATE_AT && p@ == with_extension(
                path@,
                "log.old"@,
            ),
            None => length matches Some(n) ==> n <= ROTATE_AT,
        },
{
    match length {
        Some(n) => if n > ROTATE_AT {
            Some(replace_extension(path, "log.old"))
        } else {
            None
        },
        None => None,
    }
}

} // verus!
