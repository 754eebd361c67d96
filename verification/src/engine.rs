//! The download engine.
//!
//! A run happens in two passes. The first reads every feed, names every file
//! and sets aside the episodes already on disk, ending in an [`Update::Planned`]
//! that says how much there is to fetch; the second does the fetching, and only
//! once the window has said to go ahead via [`Proceed`]. The pause exists so the
//! user can be told the size of what they just asked for before it starts —
//! which is not something either side can know until the feeds have been read.
//!
//! What is here decides: what to ask the network and the disk for, what an
//! answer means, what to tell the window, and when to stop. Moving the bytes is
//! for whoever drives it.

use crate::feed::items;
use crate::feed::optional_text;
use crate::feed::Episode;
use crate::feed::Feed;
use crate::feed::Item;
use crate::opml::Subscription;
use crate::text::chars_of;
use crate::text::decimal;
use crate::text::digit;
use crate::text::lower;
use crate::text::owned;
use crate::text::push_decimal;
use crate::text::push_wide;
use crate::text::same_ignoring_case;
use crate::text::texts;
use crate::tools::join_path;
use crate::tools::joined_path;
use crate::util::bytes_text;
use crate::util::chosen_extension;
use crate::util::counted_text;
use crate::util::extension_for;
use crate::util::human_bytes;
use crate::util::push_counted;
use crate::util::Rate;
use crate::util::sanitize;
use crate::util::sanitized;
use vstd::prelude::*;

verus! {

/// Network hiccups are common on podcast CDNs; a couple of retries turns most
/// of them into a blip rather than a failed episode.
pub const ATTEMPTS: u32 = 3;

/// How often a running download reports progress upward, in milliseconds.
pub const PROGRESS_INTERVAL_MS: u64 = 120;

/// How much of one episode to pull down to see how fast the line is, and how
/// long to spend doing it. Whichever comes first: on a fast line this is a
/// quarter of a megabyte and over in a moment, and on a slow one it is a
/// second and a half of waiting and no more — the confirmation box is meant to
/// save the user time, so it cannot cost much of it to appear.
pub const PROBE_BYTES: u64 = 256 * 1024;

pub const PROBE_TIME_MS: u64 = 1500;

// ---- Handles --------------------------------------------------------------

/// Whether a run in progress has been told to stop.
///
/// The handle is a plain value. The UI keeps one and the run another, and
/// [`Cancel::follow`] passes what the one says on to the other.
#[derive(Debug)]
pub struct Cancel {
    cancelled: bool,
}

impl Cancel {
    /// Whether the run has been stopped.
    pub closed spec fn stopped(self) -> bool {
        self.cancelled
    }

    /// A run that has not been stopped.
    pub fn new() -> (r: Self)
        ensures
            !r.stopped(),
    {
        Cancel { cancelled: false }
    }

    /// Stops the run. There is no taking it back.
    pub fn cancel(&mut self)
        ensures
            final(self).stopped(),
    {
        self.cancelled = true;
    }

    /// Takes over what another holder's handle says: what is stopped there is
    /// stopped here, and what was stopped here stays so.
    pub fn follow(&mut self, other: &Cancel)
        ensures
            final(self).stopped() == (old(self).stopped() || other.stopped()),
    {
        if other.cancelled {
            self.cancelled = true;
        }
    }

    /// Whether the run has been stopped. Transcription runs are stopped with the
    /// same kind of handle: stopping a run means the same thing to both.
    pub fn is_cancelled(&self) -> (r: bool)
        ensures
            r == self.stopped(),
    {
        self.cancelled
    }
}

impl Default for Cancel {
    fn default() -> (r: Self)
        ensures
            !r.stopped(),
    {
        Self::new()
    }
}

/// Whether the downloads may start, now that the user has seen what they come to.
/// A plain value like [`Cancel`], and passed on like it.
///
/// A run holds between the two passes until this is set or [`Cancel`] is: the
/// engine never assumes the answer, because "yes" is the one that spends the
/// next half hour of someone's bandwidth.
#[derive(Debug)]
pub struct Proceed {
    going: bool,
}

impl Proceed {
    /// Whether the downloads may start.
    pub closed spec fn released(self) -> bool {
        self.going
    }

    /// Downloads that still have to be agreed to.
    pub fn new() -> (r: Self)
        ensures
            !r.released(),
    {
        Proceed { going: false }
    }

    /// Lets the downloads start.
    pub fn go(&mut self)
        ensures
            final(self).released(),
    {
        self.going = true;
    }

    /// Takes over what another holder's handle says: what may start there may
    /// start here, and what might start here still may.
    pub fn follow(&mut self, other: &Proceed)
        ensures
            final(self).released() == (old(self).released() || other.released()),
    {
        if other.going {
            self.going = true;
        }
    }

    /// Whether the downloads may start.
    pub fn is_go(&self) -> (r: bool)
        ensures
            r == self.released(),
    {
        self.going
    }
}

impl Default for Proceed {
    fn default() -> (r: Self)
        ensures
            !r.released(),
    {
        Self::new()
    }
}

/// Whether a held run may go on: nothing yet while it has been neither let go
/// nor stopped, and otherwise whether to download. Stopping always wins.
pub fn may_go(proceed: &Proceed, cancel: &Cancel) -> (r: Option<bool>)
    ensures
        r == (if cancel.stopped() {
            Some(false)
        } else if proceed.released() {
            Some(true)
        } else {
            None
        }),
{
    if cancel.is_cancelled() {
        Some(false)
    } else if proceed.is_go() {
        Some(true)
    } else {
        None
    }
}

/// The individual episodes the user has taken back out of the job. A plain value
/// like [`Cancel`].
///
/// The window cannot know what is in a podcast until the feeds have been read,
/// so per-episode choosing can only happen in the pause [`Proceed`] creates.
/// This is what carries that choice across: the window fills it in before it
/// says to go ahead, and the engine reads it once, on the way out of the pause.
/// Episodes are named by the same `(feed, episode)` indices every [`Update`]
/// uses, so both sides are talking about the same thing without either having
/// to send the list back.
#[derive(Debug)]
pub struct Skips {
    held: Vec<(usize, usize)>,
}

impl View for Skips {
    type V = Set<(usize, usize)>;

    closed spec fn view(&self) -> Set<(usize, usize)> {
        self.held@.to_set()
    }
}

impl Skips {
    /// Nothing left out.
    pub fn new() -> (r: Self)
        ensures
            r@ == Set::<(usize, usize)>::empty(),
    {
        let r = Skips { held: Vec::new() };
        assert(r@ =~= Set::<(usize, usize)>::empty());
        r
    }

    /// What to leave out. Replaces whatever was there before, so the window can
    /// simply hand over the state of its tick boxes rather than a difference.
    pub fn set(&mut self, skips: Vec<(usize, usize)>)
        ensures
            final(self)@ == skips@.to_set(),
    {
        self.held = skips;
    }

    /// Whether this episode is one to leave out.
    pub fn holds(&self, feed: usize, episode: usize) -> (r: bool)
        ensures
            r == self@.contains((feed, episode)),
    {
        let mut i: usize = 0;
        while i < self.held.len()
            invariant
                i <= self.held@.len(),
                forall|k: int| 0 <= k < i ==> #[trigger] self.held@[k] != (feed, episode),
            decreases self.held@.len() - i,
        {
            let (f, e) = self.held[i];
            if f == feed && e == episode {
                assert(self.held@[i as int] == (feed, episode));
                return true;
            }
            i += 1;
        }
        false
    }
}

impl Default for Skips {
    fn default() -> (r: Self)
        ensures
            r@ == Set::<(usize, usize)>::empty(),
    {
        Self::new()
    }
}

// ---- Names ----------------------------------------------------------------

/// A name with its extension, which folders have none of.
pub open spec fn assembled(stem: Seq<char>, ext: Seq<char>) -> Seq<char> {
    if ext.len() == 0 {
        stem
    } else {
        stem + seq!['.'] + ext
    }
}

/// The `n`th name to try: the plain one, then ` (2)`, ` (3)` and so on.
pub open spec fn candidate(stem: Seq<char>, ext: Seq<char>, n: int) -> Seq<char> {
    if n <= 1 {
        assembled(stem, ext)
    } else {
        assembled(stem + seq![' ', '('] + decimal(n) + seq![')'], ext)
    }
}

/// Whether a name has been handed out already. Case-insensitive, because macOS
/// and Windows filesystems usually are.
pub open spec fn is_taken(taken: Seq<Seq<char>>, name: Seq<char>) -> bool {
    exists|i: int| 0 <= i < taken.len() && lower(#[trigger] taken[i]) == lower(name)
}

/// The first number from `n` whose name is free, looking no further than
/// `last`.
pub open spec fn first_free(
    stem: Seq<char>,
    ext: Seq<char>,
    taken: Seq<Seq<char>>,
    n: int,
    last: int,
) -> int
    decreases last - n,
{
    if n >= last || !is_taken(taken, candidate(stem, ext, n)) {
        n
    } else {
        first_free(stem, ext, taken, n + 1, last)
    }
}

/// The name that is handed out: the first that has not been. One more than
/// there are taken names is always far enough to look.
pub open spec fn free_name(stem: Seq<char>, ext: Seq<char>, taken: Seq<Seq<char>>) -> Seq<char> {
    candidate(stem, ext, first_free(stem, ext, taken, 1, taken.len() as int + 1))
}

/// No two numbers are written the same.
proof fn lemma_decimal_distinct(a: int, b: int)
    requires
        0 <= a,
        0 <= b,
        decimal(a) == decimal(b),
    ensures
        a == b,
    decreases a + b,
{
    assert(decimal(a).last() == digit(a % 10));
    assert(decimal(b).last() == digit(b % 10));
    if a >= 10 && b >= 10 {
        assert(decimal(a).drop_last() =~= decimal(a / 10));
        assert(decimal(b).drop_last() =~= decimal(b / 10));
        lemma_decimal_distinct(a / 10, b / 10);
    } else if a >= 10 {
        lemma_decimal_nonempty(a / 10);
        assert(decimal(a).len() > 1);
        assert(decimal(b).len() == 1);
    } else if b >= 10 {
        lemma_decimal_nonempty(b / 10);
        assert(decimal(b).len() > 1);
        assert(decimal(a).len() == 1);
    }
}

proof fn lemma_decimal_nonempty(n: int)
    requires
        0 <= n,
    ensures
        decimal(n).len() > 0,
        forall|i: int| 0 <= i < decimal(n).len() ==> '0' <= #[trigger] decimal(n)[i] <= '9',
    decreases n,
{
    if n >= 10 {
        lemma_decimal_nonempty(n / 10);
    }
}

/// No two candidates are the same name, even ignoring case.
proof fn lemma_candidates_distinct(stem: Seq<char>, ext: Seq<char>, a: int, b: int)
    requires
        1 <= a < b,
    ensures
        lower(candidate(stem, ext, a)) != lower(candidate(stem, ext, b)),
{
    let x = candidate(stem, ext, a);
    let y = candidate(stem, ext, b);
    let tail = if ext.len() == 0 { Seq::empty() } else { seq!['.'] + ext };
    lemma_decimal_nonempty(b);
    assert(lower(x).len() == x.len() && lower(y).len() == y.len());
    assert(y =~= stem + seq![' ', '('] + decimal(b) + seq![')'] + tail);
    if a == 1 {
        assert(x =~= stem + tail);
        assert(x.len() < y.len());
    } else if lower(x) == lower(y) {
        lemma_decimal_nonempty(a);
        assert(x =~= stem + seq![' ', '('] + decimal(a) + seq![')'] + tail);
        assert(decimal(a).len() == decimal(b).len());
        assert forall|i: int| 0 <= i < decimal(a).len() implies decimal(a)[i] == decimal(b)[i] by {
            let k = stem.len() + 2 + i;
            assert(x[k] == decimal(a)[i] && y[k] == decimal(b)[i]);
            assert(lower(x)[k] == lower(y)[k]);
        }
        assert(decimal(a) =~= decimal(b));
        lemma_decimal_distinct(a, b);
    }
}

/// Among one more candidates than there are taken names, one is free.
proof fn lemma_some_candidate_is_free(stem: Seq<char>, ext: Seq<char>, taken: Seq<Seq<char>>)
    ensures
        exists|n: int|
            1 <= n <= taken.len() + 1 && !is_taken(taken, #[trigger] candidate(stem, ext, n)),
{
    if forall|n: int|
        1 <= n <= taken.len() + 1 ==> is_taken(taken, #[trigger] candidate(stem, ext, n)) {
        let k = taken.len() + 1;
        let names = Seq::new(k, |i: int| lower(candidate(stem, ext, i + 1)));
        let keys = Seq::new(taken.len(), |i: int| lower(taken[i]));
        assert(names.no_duplicates()) by {
            assert forall|i: int, j: int|
                0 <= i < names.len() && 0 <= j < names.len() && i != j implies names[i]
                != names[j] by {
                if names[i] == names[j] {
                    if i < j {
                        lemma_candidates_distinct(stem, ext, i + 1, j + 1);
                    } else {
                        lemma_candidates_distinct(stem, ext, j + 1, i + 1);
                    }
                }
            }
        }
        names.unique_seq_to_set();
        vstd::seq_lib::seq_to_set_is_finite(keys);
        assert(names.to_set().subset_of(keys.to_set())) by {
            assert forall|x: Seq<char>| names.to_set().contains(x) implies keys.to_set().contains(
                x,
            ) by {
                let i = choose|i: int| 0 <= i < names.len() && names[i] == x;
                assert(is_taken(taken, candidate(stem, ext, i + 1)));
                let j = choose|j: int|
                    0 <= j < taken.len() && lower(#[trigger] taken[j]) == lower(
                        candidate(stem, ext, i + 1),
                    );
                assert(keys[j] == x);
            }
        }
        keys.lemma_cardinality_of_set();
        vstd::set_lib::lemma_len_subset(names.to_set(), keys.to_set());
        assert(false);
    }
}

proof fn lemma_first_free(
    stem: Seq<char>,
    ext: Seq<char>,
    taken: Seq<Seq<char>>,
    n: int,
    last: int,
)
    requires
        1 <= n <= last,
        exists|m: int| n <= m <= last && !is_taken(taken, #[trigger] candidate(stem, ext, m)),
    ensures
        n <= first_free(stem, ext, taken, n, last) <= last,
        !is_taken(taken, candidate(stem, ext, first_free(stem, ext, taken, n, last))),
        forall|m: int|
            n <= m < first_free(stem, ext, taken, n, last) ==> is_taken(
                taken,
                #[trigger] candidate(stem, ext, m),
            ),
    decreases last - n,
{
    if n < last && is_taken(taken, candidate(stem, ext, n)) {
        let m = choose|m: int| n <= m <= last && !is_taken(taken, #[trigger] candidate(stem, ext, m));
        assert(m != n);
        lemma_first_free(stem, ext, taken, n + 1, last);
    } else if n == last {
        let m = choose|m: int| n <= m <= last && !is_taken(taken, #[trigger] candidate(stem, ext, m));
        assert(m == n);
    }
}

/// A name handed out is a new one, even ignoring case, and the plain one
/// whenever that is free.
pub proof fn law_names_are_handed_out_once(stem: Seq<char>, ext: Seq<char>, taken: Seq<Seq<char>>)
    ensures
        !is_taken(taken, free_name(stem, ext, taken)),
        !is_taken(taken, assembled(stem, ext)) ==> free_name(stem, ext, taken) == assembled(
            stem,
            ext,
        ),
{
    lemma_some_candidate_is_free(stem, ext, taken);
    lemma_first_free(stem, ext, taken, 1, taken.len() as int + 1);
}

/// Whether a name is among those handed out.
fn name_taken(taken: &Vec<String>, name: &str) -> (r: bool)
    ensures
        r == is_taken(texts(taken@), name@),
{
    let cs = chars_of(name);
    let mut i: usize = 0;
    while i < taken.len()
        invariant
            i <= taken@.len(),
            cs@ == name@,
            forall|k: int| 0 <= k < i ==> lower(#[trigger] texts(taken@)[k]) != lower(name@),
        decreases taken@.len() - i,
    {
        let other = chars_of(taken[i].as_str());
        assert(texts(taken@)[i as int] == taken@[i as int]@);
        if same_ignoring_case(other.as_slice(), cs.as_slice()) {
            return true;
        }
        i += 1;
    }
    false
}

/// Puts a name together.
fn assemble(stem: &str, ext: &str) -> (r: String)
    ensures
        r@ == assembled(stem@, ext@),
{
    let mut s = owned(stem);
    if !ext.is_empty() {
        s.push('.');
        assert(s@ =~= stem@ + seq!['.']);
        s.push_str(ext);
    }
    s
}

/// Build a name that hasn't been handed out yet, appending ` (2)`, ` (3)` ... on
/// collision. `ext` may be empty for folder names.
pub fn unique_name(stem: &str, ext: &str, taken: &mut Vec<String>) -> (r: String)
    ensures
        r@ == free_name(stem@, ext@, texts(old(taken)@)),
        texts(final(taken)@) == texts(old(taken)@).push(r@),
{
    let ghost before = texts(taken@);
    let mut name = assemble(stem, ext);
    let mut n: u128 = 1;
    proof {
        lemma_some_candidate_is_free(stem@, ext@, before);
        lemma_first_free(stem@, ext@, before, 1, before.len() as int + 1);
    }
    let ghost found = first_free(stem@, ext@, before, 1, before.len() as int + 1);
    let limit: u128 = taken.len() as u128 + 1;
    while name_taken(taken, name.as_str())
        invariant
            1 <= n <= found <= limit,
            limit == before.len() + 1,
            before == texts(taken@),
            before.len() == taken@.len(),
            taken@.len() <= usize::MAX,
            name@ == candidate(stem@, ext@, n as int),
            found == first_free(stem@, ext@, before, 1, before.len() as int + 1),
            !is_taken(before, candidate(stem@, ext@, found)),
            forall|m: int|
                1 <= m < found ==> is_taken(before, #[trigger] candidate(stem@, ext@, m)),
        decreases found - n,
    {
        n = n + 1;
        let mut numbered = owned(stem);
        numbered.push(' ');
        numbered.push('(');
        assert(numbered@ =~= stem@ + seq![' ', '(']);
        push_wide(&mut numbered, n);
        numbered.push(')');
        assert(numbered@ =~= stem@ + seq![' ', '('] + decimal(n as int) + seq![')']);
        name = assemble(numbered.as_str(), ext);
    }
    assert(n == found) by {
        if n < found {
            assert(is_taken(before, candidate(stem@, ext@, n as int)));
        }
    }
    let ghost list = taken@;
    taken.push(name.clone());
    assert(texts(taken@) =~= texts(list).push(name@));
    name
}

// ---- What the window is told ----------------------------------------------

/// What one run was asked to do.
#[derive(Debug, Clone)]
pub struct Settings {
    /// The podcasts the user ticked. Parsing the OPML is the window's job, so
    /// that the list can be shown and chosen from before anything is fetched.
    pub subscriptions: Vec<Subscription>,
    pub out_dir: String,
    /// Maximum simultaneous network transfers across all podcasts.
    pub concurrency: usize,
    /// Newest N episodes per podcast; `None` means every episode.
    pub limit: Option<usize>,
    pub skip_existing: bool,
}

#[derive(Debug, Clone, PartialEq, Eq)]
pub enum FeedStatus {
    Pending,
    Fetching,
    Downloading,
    Done,
    Failed(String),
}

/// What a feed's status says.
pub enum FeedState {
    Pending,
    Fetching,
    Downloading,
    Done,
    Failed(Seq<char>),
}

impl View for FeedStatus {
    type V = FeedState;

    open spec fn view(&self) -> FeedState {
        match self {
            FeedStatus::Pending => FeedState::Pending,
            FeedStatus::Fetching => FeedState::Fetching,
            FeedStatus::Downloading => FeedState::Downloading,
            FeedStatus::Done => FeedState::Done,
            FeedStatus::Failed(e) => FeedState::Failed(e@),
        }
    }
}

impl FeedStatus {
    /// Whether nothing more will come of this feed.
    pub fn is_settled(&self) -> (r: bool)
        ensures
            r == (self@ is Done || self@ is Failed),
    {
        match self {
            FeedStatus::Done => true,
            FeedStatus::Failed(_) => true,
            _ => false,
        }
    }
}

#[derive(Debug, Clone, PartialEq, Eq)]
pub enum EpisodeStatus {
    Pending,
    Downloading,
    Done,
    /// Already on disk, so there was nothing to fetch.
    Skipped,
    /// Taken out of the job by the user, who un-ticked it while the run was
    /// held at the confirmation. Kept apart from `Skipped` because the two are
    /// different answers to "why is this episode not here?" — one is the app
    /// noticing it already had it, the other is a decision somebody made.
    Unticked,
    Cancelled,
    Failed(String),
}

/// What an episode's status says.
pub enum EpisodeState {
    Pending,
    Downloading,
    Done,
    Skipped,
    Unticked,
    Cancelled,
    Failed(Seq<char>),
}

impl View for EpisodeStatus {
    type V = EpisodeState;

    open spec fn view(&self) -> EpisodeState {
        match self {
            EpisodeStatus::Pending => EpisodeState::Pending,
            EpisodeStatus::Downloading => EpisodeState::Downloading,
            EpisodeStatus::Done => EpisodeState::Done,
            EpisodeStatus::Skipped => EpisodeState::Skipped,
            EpisodeStatus::Unticked => EpisodeState::Unticked,
            EpisodeStatus::Cancelled => EpisodeState::Cancelled,
            EpisodeStatus::Failed(e) => EpisodeState::Failed(e@),
        }
    }
}

#[derive(Debug, Clone)]
pub struct EpisodeInfo {
    pub title: String,
    pub file_name: String,
    pub size_hint: Option<u64>,
}

/// What is said of an episode before it is fetched.
pub struct Info {
    pub title: Seq<char>,
    pub file_name: Seq<char>,
    pub size_hint: Option<u64>,
}

impl View for EpisodeInfo {
    type V = Info;

    open spec fn view(&self) -> Info {
        Info { title: self.title@, file_name: self.file_name@, size_hint: self.size_hint }
    }
}

/// What is said of a list of episodes.
pub open spec fn infos(v: Seq<EpisodeInfo>) -> Seq<Info> {
    v.map_values(|e: EpisodeInfo| e@)
}

/// What a run would fetch, worked out from the feeds before anything is
/// downloaded. Everything the confirmation box needs to describe the job.
#[derive(Debug, Clone, Copy, PartialEq, Eq)]
pub struct Plan {
    /// Episodes that would actually be downloaded.
    pub episodes: usize,
    /// What those episodes come to, counting only the ones that declare a size.
    pub bytes: u64,
    /// How many of them declare no size at all, so `bytes` is a floor and not a
    /// total. Plenty of feeds omit the enclosure length.
    pub unsized_episodes: usize,
    /// Episodes already on disk, which are not part of the job.
    pub skipped: usize,
    /// What **one** connection managed on a slice of a real episode, if the
    /// probe got anything worth measuring. Several downloads run at once, so
    /// the whole run should manage more than this rather than less.
    pub probed_rate: Option<Rate>,
}

impl Default for Plan {
    fn default() -> (r: Self)
        ensures
            r == (Plan {
                episodes: 0,
                bytes: 0,
                unsized_episodes: 0,
                skipped: 0,
                probed_rate: None,
            }),
    {
        Plan { episodes: 0, bytes: 0, unsized_episodes: 0, skipped: 0, probed_rate: None }
    }
}

/// Messages from the engine to the UI. Feeds and episodes are addressed by
/// index into the lists the engine announced earlier.
#[derive(Debug)]
pub enum Update {
    FeedStatus { feed: usize, status: FeedStatus },
    FeedFolder { feed: usize, name: String },
    Episodes { feed: usize, episodes: Vec<EpisodeInfo> },
    EpisodeStatus { feed: usize, episode: usize, status: EpisodeStatus },
    Progress { feed: usize, episode: usize, done: u64, total: Option<u64> },
    Log(String),
    /// A line like [`Update::Log`], for something that went wrong.
    ///
    /// Kept apart from `Log` so the window can colour it and the output log can
    /// file it as a failure. Without this, a feed that could not be fetched —
    /// which loses a whole podcast — goes down in the log looking exactly like
    /// a line about how many episodes there are.
    Problem(String),
    /// Every feed has been read; this is the job, waiting to be agreed to.
    Planned(Plan),
    Finished { cancelled: bool },
}

/// What a message says.
pub enum Report {
    FeedStatus { feed: int, status: FeedState },
    FeedFolder { feed: int, name: Seq<char> },
    Episodes { feed: int, episodes: Seq<Info> },
    EpisodeStatus { feed: int, episode: int, status: EpisodeState },
    Progress { feed: int, episode: int, done: u64, total: Option<u64> },
    Log(Seq<char>),
    Problem(Seq<char>),
    Planned(Plan),
    Finished { cancelled: bool },
}

impl View for Update {
    type V = Report;

    open spec fn view(&self) -> Report {
        match self {
            Update::FeedStatus { feed, status } => Report::FeedStatus {
                feed: *feed as int,
                status: status@,
            },
            Update::FeedFolder { feed, name } => Report::FeedFolder {
                feed: *feed as int,
                name: name@,
            },
            Update::Episodes { feed, episodes } => Report::Episodes {
                feed: *feed as int,
                episodes: infos(episodes@),
            },
            Update::EpisodeStatus { feed, episode, status } => Report::EpisodeStatus {
                feed: *feed as int,
                episode: *episode as int,
                status: status@,
            },
            Update::Progress { feed, episode, done, total } => Report::Progress {
                feed: *feed as int,
                episode: *episode as int,
                done: *done,
                total: *total,
            },
            Update::Log(m) => Report::Log(m@),
            Update::Problem(m) => Report::Problem(m@),
            Update::Planned(p) => Report::Planned(*p),
            Update::Finished { cancelled } => Report::Finished { cancelled: *cancelled },
        }
    }
}

/// What a list of messages says.
pub open spec fn reports(v: Seq<Update>) -> Seq<Report> {
    v.map_values(|u: Update| u@)
}

// ---- Reading the feeds ----------------------------------------------------

/// The folders podcasts go in, in order: each named after its title, told apart
/// where two come out the same.
pub open spec fn folders(titles: Seq<Seq<char>>) -> Seq<Seq<char>>
    decreases titles.len(),
{
    if titles.len() == 0 {
        Seq::empty()
    } else {
        let before = folders(titles.drop_last());
        before.push(free_name(sanitized(titles.last()), Seq::empty(), before))
    }
}

/// The titles of a list of subscriptions.
pub open spec fn sub_titles(subs: Seq<Subscription>) -> Seq<Seq<char>> {
    subs.map_values(|s: Subscription| s.title@)
}

/// Reserve every folder name up front so two podcasts that sanitise to the same
/// string can't collide once the tasks start running in parallel.
pub fn folder_names(subs: &Vec<Subscription>) -> (r: Vec<String>)
    ensures
        texts(r@) == folders(sub_titles(subs@)),
{
    let ghost titles = sub_titles(subs@);
    let mut taken: Vec<String> = Vec::new();
    let mut i: usize = 0;
    assert(texts(taken@) =~= folders(titles.take(0)));
    proof {
        reveal_strlit("");
        assert(""@ =~= Seq::<char>::empty());
    }
    while i < subs.len()
        invariant
            i <= subs@.len(),
            titles == sub_titles(subs@),
            ""@ == Seq::<char>::empty(),
            texts(taken@) == folders(titles.take(i as int)),
        decreases subs@.len() - i,
    {
        let stem = sanitize(subs[i].title.as_str());
        proof {
            let upto = titles.take(i + 1);
            assert(upto.drop_last() =~= titles.take(i as int));
            assert(upto.last() == subs@[i as int].title@);
        }
        let _name = unique_name(stem.as_str(), "", &mut taken);
        i += 1;
    }
    assert(titles.take(i as int) =~= titles);
    taken
}

/// Whether a list holds no two names that differ at most in case.
pub open spec fn all_distinct(names: Seq<Seq<char>>) -> bool {
    forall|i: int, j: int|
        0 <= i < j < names.len() ==> lower(#[trigger] names[i]) != lower(#[trigger] names[j])
}

proof fn lemma_push_distinct(names: Seq<Seq<char>>, x: Seq<char>)
    requires
        all_distinct(names),
        !is_taken(names, x),
    ensures
        all_distinct(names.push(x)),
{
    let all = names.push(x);
    assert forall|i: int, j: int| 0 <= i < j < all.len() implies lower(#[trigger] all[i]) != lower(
        #[trigger] all[j],
    ) by {
        if j == names.len() {
            assert(lower(names[i]) != lower(x));
        } else {
            assert(all[i] == names[i] && all[j] == names[j]);
        }
    }
}

/// No two podcasts share a folder, even where file names ignore case.
pub proof fn law_folders_are_distinct(titles: Seq<Seq<char>>)
    ensures
        folders(titles).len() == titles.len(),
        all_distinct(folders(titles)),
    decreases titles.len(),
{
    if titles.len() > 0 {
        law_folders_are_distinct(titles.drop_last());
        let before = folders(titles.drop_last());
        let stem = sanitized(titles.last());
        law_names_are_handed_out_once(stem, Seq::empty(), before);
        lemma_push_distinct(before, free_name(stem, Seq::empty(), before));
    }
}

/// What an episode's file is named after: the minute it was published. A feed
/// that won't say when an episode came out leaves nothing to stamp it with, and
/// a made-up time would be a claim about the episode that isn't true; its title
/// is the one true thing left to name it by.
pub open spec fn episode_stem(item: Item) -> Seq<char> {
    match item.published {
        Some(p) => p.name(),
        None => sanitized(item.title),
    }
}

/// The files episodes of one podcast go in, in order.
pub open spec fn file_names(list: Seq<Item>) -> Seq<Seq<char>>
    decreases list.len(),
{
    if list.len() == 0 {
        Seq::empty()
    } else {
        let before = file_names(list.drop_last());
        let item = list.last();
        before.push(
            free_name(episode_stem(item), chosen_extension(item.url, item.mime), before),
        )
    }
}

/// No two episodes of a podcast share a file, even where file names ignore case.
pub proof fn law_files_are_distinct(list: Seq<Item>)
    ensures
        file_names(list).len() == list.len(),
        all_distinct(file_names(list)),
    decreases list.len(),
{
    if list.len() > 0 {
        law_files_are_distinct(list.drop_last());
        let before = file_names(list.drop_last());
        let item = list.last();
        let ext = chosen_extension(item.url, item.mime);
        law_names_are_handed_out_once(episode_stem(item), ext, before);
        lemma_push_distinct(before, free_name(episode_stem(item), ext, before));
    }
}

/// Name every file before downloading anything, so concurrent tasks in one feed
/// can't race to the same path.
pub fn name_files(episodes: &Vec<Episode>) -> (r: Vec<String>)
    ensures
        texts(r@) == file_names(items(episodes@)),
{
    let ghost list = items(episodes@);
    let mut used: Vec<String> = Vec::new();
    let mut i: usize = 0;
    assert(texts(used@) =~= file_names(list.take(0)));
    while i < episodes.len()
        invariant
            i <= episodes@.len(),
            list == items(episodes@),
            texts(used@) == file_names(list.take(i as int)),
        decreases episodes@.len() - i,
    {
        let ep = &episodes[i];
        proof {
            let upto = list.take(i + 1);
            assert(upto.drop_last() =~= list.take(i as int));
            assert(upto.last() == ep@);
        }
        let ext = match &ep.mime {
            Some(m) => extension_for(ep.url.as_str(), Some(m.as_str())),
            None => extension_for(ep.url.as_str(), None),
        };
        let stem = match &ep.published {
            Some(published) => published.stamp(),
            None => sanitize(ep.title.as_str()),
        };
        let _name = unique_name(stem.as_str(), ext.as_str(), &mut used);
        i += 1;
    }
    assert(list.take(i as int) =~= list);
    used
}

/// An optional copy of a string.
pub fn copy_text(s: &Option<String>) -> (r: Option<String>)
    ensures
        optional_text(r) == optional_text(*s),
{
    match s {
        Some(t) => Some(t.clone()),
        None => None,
    }
}

/// A copy of an episode.
pub fn copy_episode(e: &Episode) -> (r: Episode)
    ensures
        r@ == e@,
{
    Episode {
        title: e.title.clone(),
        url: e.url.clone(),
        length: e.length,
        mime: copy_text(&e.mime),
        published: e.published,
        description: copy_text(&e.description),
    }
}

/// What turning to a feed says: that it is being fetched, or that it waits after
/// all because the run has been stopped.
pub fn open_feed(feed: usize, cancelled: bool) -> (r: (bool, Vec<Update>))
    ensures
        r.0 == !cancelled,
        reports(r.1@) == seq![
            Report::FeedStatus {
                feed: feed as int,
                status: if cancelled {
                    FeedState::Pending
                } else {
                    FeedState::Fetching
                },
            },
        ],
{
    let status = if cancelled {
        FeedStatus::Pending
    } else {
        FeedStatus::Fetching
    };
    let mut said: Vec<Update> = Vec::new();
    said.push(Update::FeedStatus { feed, status });
    assert(reports(said@) =~= seq![
        Report::FeedStatus {
            feed: feed as int,
            status: if cancelled {
                FeedState::Pending
            } else {
                FeedState::Fetching
            },
        },
    ]);
    (!cancelled, said)
}

/// What a feed that failed says: what went wrong, and that it is done for.
pub open spec fn feed_failure(feed: int, title: Seq<char>, why: Seq<char>) -> Seq<Report> {
    seq![
        Report::Problem(title + ": "@ + why),
        Report::FeedStatus { feed, status: FeedState::Failed(why) },
    ]
}

/// Says that a feed failed.
fn say_feed_failure(feed: usize, title: &str, why: String) -> (r: Vec<Update>)
    ensures
        reports(r@) == feed_failure(feed as int, title@, why@),
{
    let mut said: Vec<Update> = Vec::new();
    let mut m = owned(title);
    m.push_str(": ");
    m.push_str(why.as_str());
    said.push(Update::Problem(m));
    said.push(Update::FeedStatus { feed, status: FeedStatus::Failed(why) });
    assert(reports(said@) =~= feed_failure(feed as int, title@, why@));
    said
}

/// The episodes to consider: feeds are conventionally newest-first, so "latest
/// N" is simply the head.
pub open spec fn latest(list: Seq<Item>, limit: Option<usize>) -> Seq<Item> {
    match limit {
        Some(n) if n < list.len() => list.take(n as int),
        _ => list,
    }
}

/// What is said of episodes and the files they will go in.
pub open spec fn announced(list: Seq<Item>) -> Seq<Info> {
    Seq::new(
        list.len(),
        |i: int|
            Info {
                title: list[i].title,
                file_name: file_names(list)[i],
                size_hint: list[i].length,
            },
    )
}

/// What a feed that was read says.
pub open spec fn feed_listing(feed: int, title: Seq<char>, list: Seq<Item>) -> Seq<Report> {
    if list.len() == 0 {
        seq![
            Report::Log(title + ": no episodes with downloadable media"@),
            Report::FeedStatus { feed, status: FeedState::Done },
            Report::Episodes { feed, episodes: Seq::empty() },
        ]
    } else {
        seq![Report::Episodes { feed, episodes: announced(list) }]
    }
}

/// An episode and the file it goes in.
#[derive(Debug, Clone)]
pub struct Listed {
    pub episode: Episode,
    pub file_name: String,
}

/// The episodes in a list.
pub open spec fn listed_items(v: Seq<Listed>) -> Seq<Item> {
    v.map_values(|l: Listed| l.episode@)
}

/// The files in a list.
pub open spec fn listed_names(v: Seq<Listed>) -> Seq<Seq<char>> {
    v.map_values(|l: Listed| l.file_name@)
}

/// Names the files of a feed that has been parsed, and says what it lists.
pub fn list_feed(feed: usize, title: &str, parsed: Feed, limit: Option<usize>) -> (r: (
    Vec<Listed>,
    Vec<Update>,
))
    ensures
        listed_items(r.0@) == latest(items(parsed.episodes@), limit),
        listed_names(r.0@) == file_names(latest(items(parsed.episodes@), limit)),
        reports(r.1@) == feed_listing(
            feed as int,
            title@,
            latest(items(parsed.episodes@), limit),
        ),
{
    let ghost all = items(parsed.episodes@);
    let mut episodes = parsed.episodes;
    if let Some(n) = limit {
        if n < episodes.len() {
            episodes.truncate(n);
        }
    }
    let ghost list = items(episodes@);
    assert(list =~= latest(all, limit));
    let mut said: Vec<Update> = Vec::new();
    let mut listed: Vec<Listed> = Vec::new();
    if episodes.len() == 0 {
        let mut m = owned(title);
        m.push_str(": no episodes with downloadable media");
        said.push(Update::Log(m));
        said.push(Update::FeedStatus { feed, status: FeedStatus::Done });
        let none: Vec<EpisodeInfo> = Vec::new();
        assert(infos(none@) =~= Seq::<Info>::empty());
        said.push(Update::Episodes { feed, episodes: none });
        assert(reports(said@) =~= feed_listing(feed as int, title@, list));
        assert(listed_items(listed@) =~= list);
        assert(listed_names(listed@) =~= file_names(list));
        return (listed, said);
    }
    let names = name_files(&episodes);
    proof {
        law_files_are_distinct(list);
        assert(names@.len() == texts(names@).len());
    }
    let mut known: Vec<EpisodeInfo> = Vec::new();
    let mut i: usize = 0;
    while i < episodes.len()
        invariant
            i <= episodes@.len() == names@.len(),
            list == items(episodes@),
            texts(names@) == file_names(list),
            known@.len() == i,
            listed@.len() == i,
            forall|k: int|
                0 <= k < i ==> (#[trigger] listed@[k]).episode@ == list[k] && listed@[k].file_name@
                    == file_names(list)[k],
            forall|k: int| 0 <= k < i ==> (#[trigger] known@[k])@ == announced(list)[k],
        decreases episodes@.len() - i,
    {
        let ep = copy_episode(&episodes[i]);
        assert(ep@ == list[i as int]);
        assert(texts(names@)[i as int] == names@[i as int]@);
        known.push(
            EpisodeInfo {
                title: ep.title.clone(),
                file_name: names[i].clone(),
                size_hint: ep.length,
            },
        );
        listed.push(Listed { episode: ep, file_name: names[i].clone() });
        i += 1;
    }
    assert(infos(known@) =~= announced(list));
    assert(listed_items(listed@) =~= list);
    assert(listed_names(listed@) =~= file_names(list));
    said.push(Update::Episodes { feed, episodes: known });
    assert(reports(said@) =~= feed_listing(feed as int, title@, list));
    (listed, said)
}

/// What a feed that could not be fetched says. Stopping is not a failure: a feed
/// abandoned mid-fetch goes back to waiting rather than being reported as
/// broken, which is what every unread feed in the list would otherwise show the
/// moment the user pressed Stop.
pub open spec fn fetch_failure(feed: int, title: Seq<char>, why: Seq<char>, cancelled: bool) -> Seq<
    Report,
> {
    if cancelled {
        seq![Report::FeedStatus { feed, status: FeedState::Pending }]
    } else {
        feed_failure(feed, title, why)
    }
}

/// Reads what came back for a feed: the episodes it lists with their files, and
/// what to tell the window.
pub fn read_feed(
    feed: usize,
    title: &str,
    fetched: Result<String, String>,
    cancelled: bool,
    limit: Option<usize>,
) -> (r: (Vec<Listed>, Vec<Update>))
    ensures
        match fetched {
            Err(e) => r.0@.len() == 0 && reports(r.1@) == fetch_failure(
                feed as int,
                title@,
                e@,
                cancelled,
            ),
            Ok(body) => match crate::xml::xml_nodes(crate::xml::without_mark(body@)) {
                Err(why) => r.0@.len() == 0 && reports(r.1@) == feed_failure(
                    feed as int,
                    title@,
                    "feed is not valid XML: "@ + why,
                ),
                Ok(nodes) => {
                    let list = latest(crate::feed::feed_items(nodes), limit);
                    &&& listed_items(r.0@) == list
                    &&& listed_names(r.0@) == file_names(list)
                    &&& reports(r.1@) == feed_listing(feed as int, title@, list)
                },
            },
        },
{
    match fetched {
        Err(e) => if cancelled {
            let mut said: Vec<Update> = Vec::new();
            said.push(Update::FeedStatus { feed, status: FeedStatus::Pending });
            assert(reports(said@) =~= fetch_failure(feed as int, title@, e@, cancelled));
            (Vec::new(), said)
        } else {
            (Vec::new(), say_feed_failure(feed, title, e))
        },
        Ok(body) => match crate::feed::parse(body.as_str()) {
            Ok(parsed) => list_feed(feed, title, parsed, limit),
            Err(e) => {
                (Vec::new(), say_feed_failure(feed, title, e.message()))
            },
        },
    }
}

/// What the file already at an episode's path means.
#[derive(Debug, Clone, Copy, PartialEq, Eq, Structural)]
pub enum OnDisk {
    /// There is nothing to keep.
    Absent,
    /// The episode is here in full.
    Here { size: u64 },
    /// A file shorter than the feed declares: the last run was interrupted after
    /// the rename, or the publisher swapped the file for a shorter one.
    Short { size: u64 },
}

/// What a file of this size means for an episode of that declared length. Short
/// of it, rather than different from it: the tags written after a download add
/// bytes the feed's figure knows nothing about, so a complete episode on disk is
/// always the declared length or a little over.
pub open spec fn on_disk(skip_existing: bool, declared: Option<u64>, size: Option<u64>) -> OnDisk {
    match size {
        Some(n) if skip_existing => match declared {
            Some(d) => if n >= d {
                OnDisk::Here { size: n }
            } else {
                OnDisk::Short { size: n }
            },
            None => if n > 0 {
                OnDisk::Here { size: n }
            } else {
                OnDisk::Short { size: n }
            },
        },
        _ => OnDisk::Absent,
    }
}

/// Decides whether an episode is already here in full.
pub fn already_downloaded(skip_existing: bool, declared: Option<u64>, size: Option<u64>) -> (r: OnDisk)
    ensures
        r == on_disk(skip_existing, declared, size),
{
    match size {
        Some(n) => if !skip_existing {
            OnDisk::Absent
        } else {
            match declared {
                Some(d) => if n >= d {
                    OnDisk::Here { size: n }
                } else {
                    OnDisk::Short { size: n }
                },
                None => if n > 0 {
                    OnDisk::Here { size: n }
                } else {
                    OnDisk::Short { size: n }
                },
            }
        },
        None => OnDisk::Absent,
    }
}

/// An episode that is all here is never fetched again, however much its tags
/// added to it; and nothing is left alone unless leaving things alone was asked
/// for.
pub proof fn law_complete_files_are_left_alone(declared: u64, size: u64)
    requires
        size >= declared,
    ensures
        on_disk(true, Some(declared), Some(size)) is Here,
        on_disk(false, Some(declared), Some(size)) is Absent,
{
}

/// What is said of a file that is too short.
pub open spec fn short_text(file: Seq<char>, size: u64, declared: Option<u64>) -> Seq<char> {
    file + ": on-disk size "@ + bytes_text(size as int) + " is short of the feed's "@ + (
    match declared {
        Some(d) => bytes_text(d as int),
        None => Seq::empty(),
    }) + ", downloading again"@
}

/// Writes what is said of a file that is too short.
fn say_short(file: &str, size: u64, declared: Option<u64>) -> (r: String)
    ensures
        r@ == short_text(file@, size, declared),
{
    let claimed = match declared {
        Some(d) => human_bytes(d),
        None => {
            let none = String::new();
            assert(none@ =~= Seq::<char>::empty());
            none
        },
    };
    let mut m = owned(file);
    m.push_str(": on-disk size ");
    m.push_str(human_bytes(size).as_str());
    m.push_str(" is short of the feed's ");
    m.push_str(claimed.as_str());
    m.push_str(", downloading again");
    m
}

/// An episode to download: the index it was announced under, what to fetch, and
/// where it lands.
#[derive(Debug, Clone)]
pub struct Fetch {
    pub index: usize,
    pub episode: Episode,
    pub path: String,
}

/// What a [`Fetch`] says.
pub struct Wanted {
    pub index: int,
    pub item: Item,
    pub path: Seq<char>,
}

impl View for Fetch {
    type V = Wanted;

    open spec fn view(&self) -> Wanted {
        Wanted { index: self.index as int, item: self.episode@, path: self.path@ }
    }
}

/// What a list of [`Fetch`]es says.
pub open spec fn wanted(v: Seq<Fetch>) -> Seq<Wanted> {
    v.map_values(|f: Fetch| f@)
}

/// A feed that has been read, with the episodes it still owes and where each
/// one goes.
#[derive(Debug, Clone)]
pub struct FeedPlan {
    pub index: usize,
    /// Who the episodes belong to, for the tags written into each file. The
    /// title is the subscription's, not the feed's own — the same string the
    /// folder is named after.
    pub title: String,
    pub feed_url: String,
    pub episodes: Vec<Fetch>,
}

/// What a feed still owes.
pub struct Owed {
    pub index: int,
    pub title: Seq<char>,
    pub feed_url: Seq<char>,
    pub episodes: Seq<Wanted>,
}

impl View for FeedPlan {
    type V = Owed;

    open spec fn view(&self) -> Owed {
        Owed {
            index: self.index as int,
            title: self.title@,
            feed_url: self.feed_url@,
            episodes: wanted(self.episodes@),
        }
    }
}

/// What reading one feed produced: work to do, and work that turned out to be
/// already done.
#[derive(Debug, Clone)]
pub struct FeedRead {
    /// `None` when there is nothing to download from this podcast — it failed,
    /// it was abandoned, it lists no media, or every episode is already here.
    pub plan: Option<FeedPlan>,
    /// How many of its episodes were already on disk.
    pub skipped: usize,
}

/// What reading one feed came to.
pub struct Outcome {
    pub plan: Option<Owed>,
    pub skipped: int,
}

impl View for FeedRead {
    type V = Outcome;

    open spec fn view(&self) -> Outcome {
        Outcome {
            plan: match self.plan {
                Some(p) => Some(p@),
                None => None,
            },
            skipped: self.skipped as int,
        }
    }
}

/// What reading the feeds came to.
pub open spec fn outcomes(v: Seq<FeedRead>) -> Seq<Outcome> {
    v.map_values(|r: FeedRead| r@)
}

impl FeedRead {
    /// A feed that nothing came of.
    pub fn nothing() -> (r: Self)
        ensures
            r@ == (Outcome { plan: None, skipped: 0 }),
    {
        FeedRead { plan: None, skipped: 0 }
    }
}

/// Episodes settled so far: those to fetch, how many are here already, and what
/// was said.
pub struct Settling {
    pub fetch: Seq<Wanted>,
    pub skipped: int,
    pub said: Seq<Report>,
}

/// The size at a place in a list of sizes.
pub open spec fn size_at(sizes: Seq<Option<u64>>, i: int) -> Option<u64> {
    if 0 <= i < sizes.len() {
        sizes[i]
    } else {
        None
    }
}

/// The first `n` episodes of a feed settled against what is on disk.
pub open spec fn settling(
    feed: int,
    dir: Seq<char>,
    list: Seq<Item>,
    names: Seq<Seq<char>>,
    sizes: Seq<Option<u64>>,
    skip_existing: bool,
    n: int,
) -> Settling
    decreases n,
{
    if n <= 0 {
        Settling { fetch: Seq::empty(), skipped: 0, said: Seq::empty() }
    } else {
        let before = settling(feed, dir, list, names, sizes, skip_existing, n - 1);
        let i = n - 1;
        let want = Wanted { index: i, item: list[i], path: joined_path(dir, names[i]) };
        match on_disk(skip_existing, list[i].length, size_at(sizes, i)) {
            OnDisk::Here { size } => Settling {
                fetch: before.fetch,
                skipped: before.skipped + 1,
                said: before.said + seq![
                    Report::Progress { feed, episode: i, done: size, total: Some(size) },
                    Report::EpisodeStatus { feed, episode: i, status: EpisodeState::Skipped },
                ],
            },
            OnDisk::Short { size } => Settling {
                fetch: before.fetch.push(want),
                skipped: before.skipped,
                said: before.said.push(
                    Report::Log(short_text(names[i], size, list[i].length)),
                ),
            },
            OnDisk::Absent => Settling {
                fetch: before.fetch.push(want),
                skipped: before.skipped,
                said: before.said,
            },
        }
    }
}

/// Settle the episodes already on disk rather than when their turn to download
/// would have come. They are not part of the job, so the estimate the user is
/// about to be shown must not include them — and there is no sense in making
/// them wait behind a question about work that isn't there.
///
/// `dir` is the podcast's folder, and `sizes` says what is at each episode's
/// path in it, in order.
pub fn settle_feed(
    feed: usize,
    sub: &Subscription,
    dir: &str,
    listed: &Vec<Listed>,
    sizes: &Vec<Option<u64>>,
    skip_existing: bool,
) -> (r: (FeedRead, Vec<Update>))
    ensures
        ({
            let s = settling(
                feed as int,
                dir@,
                listed_items(listed@),
                listed_names(listed@),
                sizes@,
                skip_existing,
                listed@.len() as int,
            );
            &&& (r.0)@ == (Outcome {
                plan: if s.fetch.len() == 0 {
                    None
                } else {
                    Some(
                        Owed {
                            index: feed as int,
                            title: sub.title@,
                            feed_url: sub.url@,
                            episodes: s.fetch,
                        },
                    )
                },
                skipped: s.skipped,
            })
            &&& reports(r.1@) == (if s.fetch.len() == 0 {
                s.said.push(Report::FeedStatus { feed: feed as int, status: FeedState::Done })
            } else {
                s.said
            })
        }),
{
    let ghost list = listed_items(listed@);
    let ghost names = listed_names(listed@);
    let mut fetch: Vec<Fetch> = Vec::new();
    let mut skipped: usize = 0;
    let mut said: Vec<Update> = Vec::new();
    let mut i: usize = 0;
    assert(wanted(fetch@) =~= Seq::<Wanted>::empty());
    assert(reports(said@) =~= Seq::<Report>::empty());
    while i < listed.len()
        invariant
            i <= listed@.len(),
            list == listed_items(listed@),
            names == listed_names(listed@),
            skipped <= i,
            ({
                let s = settling(
                    feed as int,
                    dir@,
                    list,
                    names,
                    sizes@,
                    skip_existing,
                    i as int,
                );
                wanted(fetch@) == s.fetch && skipped == s.skipped && reports(said@) == s.said
            }),
        decreases listed@.len() - i,
    {
        let ep = &listed[i].episode;
        let name = listed[i].file_name.as_str();
        assert(list[i as int] == ep@);
        assert(names[i as int] == name@);
        let size = if i < sizes.len() {
            sizes[i]
        } else {
            None
        };
        let ghost before_fetch = fetch@;
        let ghost before_said = said@;
        match already_downloaded(skip_existing, ep.length, size) {
            OnDisk::Here { size } => {
                skipped = skipped + 1;
                said.push(
                    Update::Progress { feed, episode: i, done: size, total: Some(size) },
                );
                said.push(
                    Update::EpisodeStatus { feed, episode: i, status: EpisodeStatus::Skipped },
                );
                assert(reports(said@) =~= reports(before_said) + seq![
                    Report::Progress {
                        feed: feed as int,
                        episode: i as int,
                        done: size,
                        total: Some(size),
                    },
                    Report::EpisodeStatus {
                        feed: feed as int,
                        episode: i as int,
                        status: EpisodeState::Skipped,
                    },
                ]);
            },
            OnDisk::Short { size } => {
                let text = say_short(name, size, ep.length);
                let ghost words = text@;
                said.push(Update::Log(text));
                assert(reports(said@) =~= reports(before_said).push(Report::Log(words)));
                let one = Fetch {
                    index: i,
                    episode: copy_episode(ep),
                    path: join_path(dir, name),
                };
                let ghost seen = one@;
                fetch.push(one);
                assert(wanted(fetch@) =~= wanted(before_fetch).push(seen));
            },
            OnDisk::Absent => {
                let one = Fetch {
                    index: i,
                    episode: copy_episode(ep),
                    path: join_path(dir, name),
                };
                let ghost seen = one@;
                fetch.push(one);
                assert(wanted(fetch@) =~= wanted(before_fetch).push(seen));
            },
        }
        i += 1;
    }
    assert(wanted(fetch@).len() == fetch@.len());
    if fetch.len() == 0 {
        let ghost before_said = said@;
        said.push(Update::FeedStatus { feed, status: FeedStatus::Done });
        assert(reports(said@) =~= reports(before_said).push(
            Report::FeedStatus { feed: feed as int, status: FeedState::Done },
        ));
        return (FeedRead { plan: None, skipped }, said);
    }
    let plan = FeedPlan {
        index: feed,
        title: sub.title.clone(),
        feed_url: sub.url.clone(),
        episodes: fetch,
    };
    (FeedRead { plan: Some(plan), skipped }, said)
}

/// Every episode a feed lists is either already here or still to fetch: none is
/// counted twice and none is forgotten.
pub proof fn law_every_episode_is_accounted_for(
    feed: int,
    dir: Seq<char>,
    list: Seq<Item>,
    names: Seq<Seq<char>>,
    sizes: Seq<Option<u64>>,
    skip_existing: bool,
    n: int,
)
    requires
        0 <= n,
    ensures
        ({
            let s = settling(feed, dir, list, names, sizes, skip_existing, n);
            s.fetch.len() + s.skipped == n && s.skipped >= 0
        }),
    decreases n,
{
    if n > 0 {
        law_every_episode_is_accounted_for(feed, dir, list, names, sizes, skip_existing, n - 1);
    }
}

// ---- The job --------------------------------------------------------------

/// A sum that stops at the most a type holds.
pub open spec fn topped(n: int, top: int) -> int {
    if n > top {
        top
    } else {
        n
    }
}

/// What some episodes come to.
pub struct Sum {
    pub episodes: int,
    pub bytes: int,
    pub unsized_episodes: int,
    pub skipped: int,
}

/// What the first `n` episodes of a list come to.
pub open spec fn episodes_sum(list: Seq<Wanted>, n: int) -> Sum
    decreases n,
{
    if n <= 0 {
        Sum { episodes: 0, bytes: 0, unsized_episodes: 0, skipped: 0 }
    } else {
        let before = episodes_sum(list, n - 1);
        match list[n - 1].item.length {
            Some(length) => Sum {
                episodes: before.episodes + 1,
                bytes: before.bytes + length,
                unsized_episodes: before.unsized_episodes,
                skipped: 0,
            },
            None => Sum {
                episodes: before.episodes + 1,
                bytes: before.bytes,
                unsized_episodes: before.unsized_episodes + 1,
                skipped: 0,
            },
        }
    }
}

/// The episodes a feed still owes.
pub open spec fn owed_episodes(read: Outcome) -> Seq<Wanted> {
    match read.plan {
        Some(p) => p.episodes,
        None => Seq::empty(),
    }
}

/// What the first `n` feeds come to.
pub open spec fn feeds_sum(reads: Seq<Outcome>, n: int) -> Sum
    decreases n,
{
    if n <= 0 {
        Sum { episodes: 0, bytes: 0, unsized_episodes: 0, skipped: 0 }
    } else {
        let before = feeds_sum(reads, n - 1);
        let list = owed_episodes(reads[n - 1]);
        let one = episodes_sum(list, list.len() as int);
        Sum {
            episodes: before.episodes + one.episodes,
            bytes: before.bytes + one.bytes,
            unsized_episodes: before.unsized_episodes + one.unsized_episodes,
            skipped: before.skipped + reads[n - 1].skipped,
        }
    }
}

proof fn lemma_episodes_sum(list: Seq<Wanted>, n: int)
    ensures
        episodes_sum(list, n).bytes >= 0,
        episodes_sum(list, n).unsized_episodes >= 0,
        episodes_sum(list, n).episodes >= episodes_sum(list, n).unsized_episodes,
        n >= 0 ==> episodes_sum(list, n).episodes == n,
    decreases n,
{
    if n > 0 {
        lemma_episodes_sum(list, n - 1);
    }
}

proof fn lemma_feeds_sum(reads: Seq<Outcome>, n: int)
    requires
        n <= reads.len(),
        forall|i: int| 0 <= i < reads.len() ==> (#[trigger] reads[i]).skipped >= 0,
    ensures
        feeds_sum(reads, n).bytes >= 0,
        feeds_sum(reads, n).unsized_episodes >= 0,
        feeds_sum(reads, n).episodes >= feeds_sum(reads, n).unsized_episodes,
        feeds_sum(reads, n).skipped >= 0,
    decreases n,
{
    if n > 0 {
        lemma_feeds_sum(reads, n - 1);
        let list = owed_episodes(reads[n - 1]);
        lemma_episodes_sum(list, list.len() as int);
    }
}

/// The description of a job. Figures too large for their types stop at the most
/// those hold.
pub open spec fn planned(sum: Sum, rate: Option<Rate>) -> Plan {
    Plan {
        episodes: topped(sum.episodes, usize::MAX as int) as usize,
        bytes: topped(sum.bytes, u64::MAX as int) as u64,
        unsized_episodes: topped(sum.unsized_episodes, usize::MAX as int) as usize,
        skipped: topped(sum.skipped, usize::MAX as int) as usize,
        probed_rate: rate,
    }
}

/// Two sums together.
spec fn both_sums(a: Sum, b: Sum) -> Sum {
    Sum {
        episodes: a.episodes + b.episodes,
        bytes: a.bytes + b.bytes,
        unsized_episodes: a.unsized_episodes + b.unsized_episodes,
        skipped: a.skipped + b.skipped,
    }
}

/// What one feed comes to.
spec fn feed_sum(read: Outcome) -> Sum {
    let list = owed_episodes(read);
    Sum { skipped: read.skipped, ..episodes_sum(list, list.len() as int) }
}

/// A job comes to the same whatever order the feeds were read in, and they are
/// read in whatever order they answer.
pub proof fn law_the_order_of_feeds_does_not_matter(
    a: Seq<Outcome>,
    b: Seq<Outcome>,
    rate: Option<Rate>,
)
    requires
        a.to_multiset() == b.to_multiset(),
    ensures
        feeds_sum(a, a.len() as int) == feeds_sum(b, b.len() as int),
        planned(feeds_sum(a, a.len() as int), rate) == planned(
            feeds_sum(b, b.len() as int),
            rate,
        ),
    decreases a.len(),
{
    a.to_multiset_ensures();
    b.to_multiset_ensures();
    if a.len() > 0 {
        let n = a.len() - 1;
        let last = a[n];
        assert(a.to_multiset().count(last) > 0);
        assert(b.to_multiset().count(last) > 0);
        assert(b.contains(last));
        let k = choose|k: int| 0 <= k < b.len() && b[k] == last;
        vstd::seq_lib::to_multiset_remove(a, n);
        vstd::seq_lib::to_multiset_remove(b, k);
        law_the_order_of_feeds_does_not_matter(a.remove(n), b.remove(k), rate);
        lemma_feeds_sum_without(a, n, a.len() as int);
        lemma_feeds_sum_without(b, k, b.len() as int);
    }
}

/// What a job comes to, before its speed is known.
pub open spec fn job_of(reads: Seq<Outcome>) -> Plan {
    planned(feeds_sum(reads, reads.len() as int), None)
}

/// A feed that owes these episodes, and had nothing of its own on disk already.
pub open spec fn owing(feed: Owed, episodes: Seq<Wanted>) -> Outcome {
    Outcome { plan: Some(Owed { episodes, ..feed }), skipped: 0 }
}

/// Whether a job is two others together, each of its figures stopping at the most
/// its type holds.
pub open spec fn adds_up(whole: Plan, a: Plan, b: Plan) -> bool {
    &&& whole.episodes == topped(a.episodes + b.episodes, usize::MAX as int)
    &&& whole.bytes == topped(a.bytes + b.bytes, u64::MAX as int)
    &&& whole.unsized_episodes == topped(
        a.unsized_episodes + b.unsized_episodes,
        usize::MAX as int,
    )
    &&& whole.skipped == topped(a.skipped + b.skipped, usize::MAX as int)
}

/// A job adds up over the feeds: those of two lists together come to what each
/// list comes to.
pub proof fn law_jobs_add_up_over_feeds(a: Seq<Outcome>, b: Seq<Outcome>)
    requires
        forall|i: int| 0 <= i < a.len() ==> (#[trigger] a[i]).skipped >= 0,
        forall|i: int| 0 <= i < b.len() ==> (#[trigger] b[i]).skipped >= 0,
    ensures
        adds_up(job_of(a + b), job_of(a), job_of(b)),
{
    lemma_feeds_sum(a, a.len() as int);
    lemma_feeds_sum(b, b.len() as int);
    lemma_feeds_sum_joined(a, b, b.len() as int);
}

/// A job adds up over the episodes of a feed: split what it owes in two, and the
/// whole comes to the one part and the other.
pub proof fn law_jobs_add_up_over_episodes(feed: Owed, a: Seq<Wanted>, b: Seq<Wanted>)
    ensures
        adds_up(job_of(seq![owing(feed, a + b)]), job_of(seq![owing(feed, a)]), job_of(
            seq![owing(feed, b)],
        )),
{
    lemma_one_feed(feed, a + b);
    lemma_one_feed(feed, a);
    lemma_one_feed(feed, b);
    lemma_episodes_sum(a, a.len() as int);
    lemma_episodes_sum(b, b.len() as int);
    lemma_episodes_sum_joined(a, b, b.len() as int);
}

/// One episode is a job of one, as large as it is declared to be; with no size
/// declared it is one of the unsized, and adds no bytes. What is on disk already
/// is counted apart.
pub proof fn law_one_episode_is_its_size(feed: Owed, w: Wanted, skipped: usize)
    ensures
        job_of(seq![owing(feed, seq![w])]) == (Plan {
            episodes: 1,
            bytes: match w.item.length {
                Some(length) => length,
                None => 0,
            },
            unsized_episodes: if w.item.length is None {
                1
            } else {
                0
            },
            skipped: 0,
            probed_rate: None,
        }),
        job_of(seq![Outcome { plan: None, skipped: skipped as int }]) == (Plan {
            episodes: 0,
            bytes: 0,
            unsized_episodes: 0,
            skipped,
            probed_rate: None,
        }),
{
    lemma_one_feed(feed, seq![w]);
    reveal_with_fuel(episodes_sum, 2);
    let none = seq![Outcome { plan: None, skipped: skipped as int }];
    reveal_with_fuel(feeds_sum, 2);
    assert(feeds_sum(none, 1).skipped == skipped);
}

proof fn lemma_one_feed(feed: Owed, episodes: Seq<Wanted>)
    ensures
        feeds_sum(seq![owing(feed, episodes)], 1) == episodes_sum(episodes, episodes.len() as int),
{
    reveal_with_fuel(feeds_sum, 2);
    lemma_episodes_skip_nothing(episodes, episodes.len() as int);
}

proof fn lemma_episodes_skip_nothing(list: Seq<Wanted>, n: int)
    ensures
        episodes_sum(list, n).skipped == 0,
{
}

proof fn lemma_episodes_sum_joined(a: Seq<Wanted>, b: Seq<Wanted>, n: int)
    requires
        0 <= n <= b.len(),
    ensures
        episodes_sum(a + b, a.len() + n) == both_sums(
            episodes_sum(a, a.len() as int),
            episodes_sum(b, n),
        ),
    decreases n,
{
    if n > 0 {
        lemma_episodes_sum_joined(a, b, n - 1);
        assert((a + b)[a.len() + n - 1] == b[n - 1]);
    } else {
        lemma_episodes_sum_prefix(a, a + b, a.len() as int);
    }
}

proof fn lemma_episodes_sum_prefix(a: Seq<Wanted>, b: Seq<Wanted>, n: int)
    requires
        n <= a.len(),
        n <= b.len(),
        forall|i: int| 0 <= i < n ==> #[trigger] a[i] == b[i],
    ensures
        episodes_sum(a, n) == episodes_sum(b, n),
    decreases n,
{
    if n > 0 {
        lemma_episodes_sum_prefix(a, b, n - 1);
        assert(a[n - 1] == b[n - 1]);
    }
}

proof fn lemma_feeds_sum_joined(a: Seq<Outcome>, b: Seq<Outcome>, n: int)
    requires
        0 <= n <= b.len(),
    ensures
        feeds_sum(a + b, a.len() + n) == both_sums(feeds_sum(a, a.len() as int), feeds_sum(b, n)),
    decreases n,
{
    if n > 0 {
        lemma_feeds_sum_joined(a, b, n - 1);
        assert((a + b)[a.len() + n - 1] == b[n - 1]);
    } else {
        lemma_feeds_sum_prefix(a, a + b, a.len() as int);
    }
}

/// A feed can be taken out of the sum wherever it stands.
proof fn lemma_feeds_sum_without(reads: Seq<Outcome>, k: int, n: int)
    requires
        0 <= k < n <= reads.len(),
    ensures
        feeds_sum(reads, n) == both_sums(feeds_sum(reads.remove(k), n - 1), feed_sum(reads[k])),
    decreases n,
{
    if k < n - 1 {
        lemma_feeds_sum_without(reads, k, n - 1);
        assert(reads.remove(k)[n - 2] == reads[n - 1]);
    } else {
        lemma_feeds_sum_prefix(reads, reads.remove(k), k);
    }
}

proof fn lemma_feeds_sum_prefix(a: Seq<Outcome>, b: Seq<Outcome>, n: int)
    requires
        n <= a.len(),
        n <= b.len(),
        forall|i: int| 0 <= i < n ==> #[trigger] a[i] == b[i],
    ensures
        feeds_sum(a, n) == feeds_sum(b, n),
    decreases n,
{
    if n > 0 {
        lemma_feeds_sum_prefix(a, b, n - 1);
        assert(a[n - 1] == b[n - 1]);
    }
}

/// Add up what the feeds came back with, into the description of the job that
/// the confirmation box is built from.
pub fn summarise(reads: &Vec<FeedRead>) -> (r: Plan)
    ensures
        r == planned(feeds_sum(outcomes(reads@), reads@.len() as int), None),
{
    let ghost all = outcomes(reads@);
    let mut plan = Plan::default();
    let mut i: usize = 0;
    while i < reads.len()
        invariant
            i <= reads@.len(),
            all == outcomes(reads@),
            plan == planned(feeds_sum(all, i as int), None),
        decreases reads@.len() - i,
    {
        let read = &reads[i];
        proof {
            assert(all[i as int] == read@);
            assert forall|k: int| 0 <= k < all.len() implies (#[trigger] all[k]).skipped >= 0 by {
                assert(all[k] == reads@[k]@);
            }
            lemma_feeds_sum(all, i as int);
        }
        let ghost base = feeds_sum(all, i as int);
        plan.skipped = plan.skipped.saturating_add(read.skipped);
        let ghost mut sum = Sum { episodes: 0, bytes: 0, unsized_episodes: 0, skipped: 0 };
        if let Some(owed) = &read.plan {
            let ghost list = wanted(owed.episodes@);
            let mut j: usize = 0;
            while j < owed.episodes.len()
                invariant
                    j <= owed.episodes@.len(),
                    list == wanted(owed.episodes@),
                    base.episodes >= 0,
                    base.bytes >= 0,
                    base.unsized_episodes >= 0,
                    base.skipped >= 0,
                    sum == episodes_sum(list, j as int),
                    sum.episodes >= 0 && sum.bytes >= 0 && sum.unsized_episodes >= 0,
                    plan == planned(
                        Sum {
                            episodes: base.episodes + sum.episodes,
                            bytes: base.bytes + sum.bytes,
                            unsized_episodes: base.unsized_episodes + sum.unsized_episodes,
                            skipped: base.skipped + read.skipped,
                        },
                        None,
                    ),
                decreases owed.episodes@.len() - j,
            {
                assert(list[j as int] == owed.episodes@[j as int]@);
                plan.episodes = plan.episodes.saturating_add(1);
                match owed.episodes[j].episode.length {
                    Some(length) => {
                        plan.bytes = plan.bytes.saturating_add(length);
                    },
                    None => {
                        plan.unsized_episodes = plan.unsized_episodes.saturating_add(1);
                    },
                }
                proof {
                    sum = episodes_sum(list, j + 1);
                }
                j += 1;
            }
            assert(owed_episodes(all[i as int]) == list);
        }
        i += 1;
    }
    plan
}

/// Where an episode is written while it is still arriving: the file it will
/// become, with `.part` on the end.
pub open spec fn partial(path: Seq<char>) -> Seq<char> {
    path + ".part"@
}

/// Where an episode is written while it is still arriving.
///
/// `episode.mp3` becomes `episode.mp3.part` rather than `episode.part`, so two
/// episodes whose names differ only by extension can be in flight at once and
/// so its own extension survives for anything reading the leftovers.
pub fn part_path(path: &str) -> (r: String)
    ensures
        r@ == partial(path@),
{
    let mut s = owned(path);
    s.push_str(".part");
    s
}

/// No two files share the place they are written to on the way, and none is
/// written in place.
pub proof fn law_partial_files_are_apart(a: Seq<char>, b: Seq<char>)
    ensures
        partial(a) != a,
        partial(a) == partial(b) ==> a == b,
{
    reveal_strlit(".part");
    assert(partial(a).len() == a.len() + 5);
    if partial(a) == partial(b) {
        assert(a =~= partial(a).take(a.len() as int));
        assert(b =~= partial(b).take(b.len() as int));
    }
}

/// Every partial file of a list of episodes.
pub open spec fn partials(list: Seq<Wanted>) -> Seq<Seq<char>> {
    list.map_values(|w: Wanted| partial(w.path))
}

/// Every partial file the first `n` feeds could leave behind.
pub open spec fn leftover_paths(reads: Seq<Outcome>, n: int) -> Seq<Seq<char>>
    decreases n,
{
    if n <= 0 {
        Seq::empty()
    } else {
        leftover_paths(reads, n - 1) + partials(owed_episodes(reads[n - 1]))
    }
}

/// A sweep never touches an episode that has landed: whatever it deletes is a
/// fragment, and no episode's file is named like one.
pub proof fn law_the_sweep_spares_episodes(
    reads: Seq<Outcome>,
    n: int,
    k: int,
    dir: Seq<char>,
    list: Seq<Item>,
    i: int,
)
    requires
        0 <= n <= reads.len(),
        0 <= k < leftover_paths(reads, n).len(),
        0 <= i < list.len(),
    ensures
        leftover_paths(reads, n)[k] != joined_path(dir, file_names(list)[i]),
{
    lemma_leftovers_are_partials(reads, n, k);
    lemma_files_end_in_media(list, i);
    let name = file_names(list)[i];
    let path = joined_path(dir, name);
    assert(path.last() == name.last());
}

proof fn lemma_leftovers_are_partials(reads: Seq<Outcome>, n: int, k: int)
    requires
        0 <= n <= reads.len(),
        0 <= k < leftover_paths(reads, n).len(),
    ensures
        leftover_paths(reads, n)[k].len() > 0,
        leftover_paths(reads, n)[k].last() == 't',
    decreases n,
{
    if n > 0 {
        let before = leftover_paths(reads, n - 1);
        let list = owed_episodes(reads[n - 1]);
        if k < before.len() {
            lemma_leftovers_are_partials(reads, n - 1, k);
            assert(leftover_paths(reads, n)[k] == before[k]);
        } else {
            reveal_strlit(".part");
            assert(leftover_paths(reads, n)[k] == partials(list)[k - before.len()]);
            assert(partials(list)[k - before.len()] == partial(list[k - before.len()].path));
        }
    }
}

proof fn lemma_files_end_in_media(list: Seq<Item>, i: int)
    requires
        0 <= i < list.len(),
    ensures
        file_names(list).len() == list.len(),
        file_names(list)[i].len() > 0,
        file_names(list)[i].last() != 't',
    decreases list.len(),
{
    law_files_are_distinct(list);
    law_files_are_distinct(list.drop_last());
    if i < list.len() - 1 {
        lemma_files_end_in_media(list.drop_last(), i);
        assert(file_names(list)[i] == file_names(list.drop_last())[i]);
    } else {
        let ext = chosen_extension(list[i].url, list[i].mime);
        crate::util::law_extensions_are_media(list[i].url, list[i].mime);
        lemma_media_endings(ext);
        assert(file_names(list)[i].last() == ext.last());
    }
}

proof fn lemma_media_endings(ext: Seq<char>)
    requires
        crate::util::media_extension(ext),
    ensures
        ext.len() > 0,
        ext.last() != 't',
{
    reveal_strlit("mp3");
    reveal_strlit("m4a");
    reveal_strlit("m4b");
    reveal_strlit("aac");
    reveal_strlit("ogg");
    reveal_strlit("oga");
    reveal_strlit("opus");
    reveal_strlit("wav");
    reveal_strlit("flac");
    reveal_strlit("aif");
    reveal_strlit("aiff");
    reveal_strlit("wma");
    reveal_strlit("caf");
    reveal_strlit("mp4");
    reveal_strlit("m4v");
    reveal_strlit("mov");
    reveal_strlit("webm");
    reveal_strlit("mkv");
    reveal_strlit("avi");
}

/// Every file the second pass could leave half-written. A run that is stopped
/// part way through has to know what to sweep up afterwards; anything already on
/// disk under one of these names is a fragment of the same episode from an
/// earlier interrupted run, and goes the same way.
pub fn leftovers(reads: &Vec<FeedRead>) -> (r: Vec<String>)
    ensures
        texts(r@) == leftover_paths(outcomes(reads@), reads@.len() as int),
{
    let ghost all = outcomes(reads@);
    let mut r: Vec<String> = Vec::new();
    let mut i: usize = 0;
    assert(texts(r@) =~= leftover_paths(all, 0));
    while i < reads.len()
        invariant
            i <= reads@.len(),
            all == outcomes(reads@),
            texts(r@) == leftover_paths(all, i as int),
        decreases reads@.len() - i,
    {
        let ghost before = texts(r@);
        assert(all[i as int] == reads@[i as int]@);
        if let Some(owed) = &reads[i].plan {
            let ghost list = partials(wanted(owed.episodes@));
            let mut j: usize = 0;
            while j < owed.episodes.len()
                invariant
                    j <= owed.episodes@.len(),
                    list == partials(wanted(owed.episodes@)),
                    texts(r@) == before + list.take(j as int),
                decreases owed.episodes@.len() - j,
            {
                let ghost was = texts(r@);
                let ghost old_r = r@;
                let path = part_path(owed.episodes[j].path.as_str());
                assert(path@ == list[j as int]) by {
                    assert(wanted(owed.episodes@)[j as int] == owed.episodes@[j as int]@);
                }
                let ghost text = path@;
                r.push(path);
                assert(texts(r@) =~= was.push(text));
                assert(list.take(j + 1) =~= list.take(j as int).push(list[j as int]));
                assert(texts(r@) =~= before + list.take(j + 1));
                j += 1;
            }
            assert(list.take(j as int) =~= list);
        } else {
            assert(partials(owed_episodes(all[i as int])) =~= Seq::<Seq<char>>::empty());
            assert(before + Seq::<Seq<char>>::empty() =~= before);
        }
        i += 1;
    }
    r
}

/// The first episode still owed by the feeds from `i` on.
pub open spec fn first_owed(reads: Seq<Outcome>, i: int) -> Option<Item>
    decreases reads.len() - i,
{
    if i >= reads.len() {
        None
    } else if owed_episodes(reads[i]).len() > 0 {
        Some(owed_episodes(reads[i])[0].item)
    } else {
        first_owed(reads, i + 1)
    }
}

/// The episode to time a slice of. Only worth asking the line how fast it is
/// when there is something to fetch — and only then is anyone going to be shown
/// the answer.
pub fn probe_target(reads: &Vec<FeedRead>) -> (r: Option<Episode>)
    ensures
        match r {
            Some(e) => first_owed(outcomes(reads@), 0) == Some(e@),
            None => first_owed(outcomes(reads@), 0) is None,
        },
{
    let ghost all = outcomes(reads@);
    let mut i: usize = 0;
    while i < reads.len()
        invariant
            i <= reads@.len(),
            all == outcomes(reads@),
            first_owed(all, 0) == first_owed(all, i as int),
        decreases reads@.len() - i,
    {
        assert(all[i as int] == reads@[i as int]@);
        if let Some(owed) = &reads[i].plan {
            if owed.episodes.len() > 0 {
                assert(wanted(owed.episodes@)[0] == owed.episodes@[0]@);
                return Some(copy_episode(&owed.episodes[0].episode));
            }
        }
        i += 1;
    }
    None
}

/// The messages that put the first `n` feeds back to waiting, those that were
/// still owed episodes.
pub open spec fn put_back(reads: Seq<Outcome>, n: int) -> Seq<Report>
    decreases n,
{
    if n <= 0 {
        Seq::empty()
    } else {
        match reads[n - 1].plan {
            Some(p) => put_back(reads, n - 1).push(
                Report::FeedStatus { feed: p.index, status: FeedState::Pending },
            ),
            None => put_back(reads, n - 1),
        }
    }
}

/// Put the podcasts that were still owed episodes back to waiting.
///
/// A run given up between the two passes — stopped, or turned down at the
/// confirmation — leaves those feeds read but undownloaded. Without this they
/// keep the status they were last given and sit there saying "reading…" for as
/// long as the window is open, which is a lie about a run that has ended.
pub fn abandon(reads: &Vec<FeedRead>) -> (r: Vec<Update>)
    ensures
        reports(r@) == put_back(outcomes(reads@), reads@.len() as int),
{
    let ghost all = outcomes(reads@);
    let mut said: Vec<Update> = Vec::new();
    let mut i: usize = 0;
    assert(reports(said@) =~= put_back(all, 0));
    while i < reads.len()
        invariant
            i <= reads@.len(),
            all == outcomes(reads@),
            reports(said@) == put_back(all, i as int),
        decreases reads@.len() - i,
    {
        let ghost before = said@;
        assert(all[i as int] == reads@[i as int]@);
        if let Some(owed) = &reads[i].plan {
            said.push(Update::FeedStatus { feed: owed.index, status: FeedStatus::Pending });
            assert(reports(said@) =~= reports(before).push(
                Report::FeedStatus { feed: owed.index as int, status: FeedState::Pending },
            ));
        }
        i += 1;
    }
    said
}

/// The episodes of a list that were not un-ticked.
pub open spec fn still_ticked(feed: int, list: Seq<Wanted>, skips: Set<(usize, usize)>) -> Seq<
    Wanted,
>
    decreases list.len(),
{
    if list.len() == 0 {
        Seq::empty()
    } else {
        let before = still_ticked(feed, list.drop_last(), skips);
        if skips.contains((feed as usize, list.last().index as usize)) {
            before
        } else {
            before.push(list.last())
        }
    }
}

/// What is said of the episodes of a list that were un-ticked.
pub open spec fn said_unticked(feed: int, list: Seq<Wanted>, skips: Set<(usize, usize)>) -> Seq<
    Report,
>
    decreases list.len(),
{
    if list.len() == 0 {
        Seq::empty()
    } else {
        let before = said_unticked(feed, list.drop_last(), skips);
        if skips.contains((feed as usize, list.last().index as usize)) {
            before.push(
                Report::EpisodeStatus {
                    feed,
                    episode: list.last().index,
                    status: EpisodeState::Unticked,
                },
            )
        } else {
            before
        }
    }
}

/// What is left of a feed once the un-ticked episodes are out of it: nothing to
/// fetch is nothing left.
pub open spec fn ticked_read(read: Outcome, skips: Set<(usize, usize)>) -> Outcome {
    match read.plan {
        None => read,
        Some(p) => {
            let left = still_ticked(p.index, p.episodes, skips);
            Outcome {
                plan: if left.len() == 0 {
                    None
                } else {
                    Some(
                        Owed {
                            index: p.index,
                            title: p.title,
                            feed_url: p.feed_url,
                            episodes: left,
                        },
                    )
                },
                skipped: read.skipped,
            }
        },
    }
}

/// What taking the un-ticked episodes out of a feed says. A podcast left with
/// nothing to fetch is finished rather than downloading.
pub open spec fn said_of_read(read: Outcome, skips: Set<(usize, usize)>) -> Seq<Report> {
    match read.plan {
        None => Seq::empty(),
        Some(p) => {
            let said = said_unticked(p.index, p.episodes, skips);
            if still_ticked(p.index, p.episodes, skips).len() == 0 {
                said.push(Report::FeedStatus { feed: p.index, status: FeedState::Done })
            } else {
                said
            }
        },
    }
}

/// What taking the un-ticked episodes out of the first `n` feeds says.
pub open spec fn said_of_reads(reads: Seq<Outcome>, skips: Set<(usize, usize)>, n: int) -> Seq<
    Report,
>
    decreases n,
{
    if n <= 0 {
        Seq::empty()
    } else {
        said_of_reads(reads, skips, n - 1) + said_of_read(reads[n - 1], skips)
    }
}

/// A copy of an episode to fetch.
fn copy_fetch(f: &Fetch) -> (r: Fetch)
    ensures
        r@ == f@,
{
    Fetch { index: f.index, episode: copy_episode(&f.episode), path: f.path.clone() }
}

/// Takes the un-ticked episodes out of one feed.
fn drop_from(read: &FeedRead, skips: &Skips) -> (r: (FeedRead, Vec<Update>))
    ensures
        (r.0)@ == ticked_read(read@, skips@),
        reports(r.1@) == said_of_read(read@, skips@),
{
    let mut said: Vec<Update> = Vec::new();
    assert(reports(said@) =~= Seq::<Report>::empty());
    let owed = match &read.plan {
        Some(p) => p,
        None => return (FeedRead { plan: None, skipped: read.skipped }, said),
    };
    let feed = owed.index;
    let ghost list = wanted(owed.episodes@);
    let mut left: Vec<Fetch> = Vec::new();
    let mut i: usize = 0;
    assert(wanted(left@) =~= still_ticked(feed as int, list.take(0), skips@));
    assert(reports(said@) =~= said_unticked(feed as int, list.take(0), skips@));
    while i < owed.episodes.len()
        invariant
            i <= owed.episodes@.len(),
            feed == owed.index,
            list == wanted(owed.episodes@),
            wanted(left@) == still_ticked(feed as int, list.take(i as int), skips@),
            reports(said@) == said_unticked(feed as int, list.take(i as int), skips@),
        decreases owed.episodes@.len() - i,
    {
        let episode = owed.episodes[i].index;
        proof {
            let upto = list.take(i + 1);
            assert(upto.drop_last() =~= list.take(i as int));
            assert(upto.last() == owed.episodes@[i as int]@);
        }
        let ghost before_left = left@;
        let ghost before_said = said@;
        if skips.holds(feed, episode) {
            said.push(
                Update::EpisodeStatus { feed, episode, status: EpisodeStatus::Unticked },
            );
            assert(reports(said@) =~= reports(before_said).push(
                Report::EpisodeStatus {
                    feed: feed as int,
                    episode: episode as int,
                    status: EpisodeState::Unticked,
                },
            ));
        } else {
            let one = copy_fetch(&owed.episodes[i]);
            let ghost seen = one@;
            left.push(one);
            assert(wanted(left@) =~= wanted(before_left).push(seen));
        }
        i += 1;
    }
    assert(list.take(i as int) =~= list);
    assert(wanted(left@).len() == left@.len());
    if left.len() == 0 {
        let ghost before_said = said@;
        said.push(Update::FeedStatus { feed, status: FeedStatus::Done });
        assert(reports(said@) =~= reports(before_said).push(
            Report::FeedStatus { feed: feed as int, status: FeedState::Done },
        ));
        return (FeedRead { plan: None, skipped: read.skipped }, said);
    }
    let plan = FeedPlan {
        index: feed,
        title: owed.title.clone(),
        feed_url: owed.feed_url.clone(),
        episodes: left,
    };
    (FeedRead { plan: Some(plan), skipped: read.skipped }, said)
}

/// Take the episodes the user un-ticked out of the job, and say so for each one.
///
/// Each is announced as [`EpisodeStatus::Unticked`] rather than quietly dropped:
/// its row is already on screen from the reading pass, and a row left saying
/// "waiting" for something that will never be fetched is the sort of thing
/// people sit and watch.
pub fn drop_unticked(reads: &Vec<FeedRead>, skips: &Skips) -> (r: (Vec<FeedRead>, Vec<Update>))
    ensures
        outcomes(r.0@) == outcomes(reads@).map_values(|o: Outcome| ticked_read(o, skips@)),
        reports(r.1@) == said_of_reads(outcomes(reads@), skips@, reads@.len() as int),
{
    let ghost all = outcomes(reads@);
    let mut out: Vec<FeedRead> = Vec::new();
    let mut said: Vec<Update> = Vec::new();
    let mut i: usize = 0;
    assert(reports(said@) =~= said_of_reads(all, skips@, 0));
    while i < reads.len()
        invariant
            i <= reads@.len(),
            all == outcomes(reads@),
            out@.len() == i,
            forall|k: int| 0 <= k < i ==> (#[trigger] out@[k])@ == ticked_read(all[k], skips@),
            reports(said@) == said_of_reads(all, skips@, i as int),
        decreases reads@.len() - i,
    {
        assert(all[i as int] == reads@[i as int]@);
        let (left, mut more) = drop_from(&reads[i], skips);
        let ghost before = said@;
        let ghost added = more@;
        said.append(&mut more);
        assert(reports(said@) =~= reports(before) + reports(added));
        out.push(left);
        i += 1;
    }
    assert(outcomes(out@) =~= all.map_values(|o: Outcome| ticked_read(o, skips@)));
    (out, said)
}

/// An episode stays in the job exactly when it was not un-ticked.
pub proof fn law_only_the_unticked_leave(
    feed: int,
    list: Seq<Wanted>,
    skips: Set<(usize, usize)>,
    w: Wanted,
)
    ensures
        still_ticked(feed, list, skips).contains(w) <==> list.contains(w) && !skips.contains(
            (feed as usize, w.index as usize),
        ),
    decreases list.len(),
{
    if list.len() > 0 {
        let front = list.drop_last();
        law_only_the_unticked_leave(feed, front, skips, w);
        let before = still_ticked(feed, front, skips);
        let after = still_ticked(feed, list, skips);
        assert(list =~= front.push(list.last()));
        assert(list.contains(w) <==> front.contains(w) || list.last() == w) by {
            if list.contains(w) {
                let k = choose|k: int| 0 <= k < list.len() && list[k] == w;
                if k < front.len() {
                    assert(front[k] == w);
                }
            }
            if front.contains(w) {
                let k = choose|k: int| 0 <= k < front.len() && front[k] == w;
                assert(list[k] == w);
            }
            if list.last() == w {
                assert(list[list.len() - 1] == w);
            }
        }
        if !skips.contains((feed as usize, list.last().index as usize)) {
            assert(after =~= before.push(list.last()));
            assert(after.contains(w) <==> before.contains(w) || list.last() == w) by {
                if after.contains(w) {
                    let k = choose|k: int| 0 <= k < after.len() && after[k] == w;
                    if k < before.len() {
                        assert(before[k] == w);
                    }
                }
                if before.contains(w) {
                    let k = choose|k: int| 0 <= k < before.len() && before[k] == w;
                    assert(after[k] == w);
                }
                if list.last() == w {
                    assert(after[after.len() - 1] == w);
                }
            }
        }
    }
}

// ---- Moving the bytes -----------------------------------------------------

/// How many transfers run at once.
pub open spec fn at_once(asked: int) -> int {
    if asked < 1 {
        1
    } else if asked > 16 {
        16
    } else {
        asked
    }
}

/// How many transfers run at once: what was asked for, within reason.
pub fn transfers_at_once(asked: usize) -> (r: usize)
    ensures
        1 <= r <= 16,
        1 <= asked <= 16 ==> r == asked,
        asked < 1 ==> r == 1,
        asked > 16 ==> r == 16,
        r == at_once(asked as int),
{
    if asked < 1 {
        1
    } else if asked > 16 {
        16
    } else {
        asked
    }
}

/// What a failed request is said to have failed on. The full description
/// includes the URL, which makes for very wide rows.
pub open spec fn short_error(
    timeout: bool,
    connect: bool,
    status: Option<Seq<char>>,
    decode: bool,
) -> Seq<char> {
    if timeout {
        "timed out"@
    } else if connect {
        "could not connect"@
    } else if status is Some {
        "server said "@ + status->0
    } else if decode {
        "malformed response"@
    } else {
        "network error"@
    }
}

/// Says what a failed request failed on.
pub fn short_err(timeout: bool, connect: bool, status: Option<&str>, decode: bool) -> (r: String)
    ensures
        r@ == short_error(timeout, connect, crate::util::text_of(status), decode),
{
    if timeout {
        return owned("timed out");
    }
    if connect {
        return owned("could not connect");
    }
    match status {
        Some(s) => {
            let mut m = owned("server said ");
            m.push_str(s);
            m
        },
        None => if decode {
            owned("malformed response")
        } else {
            owned("network error")
        },
    }
}

/// Whether a probe has read enough of an episode.
pub open spec fn enough(bytes: int, elapsed_ms: int) -> bool {
    bytes >= PROBE_BYTES || elapsed_ms >= PROBE_TIME_MS
}

/// Whether a probe has read enough of an episode.
pub fn probed_enough(bytes: u64, elapsed_ms: u64) -> (r: bool)
    ensures
        r == (bytes >= PROBE_BYTES || elapsed_ms >= PROBE_TIME_MS),
        r == enough(bytes as int, elapsed_ms as int),
{
    bytes >= PROBE_BYTES || elapsed_ms >= PROBE_TIME_MS
}

/// What a sample says about the line.
pub open spec fn sampled(bytes: u64, micros: u64) -> Option<Rate> {
    if bytes >= 4096 && micros >= 5000 {
        Some(Rate { bytes, micros })
    } else {
        None
    }
}

/// What a sample says about the line, when it is big enough and long enough to
/// mean anything. A handful of bytes in a fraction of a millisecond measures the
/// clock rather than the connection.
pub fn sample_rate(bytes: u64, micros: u64) -> (r: Option<Rate>)
    ensures
        r == (if bytes >= 4096 && micros >= 5000 {
            Some(Rate { bytes, micros })
        } else {
            None
        }),
        r == sampled(bytes, micros),
{
    if bytes >= 4096 && micros >= 5000 {
        Some(Rate { bytes, micros })
    } else {
        None
    }
}

/// How long to wait after an attempt that failed, or nothing when it was the
/// last. Attempts are counted from 1, and each wait is a step longer.
pub open spec fn pause_after(attempt: u32, step_ms: u64) -> Option<u64> {
    if attempt < ATTEMPTS {
        Some((step_ms * attempt) as u64)
    } else {
        None
    }
}

/// The attempt that is on after an event: a wait leads to the next, and nothing
/// else does.
pub open spec fn attempt_after(attempt: u32, slept: bool) -> u32 {
    if slept && attempt < ATTEMPTS {
        (attempt + 1) as u32
    } else {
        attempt
    }
}

/// How long to wait after an attempt that failed.
fn pause(attempt: u32, step_ms: u64) -> (r: Option<u64>)
    requires
        step_ms <= 1000,
    ensures
        r == pause_after(attempt, step_ms),
{
    if attempt < ATTEMPTS {
        assert(step_ms * attempt <= 3000) by (nonlinear_arith)
            requires
                step_ms <= 1000,
                attempt < 3,
        ;
        Some(step_ms * attempt as u64)
    } else {
        None
    }
}

/// Fetching one feed, which is tried a few times.
pub struct FeedFetch {
    pub attempt: u32,
}

/// What to do next about a feed.
#[derive(Debug)]
pub enum FetchAction {
    Ask,
    Sleep { ms: u64 },
    Settle(Result<String, String>),
}

/// What came of the last thing done about a feed.
#[derive(Debug)]
pub enum FetchEvent {
    Begin,
    Answered(Result<String, String>),
    Slept,
}

impl FeedFetch {
    /// A fetch that has not been tried yet.
    pub fn new() -> (r: Self)
        ensures
            r.attempt == 1,
    {
        FeedFetch { attempt: 1 }
    }

    /// Takes what came of the last thing done and says what to do next. The
    /// error of the last attempt is the one that is reported.
    pub fn step(&mut self, event: FetchEvent, cancelled: bool) -> (r: FetchAction)
        requires
            1 <= old(self).attempt <= ATTEMPTS,
        ensures
            1 <= final(self).attempt <= ATTEMPTS,
            final(self).attempt == attempt_after(old(self).attempt, event is Slept),
            match event {
                FetchEvent::Begin => final(self).attempt == old(self).attempt && (if cancelled {
                    r matches FetchAction::Settle(Err(e)) && e@ == "cancelled"@
                } else {
                    r is Ask
                }),
                FetchEvent::Slept => final(self).attempt == (if old(self).attempt < ATTEMPTS {
                    (old(self).attempt + 1) as u32
                } else {
                    old(self).attempt
                }) && (if cancelled {
                    r matches FetchAction::Settle(Err(e)) && e@ == "cancelled"@
                } else {
                    r is Ask
                }),
                FetchEvent::Answered(Ok(body)) => final(self).attempt == old(self).attempt && (
                r matches FetchAction::Settle(Ok(b)) && b@ == body@),
                FetchEvent::Answered(Err(why)) => final(self).attempt == old(self).attempt && (
                match pause_after(old(self).attempt, 400) {
                    Some(wait) => r matches FetchAction::Sleep { ms } && ms == wait,
                    None => r matches FetchAction::Settle(Err(e)) && e@ == why@,
                }),
            },
    {
        match event {
            FetchEvent::Begin => if cancelled {
                FetchAction::Settle(Err(owned("cancelled")))
            } else {
                FetchAction::Ask
            },
            FetchEvent::Slept => {
                if self.attempt < ATTEMPTS {
                    self.attempt = self.attempt + 1;
                }
                if cancelled {
                    FetchAction::Settle(Err(owned("cancelled")))
                } else {
                    FetchAction::Ask
                }
            },
            FetchEvent::Answered(answer) => match answer {
                Ok(body) => FetchAction::Settle(Ok(body)),
                Err(why) => match pause(self.attempt, 400) {
                    Some(ms) => FetchAction::Sleep { ms },
                    None => FetchAction::Settle(Err(why)),
                },
            },
        }
    }
}

/// Downloading one episode, which is tried a few times.
pub struct EpisodeFetch {
    pub feed: usize,
    pub episode: usize,
    /// The file's name, for what is said of it.
    pub file: String,
    pub attempt: u32,
}

/// What to do next about an episode.
#[derive(Debug)]
pub enum EpisodeAction {
    Transfer,
    Sleep { ms: u64 },
    Settle(EpisodeStatus),
}

/// What came of the last thing done about an episode.
#[derive(Debug)]
pub enum EpisodeEvent {
    Begin,
    Moved(Result<EpisodeStatus, String>),
    Slept,
}

impl EpisodeFetch {
    /// An episode that has not been tried yet.
    pub fn new(feed: usize, episode: usize, file: String) -> (r: Self)
        ensures
            r.feed == feed,
            r.episode == episode,
            r.file == file,
            r.attempt == 1,
    {
        EpisodeFetch { feed, episode, file, attempt: 1 }
    }

    /// Takes what came of the last thing done, and says what to do next and what
    /// to tell the window.
    ///
    /// The last failure is a note rather than a problem: the status it settles on
    /// is what the window turns into the episode's own failure line, so calling
    /// this one a failure too would put the same lost episode in the log twice.
    pub fn step(&mut self, event: EpisodeEvent, cancelled: bool) -> (r: (
        EpisodeAction,
        Vec<Update>,
    ))
        requires
            1 <= old(self).attempt <= ATTEMPTS,
        ensures
            1 <= final(self).attempt <= ATTEMPTS,
            final(self).attempt == attempt_after(old(self).attempt, event is Slept),
            final(self).feed == old(self).feed,
            final(self).episode == old(self).episode,
            final(self).file == old(self).file,
            match event {
                EpisodeEvent::Begin => final(self).attempt == old(self).attempt && (if cancelled {
                    r.0 matches EpisodeAction::Settle(s) && s@ is Cancelled && r.1@.len() == 0
                } else {
                    r.0 is Transfer && reports(r.1@) == seq![
                        Report::EpisodeStatus {
                            feed: old(self).feed as int,
                            episode: old(self).episode as int,
                            status: EpisodeState::Downloading,
                        },
                    ]
                }),
                EpisodeEvent::Slept => r.1@.len() == 0 && final(self).attempt == (if old(
                    self,
                ).attempt < ATTEMPTS {
                    (old(self).attempt + 1) as u32
                } else {
                    old(self).attempt
                }) && (if cancelled {
                    r.0 matches EpisodeAction::Settle(s) && s@ is Cancelled
                } else {
                    r.0 is Transfer
                }),
                EpisodeEvent::Moved(Ok(status)) => final(self).attempt == old(self).attempt
                    && r.1@.len() == 0 && (r.0 matches EpisodeAction::Settle(s) && s == status),
                EpisodeEvent::Moved(Err(why)) => final(self).attempt == old(self).attempt && (
                match pause_after(old(self).attempt, 600) {
                    Some(wait) => r.1@.len() == 0 && (r.0 matches EpisodeAction::Sleep { ms } && ms
                        == wait),
                    None => (r.0 matches EpisodeAction::Settle(s) && s@ == EpisodeState::Failed(
                        why@,
                    )) && reports(r.1@) == seq![Report::Log(old(self).file@ + ": "@ + why@)],
                }),
            },
    {
        let mut said: Vec<Update> = Vec::new();
        match event {
            EpisodeEvent::Begin => if cancelled {
                (EpisodeAction::Settle(EpisodeStatus::Cancelled), said)
            } else {
                said.push(
                    Update::EpisodeStatus {
                        feed: self.feed,
                        episode: self.episode,
                        status: EpisodeStatus::Downloading,
                    },
                );
                assert(reports(said@) =~= seq![
                    Report::EpisodeStatus {
                        feed: self.feed as int,
                        episode: self.episode as int,
                        status: EpisodeState::Downloading,
                    },
                ]);
                (EpisodeAction::Transfer, said)
            },
            EpisodeEvent::Slept => {
                if self.attempt < ATTEMPTS {
                    self.attempt = self.attempt + 1;
                }
                if cancelled {
                    (EpisodeAction::Settle(EpisodeStatus::Cancelled), said)
                } else {
                    (EpisodeAction::Transfer, said)
                }
            },
            EpisodeEvent::Moved(outcome) => match outcome {
                Ok(status) => (EpisodeAction::Settle(status), said),
                Err(why) => match pause(self.attempt, 600) {
                    Some(ms) => (EpisodeAction::Sleep { ms }, said),
                    None => {
                        let mut m = self.file.clone();
                        m.push_str(": ");
                        m.push_str(why.as_str());
                        let ghost text = m@;
                        said.push(Update::Log(m));
                        assert(reports(said@) =~= seq![Report::Log(text)]);
                        (EpisodeAction::Settle(EpisodeStatus::Failed(why)), said)
                    },
                },
            },
        }
    }
}

/// Failing never goes on for ever: a failed attempt is either the last of the
/// few there are, or is followed by one with a higher number.
pub proof fn law_retries_end(attempt: u32, step_ms: u64)
    requires
        1 <= attempt <= ATTEMPTS,
    ensures
        pause_after(attempt, step_ms) is None <==> attempt == ATTEMPTS,
{
}

/// What a request asks for: everything from the byte that is not here yet.
pub open spec fn range_text(existing: int) -> Seq<char> {
    "bytes="@ + decimal(existing) + "-"@
}

/// What a request asks for, given how much of the episode an earlier attempt
/// left behind: the rest of it, or all of it.
pub fn range_header(existing: u64) -> (r: Option<String>)
    ensures
        r matches Some(h) ==> h@ == range_text(existing as int),
        match r {
            Some(h) => existing > 0 && h@ == "bytes="@ + decimal(existing as int) + "-"@,
            None => existing == 0,
        },
{
    if existing == 0 {
        return None;
    }
    let mut h = owned("bytes=");
    push_decimal(&mut h, existing);
    h.push_str("-");
    Some(h)
}

/// What the probe asks for: the front of an episode.
pub fn probe_header() -> (r: String)
    ensures
        r@ == "bytes=0-"@ + decimal(PROBE_BYTES - 1),
{
    let mut h = owned("bytes=0-");
    push_decimal(&mut h, PROBE_BYTES - 1);
    h
}

/// One attempt at moving the bytes of an episode. It goes into a `.part` file
/// that is renamed into place only once the transfer completes, so an
/// interrupted run never leaves a truncated episode that looks finished.
#[derive(Debug, Clone, Copy)]
pub struct Transfer {
    /// Whether what an earlier attempt left behind is being added to. Otherwise
    /// the file starts over.
    pub resuming: bool,
    pub done: u64,
    pub total: Option<u64>,
}

/// What to do with a piece of an episode.
#[derive(Debug, Clone, Copy, PartialEq, Eq, Structural)]
pub enum Piece {
    /// The run was stopped: the piece is not wanted any more.
    Discard,
    /// Write it, and say how far along that is if it is time to.
    Write { report: bool },
}

impl Transfer {
    /// How big the finished file will be, as far as anyone says: what the server
    /// sends on top of what is here, or else what the feed declares.
    pub open spec fn expected(
        sent: Option<u64>,
        already: u64,
        declared: Option<u64>,
    ) -> Option<u64> {
        match sent {
            Some(n) => Some(topped(n + already, u64::MAX as int) as u64),
            None => declared,
        }
    }

    /// A transfer whose answer has come.
    pub open spec fn begun(
        existing: u64,
        partial_content: bool,
        sent: Option<u64>,
        declared: Option<u64>,
    ) -> Transfer {
        let resuming = existing > 0 && partial_content;
        let done: u64 = if resuming {
            existing
        } else {
            0
        };
        Transfer { resuming, done, total: Transfer::expected(sent, done, declared) }
    }

    /// The transfer once a piece has been written.
    pub open spec fn and_piece(self, length: u64) -> Transfer {
        Transfer { done: topped(self.done + length, u64::MAX as int) as u64, ..self }
    }

    /// A transfer whose answer has come: `existing` bytes were here before, and
    /// the server either sends the rest (`partial_content`) or ignored the
    /// request for it, in which case it starts over.
    pub fn begin(
        existing: u64,
        partial_content: bool,
        sent: Option<u64>,
        declared: Option<u64>,
    ) -> (r: Self)
        ensures
            r.resuming == (existing > 0 && partial_content),
            r.done == (if r.resuming {
                existing
            } else {
                0
            }),
            r.total == Transfer::expected(sent, r.done, declared),
            r == Transfer::begun(existing, partial_content, sent, declared),
    {
        let resuming = existing > 0 && partial_content;
        let already: u64 = if resuming {
            existing
        } else {
            0
        };
        let total = match sent {
            Some(n) => Some(n.saturating_add(already)),
            None => declared,
        };
        Transfer { resuming, done: already, total }
    }

    /// Takes a piece that arrived.
    pub fn piece(&mut self, length: u64, since_report_ms: u64, cancelled: bool) -> (r: Piece)
        ensures
            final(self).resuming == old(self).resuming,
            final(self).total == old(self).total,
            r == (if cancelled {
                Piece::Discard
            } else {
                Piece::Write { report: since_report_ms >= PROGRESS_INTERVAL_MS }
            }),
            final(self).done == (if cancelled {
                old(self).done as int
            } else {
                topped(old(self).done + length, u64::MAX as int)
            }),
            *final(self) == (if cancelled {
                *old(self)
            } else {
                old(self).and_piece(length)
            }),
    {
        if cancelled {
            return Piece::Discard;
        }
        self.done = self.done.saturating_add(length);
        Piece::Write { report: since_report_ms >= PROGRESS_INTERVAL_MS }
    }

    /// How far along the transfer is.
    pub fn progress(&self, feed: usize, episode: usize) -> (r: Update)
        ensures
            r@ == (Report::Progress {
                feed: feed as int,
                episode: episode as int,
                done: self.done,
                total: self.total,
            }),
    {
        Update::Progress { feed, episode, done: self.done, total: self.total }
    }

    /// What is said once the file is in place: what arrived is all of it.
    pub fn arrived(&self, feed: usize, episode: usize) -> (r: Update)
        ensures
            r@ == (Report::Progress {
                feed: feed as int,
                episode: episode as int,
                done: self.done,
                total: Some(self.done),
            }),
    {
        Update::Progress { feed, episode, done: self.done, total: Some(self.done) }
    }

    /// What the debug log says of an answer to a request.
    pub fn note(&self, file: &str, url: &str, status: &str, existing: u64) -> (r: String)
        ensures
            r@ == file@ + ": "@ + url@ + " said "@ + status@ + (if existing == 0 {
                Seq::empty()
            } else if self.resuming {
                ", resuming from "@ + bytes_text(existing as int)
            } else {
                ", starting over — the "@ + bytes_text(existing as int)
                    + " already here was not resumable"@
            }),
    {
        let mut tail = String::new();
        if existing == 0 {
            assert(tail@ =~= Seq::<char>::empty());
        } else if self.resuming {
            tail = owned(", resuming from ");
            tail.push_str(human_bytes(existing).as_str());
        } else {
            tail = owned(", starting over — the ");
            tail.push_str(human_bytes(existing).as_str());
            tail.push_str(" already here was not resumable");
        }
        let mut m = owned(file);
        m.push_str(": ");
        m.push_str(url);
        m.push_str(" said ");
        m.push_str(status);
        m.push_str(tail.as_str());
        m
    }
}

/// How many bytes some pieces come to.
pub open spec fn pieces_sum(lengths: Seq<u64>) -> int
    decreases lengths.len(),
{
    if lengths.len() == 0 {
        0
    } else {
        pieces_sum(lengths.drop_last()) + lengths.last()
    }
}

/// How far along a transfer is once some pieces have been written.
pub open spec fn done_after(start: int, lengths: Seq<u64>) -> int
    decreases lengths.len(),
{
    if lengths.len() == 0 {
        start
    } else {
        topped(done_after(start, lengths.drop_last()) + lengths.last(), u64::MAX as int)
    }
}

/// A transfer that gets all the server said it would send ends exactly where it
/// expected to, whether it picked up from what was here or started over: what
/// was kept and what came are the whole file.
pub proof fn law_a_transfer_adds_up(kept: u64, sent: u64, lengths: Seq<u64>)
    requires
        pieces_sum(lengths) == sent,
        kept + sent <= u64::MAX,
    ensures
        Transfer::expected(Some(sent), kept, None) == Some(
            done_after(kept as int, lengths) as u64,
        ),
        done_after(kept as int, lengths) == kept + sent,
{
    lemma_done_after(kept as int, lengths);
}

proof fn lemma_done_after(start: int, lengths: Seq<u64>)
    requires
        0 <= start,
        start + pieces_sum(lengths) <= u64::MAX,
    ensures
        done_after(start, lengths) == start + pieces_sum(lengths),
        pieces_sum(lengths) >= 0,
    decreases lengths.len(),
{
    if lengths.len() > 0 {
        lemma_pieces_sum(lengths.drop_last());
        lemma_done_after(start, lengths.drop_last());
    }
}

proof fn lemma_pieces_sum(lengths: Seq<u64>)
    ensures
        pieces_sum(lengths) >= 0,
    decreases lengths.len(),
{
    if lengths.len() > 0 {
        lemma_pieces_sum(lengths.drop_last());
    }
}

/// How a podcast stands once its episodes have had their turn.
pub fn closing_status(feed: usize, cancelled: bool) -> (r: Update)
    ensures
        r@ == (Report::FeedStatus {
            feed: feed as int,
            status: if cancelled {
                FeedState::Pending
            } else {
                FeedState::Done
            },
        }),
{
    Update::FeedStatus {
        feed,
        status: if cancelled {
            FeedStatus::Pending
        } else {
            FeedStatus::Done
        },
    }
}

/// What is said as a podcast's downloads start, given what came of making its
/// folder — the one the reading pass worked out but deliberately did not create.
pub fn opening_updates(feed: usize, dir: &str, made: Result<(), String>) -> (r: Vec<Update>)
    ensures
        reports(r@) == match made {
            Ok(_) => seq![
                Report::FeedStatus { feed: feed as int, status: FeedState::Downloading },
            ],
            Err(e) => feed_failure(feed as int, dir@, "cannot create folder: "@ + e@),
        },
{
    match made {
        Ok(_) => {
            let mut said: Vec<Update> = Vec::new();
            said.push(Update::FeedStatus { feed, status: FeedStatus::Downloading });
            assert(reports(said@) =~= seq![
                Report::FeedStatus { feed: feed as int, status: FeedState::Downloading },
            ]);
            said
        },
        Err(e) => {
            let mut why = owned("cannot create folder: ");
            why.push_str(e.as_str());
            say_feed_failure(feed, dir, why)
        },
    }
}

/// What became of an episode's tags.
#[derive(Debug)]
pub enum Tagging {
    Written,
    Unsupported,
    Failed(String),
    /// The work itself fell over.
    Crashed(String),
}

/// What is said of an episode's tags. A podcast whose files can't be tagged is
/// mentioned once, not once per episode: its file names are all there is, and a
/// folder of bare timestamps would otherwise look like the run had lost
/// something. A tag that could not be written is a failure, and running again
/// will not put it right — the file is complete, so the next run skips it.
pub open spec fn said_of_tags(
    file: Seq<char>,
    show: Seq<char>,
    tagging: Tagging,
    mentioned: bool,
) -> Seq<Report> {
    match tagging {
        Tagging::Written => Seq::empty(),
        Tagging::Unsupported => if mentioned {
            Seq::empty()
        } else {
            seq![
                Report::Log(
                    show
                        + ": these episodes aren't in a format that takes ID3 tags, so they are named by publication time and nothing else"@,
                ),
            ]
        },
        Tagging::Failed(e) => seq![
            Report::Problem(
                file + ": downloaded, but could not write its tags: "@ + e@
                    + ". Delete it and run again to try once more."@,
            ),
        ],
        Tagging::Crashed(e) => seq![Report::Problem(file + ": could not write its tags: "@ + e@)],
    }
}

/// Says what became of an episode's tags. `mentioned` remembers that its podcast
/// has been mentioned as one whose files can't be tagged.
pub fn tag_updates(file: &str, show: &str, tagging: Tagging, mentioned: &mut bool) -> (r: Vec<
    Update,
>)
    ensures
        reports(r@) == said_of_tags(file@, show@, tagging, *old(mentioned)),
        *final(mentioned) == (*old(mentioned) || tagging is Unsupported),
{
    let mut said: Vec<Update> = Vec::new();
    let ghost before = *mentioned;
    let ghost asked = tagging;
    match tagging {
        Tagging::Written => {},
        Tagging::Unsupported => {
            if !*mentioned {
                *mentioned = true;
                let mut m = owned(show);
                m.push_str(
                    ": these episodes aren't in a format that takes ID3 tags, so they are named by publication time and nothing else",
                );
                said.push(Update::Log(m));
            }
        },
        Tagging::Failed(e) => {
            let mut m = owned(file);
            m.push_str(": downloaded, but could not write its tags: ");
            m.push_str(e.as_str());
            m.push_str(". Delete it and run again to try once more.");
            said.push(Update::Problem(m));
        },
        Tagging::Crashed(e) => {
            let mut m = owned(file);
            m.push_str(": could not write its tags: ");
            m.push_str(e.as_str());
            said.push(Update::Problem(m));
        },
    }
    assert(reports(said@) =~= said_of_tags(file@, show@, asked, before));
    said
}

/// What a sweep has deleted so far.
#[derive(Debug, Clone, Copy)]
pub struct Sweep {
    pub files: usize,
    pub bytes: u64,
}

impl Sweep {
    /// Nothing yet.
    pub fn new() -> (r: Self)
        ensures
            r.files == 0,
            r.bytes == 0,
    {
        Sweep { files: 0, bytes: 0 }
    }

    /// With one more file gone.
    pub open spec fn and_file(self, size: u64) -> Sweep {
        Sweep {
            files: topped(self.files + 1, usize::MAX as int) as usize,
            bytes: topped(self.bytes + size, u64::MAX as int) as u64,
        }
    }

    /// One more file is gone.
    pub fn swept(&mut self, size: u64)
        ensures
            final(self).files == topped(old(self).files + 1, usize::MAX as int),
            final(self).bytes == topped(old(self).bytes + size, u64::MAX as int),
            *final(self) == old(self).and_file(size),
    {
        self.files = self.files.saturating_add(1);
        self.bytes = self.bytes.saturating_add(size);
    }

    /// What is said of the sweep, when it found anything.
    pub open spec fn summary(self) -> Seq<Report> {
        if self.files == 0 {
            Seq::empty()
        } else {
            seq![
                Report::Log(
                    "Cleared away "@ + counted_text(self.files as int, "unfinished file"@) + " ("@
                        + bytes_text(self.bytes as int) + ")"@,
                ),
            ]
        }
    }

    /// Says what the sweep found, when it found anything.
    pub fn updates(&self) -> (r: Vec<Update>)
        ensures
            reports(r@) == self.summary(),
    {
        let mut said: Vec<Update> = Vec::new();
        if self.files > 0 {
            let mut found = String::new();
            push_counted(&mut found, self.files as u64, "unfinished file");
            assert(found@ =~= counted_text(self.files as int, "unfinished file"@));
            let mut m = owned("Cleared away ");
            m.push_str(found.as_str());
            m.push_str(" (");
            m.push_str(human_bytes(self.bytes).as_str());
            m.push_str(")");
            said.push(Update::Log(m));
        }
        assert(reports(said@) =~= self.summary());
        said
    }
}

// ---- The run --------------------------------------------------------------

/// What a run has to do next.
#[derive(Debug, Clone, Copy, PartialEq, Eq, Structural)]
pub enum RunStep {
    /// Read every feed.
    ReadFeeds,
    /// Time a slice of the first episode to fetch.
    Probe,
    /// Hold until the window has an answer.
    Hold,
    /// Make the folder everything goes into.
    MakeFolder,
    /// Fetch what is left of the job.
    Download,
    /// Delete what a stopped run left behind.
    Sweep,
    /// The run is over.
    Over,
}

/// Where reading the feeds leads: to the sweep when the run has been stopped, to
/// the question when there is anything to fetch, and otherwise on.
pub open spec fn step_after_reading(episodes: usize, cancelled: bool) -> RunStep {
    if cancelled {
        RunStep::Sweep
    } else if episodes > 0 {
        RunStep::Probe
    } else {
        RunStep::MakeFolder
    }
}

/// Where the answer to the question leads.
pub open spec fn step_after_answer(go: bool) -> RunStep {
    if go {
        RunStep::MakeFolder
    } else {
        RunStep::Sweep
    }
}

/// Where the last transfer leads: only a run that was stopped is swept up after.
pub open spec fn step_after_transfers(cancelled: bool) -> RunStep {
    if cancelled {
        RunStep::Sweep
    } else {
        RunStep::Over
    }
}

/// The steps that put anything on the disk.
pub open spec fn writes(step: RunStep) -> bool {
    step == RunStep::MakeFolder || step == RunStep::Download
}

/// A run with anything to fetch writes nothing before it is agreed to, not so
/// much as a folder, and one that is turned down writes nothing at all.
pub proof fn law_nothing_is_written_unasked(episodes: usize, cancelled: bool)
    requires
        episodes > 0 || cancelled,
    ensures
        !writes(RunStep::ReadFeeds),
        !writes(step_after_reading(episodes, cancelled)),
        !writes(RunStep::Probe),
        !writes(RunStep::Hold),
        !writes(step_after_answer(false)),
        !writes(RunStep::Sweep),
{
}

/// A run: what the feeds came to, what that makes the job, and what has to be
/// swept up should it be stopped.
pub struct Run {
    pub reads: Vec<FeedRead>,
    pub plan: Plan,
    pub leftovers: Vec<String>,
}

/// What the folders of a run are called, said one by one.
pub open spec fn said_folders(names: Seq<Seq<char>>) -> Seq<Report> {
    Seq::new(names.len(), |i: int| Report::FeedFolder { feed: i, name: names[i] })
}

/// What is said at the end of a run that was stopped.
pub open spec fn stopped_reports() -> Seq<Report> {
    seq![Report::Log("Stopped."@), Report::Finished { cancelled: true }]
}

/// What is said as a run starts.
pub open spec fn starting_reports(
    subscriptions: Seq<Subscription>,
    out_dir: Seq<char>,
    names: Seq<Seq<char>>,
) -> Seq<Report> {
    seq![
        Report::Log(
            "Downloading "@ + counted_text(subscriptions.len() as int, "podcast"@) + " into "@
                + out_dir,
        ),
    ] + said_folders(names)
}

/// Says what starting a run means, and hands out the podcasts' folders. They are
/// named and nothing more: reading the feeds happens entirely in memory, so a
/// run turned down at the question leaves nothing behind.
pub fn begin_run(settings: &Settings) -> (r: (RunStep, Vec<String>, Vec<Update>))
    ensures
        settings.subscriptions@.len() == 0 ==> r.0 == RunStep::Over && r.1@.len() == 0 && reports(
            r.2@,
        ) == seq![Report::Log("Nothing selected."@), Report::Finished { cancelled: false }],
        settings.subscriptions@.len() > 0 ==> r.0 == RunStep::ReadFeeds && texts(r.1@) == folders(
            sub_titles(settings.subscriptions@),
        ) && reports(r.2@) == starting_reports(
            settings.subscriptions@,
            settings.out_dir@,
            texts(r.1@),
        ),
{
    let mut said: Vec<Update> = Vec::new();
    if settings.subscriptions.len() == 0 {
        said.push(Update::Log(owned("Nothing selected.")));
        said.push(Update::Finished { cancelled: false });
        assert(reports(said@) =~= seq![
            Report::Log("Nothing selected."@),
            Report::Finished { cancelled: false },
        ]);
        return (RunStep::Over, Vec::new(), said);
    }
    let mut many = String::new();
    push_counted(&mut many, settings.subscriptions.len() as u64, "podcast");
    assert(many@ =~= counted_text(settings.subscriptions@.len() as int, "podcast"@));
    let mut m = owned("Downloading ");
    m.push_str(many.as_str());
    m.push_str(" into ");
    m.push_str(settings.out_dir.as_str());
    let ghost text = m@;
    said.push(Update::Log(m));
    assert(reports(said@) =~= seq![Report::Log(text)]);
    let names = folder_names(&settings.subscriptions);
    let ghost all = seq![Report::Log(text)] + said_folders(texts(names@));
    let mut i: usize = 0;
    assert(all.take(1) =~= seq![Report::Log(text)]);
    while i < names.len()
        invariant
            i <= names@.len(),
            all == seq![Report::Log(text)] + said_folders(texts(names@)),
            reports(said@) == all.take(i + 1),
        decreases names@.len() - i,
    {
        let ghost before = said@;
        said.push(Update::FeedFolder { feed: i, name: names[i].clone() });
        assert(reports(said@) =~= reports(before).push(all[i + 1]));
        assert(all.take(i + 2) =~= all.take(i + 1).push(all[i + 1]));
        i += 1;
    }
    assert(all.take(i + 1) =~= all);
    (RunStep::ReadFeeds, names, said)
}

/// What is said when the folder everything goes into cannot be made: the
/// podcasts still owed episodes go back to waiting, and the run is over.
pub open spec fn no_folder_reports(reads: Seq<Outcome>, out_dir: Seq<char>, why: Seq<char>) -> Seq<
    Report,
> {
    put_back(reads, reads.len() as int) + seq![
        Report::Problem("Cannot create "@ + out_dir + ": "@ + why),
        Report::Finished { cancelled: false },
    ]
}

impl Run {
    /// What has to be swept up is every partial file the feeds could leave.
    pub open spec fn wf(self) -> bool {
        texts(self.leftovers@) == leftover_paths(outcomes(self.reads@), self.reads@.len() as int)
    }

    /// The job that the feeds come to, once they have been read. A run stopped
    /// by then gives up: the feeds go back to waiting and what is left behind is
    /// swept up. Nothing to fetch is nothing to agree to, so a run that has
    /// already got everything goes on rather than stopping to ask about no work.
    pub fn feeds_read(reads: Vec<FeedRead>, cancelled: bool) -> (r: (Run, RunStep, Vec<Update>))
        ensures
            r.0.wf(),
            r.0.reads == reads,
            r.0.plan == planned(feeds_sum(outcomes(reads@), reads@.len() as int), None),
            r.1 == step_after_reading(r.0.plan.episodes, cancelled),
            reports(r.2@) == (if cancelled {
                put_back(outcomes(reads@), reads@.len() as int)
            } else if r.0.plan.episodes > 0 {
                Seq::empty()
            } else {
                seq![Report::Planned(r.0.plan)]
            }),
    {
        let left = leftovers(&reads);
        let plan = summarise(&reads);
        if cancelled {
            let said = abandon(&reads);
            return (Run { reads, plan, leftovers: left }, RunStep::Sweep, said);
        }
        let mut said: Vec<Update> = Vec::new();
        if plan.episodes > 0 {
            assert(reports(said@) =~= Seq::<Report>::empty());
            return (Run { reads, plan, leftovers: left }, RunStep::Probe, said);
        }
        said.push(Update::Planned(plan));
        assert(reports(said@) =~= seq![Report::Planned(plan)]);
        (Run { reads, plan, leftovers: left }, RunStep::MakeFolder, said)
    }

    /// The probe is over, and the job can be put to the user.
    pub fn probed(&mut self, rate: Option<Rate>) -> (r: (RunStep, Vec<Update>))
        ensures
            final(self).reads == old(self).reads,
            final(self).leftovers == old(self).leftovers,
            final(self).plan == (Plan { probed_rate: rate, ..old(self).plan }),
            r.0 == RunStep::Hold,
            reports(r.1@) == seq![Report::Planned(final(self).plan)],
    {
        self.plan.probed_rate = rate;
        let mut said: Vec<Update> = Vec::new();
        said.push(Update::Planned(self.plan));
        assert(reports(said@) =~= seq![Report::Planned(self.plan)]);
        (RunStep::Hold, said)
    }

    /// The window has answered. What the user un-ticked while the run was held is
    /// read here and nowhere else: from here on the episodes are in flight, and a
    /// job that could change under the transfers already running would be a job
    /// nobody could describe. What has to be swept up stays what it was.
    pub fn answered(&mut self, go: bool, skips: &Skips) -> (r: (RunStep, Vec<Update>))
        ensures
            final(self).plan == old(self).plan,
            final(self).leftovers == old(self).leftovers,
            go ==> {
                &&& r.0 == step_after_answer(true)
                &&& outcomes(final(self).reads@) == outcomes(old(self).reads@).map_values(
                    |o: Outcome| ticked_read(o, skips@),
                )
                &&& reports(r.1@) == said_of_reads(
                    outcomes(old(self).reads@),
                    skips@,
                    old(self).reads@.len() as int,
                )
            },
            !go ==> {
                &&& r.0 == step_after_answer(false)
                &&& final(self).reads == old(self).reads
                &&& reports(r.1@) == put_back(
                    outcomes(old(self).reads@),
                    old(self).reads@.len() as int,
                )
            },
    {
        if !go {
            return (RunStep::Sweep, abandon(&self.reads));
        }
        let (reads, said) = drop_unticked(&self.reads, skips);
        self.reads = reads;
        (RunStep::MakeFolder, said)
    }

    /// The folder everything goes into has been made, or could not be. Only now
    /// is anything written: everything up to the answer happened in memory.
    pub fn folder_made(&self, out_dir: &str, made: Result<(), String>) -> (r: (
        RunStep,
        Vec<Update>,
    ))
        ensures
            match made {
                Err(e) => r.0 == RunStep::Over && reports(r.1@) == no_folder_reports(
                    outcomes(self.reads@),
                    out_dir@,
                    e@,
                ),
                Ok(_) => r.0 == RunStep::Download && r.1@.len() == 0,
            },
    {
        match made {
            Ok(_) => (RunStep::Download, Vec::new()),
            Err(e) => {
                let mut m = owned("Cannot create ");
                m.push_str(out_dir);
                m.push_str(": ");
                m.push_str(e.as_str());
                let ghost text = m@;
                let mut said = abandon(&self.reads);
                let ghost before = said@;
                said.push(Update::Problem(m));
                said.push(Update::Finished { cancelled: false });
                assert(reports(said@) =~= reports(before) + seq![
                    Report::Problem(text),
                    Report::Finished { cancelled: false },
                ]);
                (RunStep::Over, said)
            },
        }
    }

    /// Every transfer has returned. Only a run that was stopped is swept up
    /// after: one that ends on its own leaves any partial file of a failed
    /// episode exactly where it is, for the next run to pick up from.
    pub fn downloaded(&self, cancelled: bool) -> (r: (RunStep, Vec<Update>))
        ensures
            cancelled ==> r.0 == RunStep::Sweep && r.1@.len() == 0,
            !cancelled ==> r.0 == RunStep::Over && reports(r.1@) == seq![
                Report::Log("All done."@),
                Report::Finished { cancelled: false },
            ],
            r.0 == step_after_transfers(cancelled),
    {
        let mut said: Vec<Update> = Vec::new();
        if cancelled {
            return (RunStep::Sweep, said);
        }
        said.push(Update::Log(owned("All done.")));
        said.push(Update::Finished { cancelled: false });
        assert(reports(said@) =~= seq![
            Report::Log("All done."@),
            Report::Finished { cancelled: false },
        ]);
        (RunStep::Over, said)
    }

    /// The sweep is done, and with it the run.
    pub fn swept(&self, sweep: &Sweep) -> (r: (RunStep, Vec<Update>))
        ensures
            r.0 == RunStep::Over,
            reports(r.1@) == sweep.summary() + stopped_reports(),
    {
        let mut said = sweep.updates();
        let ghost before = said@;
        said.push(Update::Log(owned("Stopped.")));
        said.push(Update::Finished { cancelled: true });
        assert(reports(said@) =~= reports(before) + stopped_reports());
        (RunStep::Over, said)
    }
}

/// The only run that goes ahead without being asked about is one with nothing to
/// fetch: a plan that counts no episodes means no podcast is owed any.
pub proof fn law_only_an_empty_job_goes_unasked(reads: Seq<Outcome>, n: int)
    requires
        0 <= n <= reads.len(),
        forall|i: int| 0 <= i < reads.len() ==> (#[trigger] reads[i]).skipped >= 0,
        planned(feeds_sum(reads, n), None).episodes == 0,
    ensures
        forall|i: int| 0 <= i < n ==> (#[trigger] owed_episodes(reads[i])).len() == 0,
    decreases n,
{
    if n > 0 {
        let list = owed_episodes(reads[n - 1]);
        lemma_feeds_sum(reads, n);
        lemma_feeds_sum(reads, n - 1);
        lemma_episodes_sum(list, list.len() as int);
        law_only_an_empty_job_goes_unasked(reads, n - 1);
    }
}

} // verus!
