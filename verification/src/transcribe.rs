//! Turning downloaded episodes into readable transcripts.
//!
//! Three programs, in a line, none of them ours:
//!
//! ```text
//! episode.mp3 --ffmpeg--> 16 kHz mono wav --whisper-cli--> timestamped text
//!                                                             |
//!                                            [optional] --ollama--> stable speakers
//! ```
//!
//! FFmpeg is there because whisper.cpp reads 16-bit WAV and nothing else, and a
//! podcast is an mp3 or an m4a. Whisper does the listening. The `-tdrz` model
//! marks the moments the speaker changes — that is all it can do; it hears *a*
//! change, not *who* changed — so on its own the best the transcript can say is
//! that the voice has swapped, and turns alternate between two speakers.
//!
//! Ollama is what turns those turns into people. It never hears the audio; it
//! reads the turns Whisper already found and decides which of them are the same
//! voice, which is a bookkeeping job over text rather than a listening one. It
//! is optional throughout, and a machine without it still gets a full transcript.
//!
//! What is here decides; running the programs and talking to Ollama is for
//! whoever drives it.

use crate::amount::amount;
use crate::amount::at_most;
use crate::amount::lemma_plain_number;
use crate::amount::parse_amount;
use crate::amount::Amount;
use crate::amount::MOST;
use crate::document::file_bytes;
use crate::document::render;
use crate::document::Format;
use crate::document::Style;
use crate::feed::optional_text;
use crate::text::chars_of;
use crate::text::copy_of;
use crate::text::decimal;
use crate::text::find_of;
use crate::text::first_of;
use crate::text::join;
use crate::text::lines;
use crate::text::number;
use crate::text::owned;
use crate::text::padded;
use crate::text::pieces;
use crate::text::push_decimal;
use crate::text::push_padded;
use crate::text::push_wide;
use crate::text::same;
use crate::text::split_lines;
use crate::text::split_on;
use crate::text::starts_with;
use crate::text::string_of;
use crate::text::texts;
use crate::text::trim;
use crate::text::trimmed;
use crate::text::views;
use crate::text::white;
use crate::timestamps::lemma_padded;
use crate::timestamps::lemma_pieces;
use crate::timestamps::lemma_plain;
use crate::timestamps::lemma_untrimmed;
use vstd::prelude::*;
use vstd::slice::slice_subrange;

verus! {

/// Which of the three programs is running.
#[derive(Clone, Copy, Debug, PartialEq, Eq, Structural)]
pub enum Stage {
    Converting,
    Transcribing,
    Labelling,
}

impl Stage {
    /// What the window calls this stage.
    pub open spec fn name(self) -> Seq<char> {
        match self {
            Stage::Converting => "converting…"@,
            Stage::Transcribing => "transcribing…"@,
            Stage::Labelling => "naming speakers…"@,
        }
    }

    /// What the window calls this stage.
    pub fn label(self) -> (r: &'static str)
        ensures
            r@ == self.name(),
    {
        match self {
            Stage::Converting => "converting…",
            Stage::Transcribing => "transcribing…",
            Stage::Labelling => "naming speakers…",
        }
    }
}

/// One stretch of speech between two `[SPEAKER_TURN]` marks.
#[derive(Clone, Debug, PartialEq)]
pub struct Turn {
    /// Milliseconds from the start of the episode.
    pub start: u128,
    pub text: String,
    /// Which person this is.
    pub speaker: usize,
}

/// What a turn says.
pub struct Speech {
    pub start: u128,
    pub text: Seq<char>,
    pub speaker: usize,
}

impl View for Turn {
    type V = Speech;

    open spec fn view(&self) -> Speech {
        Speech { start: self.start, text: self.text@, speaker: self.speaker }
    }
}

/// What a list of turns says.
pub open spec fn speeches(v: Seq<Turn>) -> Seq<Speech> {
    v.map_values(|t: Turn| t@)
}

/// One line of Whisper's output.
#[derive(Clone, Debug, PartialEq)]
pub struct Segment {
    /// Milliseconds from the start of the episode.
    pub start: u128,
    pub text: String,
    /// Whether the speaker changed at the end of this segment.
    pub turn_ends: bool,
}

/// What a segment says.
pub struct Utterance {
    pub start: u128,
    pub text: Seq<char>,
    pub turn_ends: bool,
}

impl View for Segment {
    type V = Utterance;

    open spec fn view(&self) -> Utterance {
        Utterance { start: self.start, text: self.text@, turn_ends: self.turn_ends }
    }
}

/// What a list of segments says.
pub open spec fn utterances(v: Seq<Segment>) -> Seq<Utterance> {
    v.map_values(|s: Segment| s@)
}

// ---- Whisper's output -----------------------------------------------------

/// A text with its commas made points.
pub open spec fn pointed(s: Seq<char>) -> Seq<char> {
    Seq::new(s.len(), |i: int| if s[i] == ',' { '.' } else { s[i] })
}

/// The last moment there is, in milliseconds: its whole seconds are the most that
/// 64 bits hold.
pub const LAST_MOMENT: u128 = 18_446_744_073_709_551_615_999;

/// The milliseconds that hours, minutes and seconds come to, any finer part
/// dropped. Nothing comes before the start or after [`LAST_MOMENT`], and what is
/// no number is the start.
pub open spec fn moment(hours: Amount, minutes: Amount, seconds: Amount) -> int {
    let millis = (hours.units * 3600 + minutes.units * 60 + seconds.units) / 1_000_000_000;
    if hours.down || minutes.down || seconds.down {
        0
    } else if hours.up || minutes.up || seconds.up || millis > LAST_MOMENT {
        LAST_MOMENT as int
    } else if millis < 0 {
        0
    } else {
        millis
    }
}

/// The milliseconds that `HH:MM:SS.mmm` stands for. Each part is a number as
/// [`amount`] reads them, and what follows a third colon is not looked at. Some
/// builds write the fraction after a comma.
pub open spec fn timestamp(stamp: Seq<char>) -> Option<int> {
    let parts = pieces(stamp, ':');
    if parts.len() < 3 {
        None
    } else {
        match (
            amount(trim(parts[0])),
            amount(trim(parts[1])),
            amount(pointed(trim(parts[2]))),
        ) {
            (Some(h), Some(m), Some(s)) => Some(moment(h, m, s)),
            _ => None,
        }
    }
}

/// The milliseconds that hours, minutes and seconds come to.
fn moment_of(hours: Amount, minutes: Amount, seconds: Amount) -> (r: u128)
    requires
        -MOST <= hours.units <= MOST,
        -MOST <= minutes.units <= MOST,
        -MOST <= seconds.units <= MOST,
    ensures
        r == moment(hours, minutes, seconds),
        r <= LAST_MOMENT,
{
    if hours.down || minutes.down || seconds.down {
        return 0;
    }
    if hours.up || minutes.up || seconds.up {
        return LAST_MOMENT;
    }
    let total: i128 = hours.units * 3600 + minutes.units * 60 + seconds.units;
    if total < 0 {
        return 0;
    }
    let millis: u128 = total as u128 / 1_000_000_000;
    if millis > LAST_MOMENT {
        LAST_MOMENT
    } else {
        millis
    }
}

/// `HH:MM:SS.mmm` to milliseconds.
pub fn parse_timestamp(stamp: &[char]) -> (r: Option<u128>)
    ensures
        match timestamp(stamp@) {
            Some(n) => r == Some(n as u128) && 0 <= n <= LAST_MOMENT,
            None => r is None,
        },
{
    let parts = split_on(stamp, ':');
    let ghost ps = views(parts@);
    if parts.len() < 3 {
        return None;
    }
    assert(ps[0] == parts@[0]@ && ps[1] == parts@[1]@ && ps[2] == parts@[2]@);
    let hours = parse_amount(trimmed(parts[0].as_slice()));
    let minutes = parse_amount(trimmed(parts[1].as_slice()));
    let given = trimmed(parts[2].as_slice());
    let mut shown = copy_of(given, given.len());
    assert(shown@ =~= given@);
    let mut i: usize = 0;
    while i < shown.len()
        invariant
            i <= shown@.len() == given@.len(),
            forall|k: int| 0 <= k < i ==> #[trigger] shown@[k] == pointed(given@)[k],
            forall|k: int| i <= k < shown@.len() ==> #[trigger] shown@[k] == given@[k],
        decreases shown@.len() - i,
    {
        if shown[i] == ',' {
            shown.set(i, '.');
        }
        i += 1;
    }
    assert(shown@ =~= pointed(given@));
    let seconds = parse_amount(shown.as_slice());
    match (hours, minutes, seconds) {
        (Some(h), Some(m), Some(s)) => Some(moment_of(h, m, s)),
        _ => None,
    }
}

/// A moment the way Whisper writes it. Some builds write a comma for the point.
pub open spec fn stamp_text(h: int, m: int, s: int, ms: int, mark: char) -> Seq<char> {
    padded(h, 2) + seq![':'] + (padded(m, 2) + seq![':'] + (padded(s, 2) + seq![mark] + padded(
        ms,
        3,
    )))
}

/// Whisper's own timestamps are read as the moments they name, and a transcript
/// shows the hours, minutes and seconds that Whisper wrote.
pub proof fn law_stamps_read_back(h: int, m: int, s: int, ms: int, mark: char)
    requires
        0 <= h,
        0 <= m,
        0 <= s,
        0 <= ms < 1000,
        mark == '.' || mark == ',',
        ((h * 60 + m) * 60 + s) * 1000 + ms <= LAST_MOMENT,
    ensures
        timestamp(stamp_text(h, m, s, ms, mark)) == Some(((h * 60 + m) * 60 + s) * 1000 + ms),
        m < 60 && s < 60 ==> clock_text(((h * 60 + m) * 60 + s) * 1000 + ms) == padded(h, 2) + seq![
            ':',
        ] + padded(m, 2) + seq![':'] + padded(s, 2),
{
    lemma_stamp_parts(h, m, s, ms, mark);
    lemma_stamp_amounts(h, m, s, ms);
    lemma_stamp_moment(h, m, s, ms);
    if m < 60 && s < 60 {
        lemma_clock_shows(h, m, s, ms);
    }
}

proof fn lemma_stamp_moment(h: int, m: int, s: int, ms: int)
    requires
        0 <= h,
        0 <= m,
        0 <= s,
        0 <= ms < 1000,
        ((h * 60 + m) * 60 + s) * 1000 + ms <= LAST_MOMENT,
    ensures
        moment(
            Amount { units: (h * 1_000_000_000_000) as i128, up: false, down: false },
            Amount { units: (m * 1_000_000_000_000) as i128, up: false, down: false },
            Amount { units: ((s * 1000 + ms) * 1_000_000_000) as i128, up: false, down: false },
        ) == ((h * 60 + m) * 60 + s) * 1000 + ms,
{
    let total = ((h * 60 + m) * 60 + s) * 1000 + ms;
    let units = h * 1_000_000_000_000 * 3600 + m * 1_000_000_000_000 * 60 + (s * 1000 + ms)
        * 1_000_000_000;
    assert(units == total * 1_000_000_000);
    assert(units / 1_000_000_000 == total);
}

proof fn lemma_clock_shows(h: int, m: int, s: int, ms: int)
    requires
        0 <= h,
        0 <= m < 60,
        0 <= s < 60,
        0 <= ms < 1000,
        ((h * 60 + m) * 60 + s) * 1000 + ms <= LAST_MOMENT,
    ensures
        clock_text(((h * 60 + m) * 60 + s) * 1000 + ms) == padded(h, 2) + seq![':'] + padded(m, 2)
            + seq![':'] + padded(s, 2),
{
    let total = (h * 60 + m) * 60 + s;
    assert((total * 1000 + ms) / 1000 == total);
    assert(total / 3600 == h && total % 3600 / 60 == m && total % 60 == s);
}

/// The three parts of a timestamp, and nothing to trim off them.
proof fn lemma_stamp_parts(h: int, m: int, s: int, ms: int, mark: char)
    requires
        0 <= h,
        0 <= m,
        0 <= s,
        0 <= ms < 1000,
        mark == '.' || mark == ',',
    ensures
        ({
            let parts = pieces(stamp_text(h, m, s, ms, mark), ':');
            &&& parts.len() == 3
            &&& trim(parts[0]) == padded(h, 2)
            &&& trim(parts[1]) == padded(m, 2)
            &&& pointed(trim(parts[2])) == padded(s, 2) + seq!['.'] + padded(ms, 3)
        }),
{
    let (ph, pm, ps, pf) = (padded(h, 2), padded(m, 2), padded(s, 2), padded(ms, 3));
    let none = Seq::<char>::empty();
    lemma_padded(h, 2);
    lemma_padded(m, 2);
    lemma_plain(ph);
    lemma_plain(pm);
    let last = ps + seq![mark] + pf;
    lemma_seconds_part(s, ms, mark);
    lemma_pieces(ph, ':', pm + seq![':'] + last);
    lemma_pieces(pm, ':', last);
    lemma_pieces(last, ':', none);
    assert(pieces(stamp_text(h, m, s, ms, mark), ':') =~= seq![ph, pm, last]);
    lemma_untrimmed(ph);
    lemma_untrimmed(pm);
}

proof fn lemma_seconds_part(s: int, ms: int, mark: char)
    requires
        0 <= s,
        0 <= ms,
        mark == '.' || mark == ',',
    ensures
        ({
            let last = padded(s, 2) + seq![mark] + padded(ms, 3);
            &&& !last.contains(':')
            &&& trim(last) == last
            &&& pointed(last) == padded(s, 2) + seq!['.'] + padded(ms, 3)
        }),
{
    let (ps, pf) = (padded(s, 2), padded(ms, 3));
    lemma_padded(s, 2);
    lemma_padded(ms, 3);
    lemma_plain(ps);
    lemma_plain(pf);
    let last = ps + seq![mark] + pf;
    let dotted = ps + seq!['.'] + pf;
    assert forall|i: int| 0 <= i < last.len() implies #[trigger] last[i] != ':' && !white(last[i])
        && pointed(last)[i] == dotted[i] by {
        if i < ps.len() {
            assert(last[i] == ps[i] && '0' <= ps[i] <= '9');
        } else if i > ps.len() {
            let k = i - ps.len() - 1;
            assert(last[i] == pf[k] && '0' <= pf[k] <= '9');
        }
    }
    assert(pointed(last) =~= dotted);
    lemma_untrimmed(last);
}

/// What the parts of a timestamp say.
proof fn lemma_stamp_amounts(h: int, m: int, s: int, ms: int)
    requires
        0 <= h,
        0 <= m,
        0 <= s,
        0 <= ms < 1000,
        ((h * 60 + m) * 60 + s) * 1000 + ms <= LAST_MOMENT,
    ensures
        amount(padded(h, 2)) == Some(
            Amount { units: (h * 1_000_000_000_000) as i128, up: false, down: false },
        ),
        amount(padded(m, 2)) == Some(
            Amount { units: (m * 1_000_000_000_000) as i128, up: false, down: false },
        ),
        amount(padded(s, 2) + seq!['.'] + padded(ms, 3)) == Some(
            Amount { units: ((s * 1000 + ms) * 1_000_000_000) as i128, up: false, down: false },
        ),
{
    let none = Seq::<char>::empty();
    lemma_padded(h, 2);
    lemma_padded(m, 2);
    lemma_padded(s, 2);
    lemma_padded(ms, 3);
    assert(padded(ms, 3).len() == 3) by {
        reveal_with_fuel(decimal, 4);
    }
    lemma_plain_number(padded(h, 2), none);
    lemma_plain_number(padded(m, 2), none);
    lemma_plain_number(padded(s, 2), padded(ms, 3));
}

/// Where `p` first stands in a text, or -1 when it does not.
pub open spec fn index_of(s: Seq<char>, p: Seq<char>) -> int
    decreases s.len(),
{
    if starts_with(s, p) {
        0
    } else if s.len() == 0 {
        -1
    } else {
        let n = index_of(s.skip(1), p);
        if n < 0 {
            -1
        } else {
            n + 1
        }
    }
}

/// Finds the first place a text stands in another.
pub fn find_text(cs: &[char], p: &str) -> (r: Option<usize>)
    ensures
        match r {
            Some(n) => n == index_of(cs@, p@) && n + p@.len() <= cs@.len(),
            None => index_of(cs@, p@) < 0,
        },
{
    let pattern = chars_of(p);
    let mut i: usize = 0;
    assert(cs@.skip(0) =~= cs@);
    loop
        invariant
            i <= cs@.len(),
            pattern@ == p@,
            index_of(cs@, p@) < 0 <==> index_of(cs@.skip(i as int), p@) < 0,
            index_of(cs@.skip(i as int), p@) >= 0 ==> index_of(cs@, p@) == i + index_of(
                cs@.skip(i as int),
                p@,
            ),
        decreases cs@.len() - i,
    {
        let rest = slice_subrange(cs, i, cs.len());
        assert(rest@ =~= cs@.skip(i as int));
        if crate::text::has_prefix(rest, pattern.as_slice()) {
            return Some(i);
        }
        if i == cs.len() {
            return None;
        }
        assert(rest@.skip(1) =~= cs@.skip(i + 1));
        i += 1;
    }
}

/// Whether a text ends in another.
pub open spec fn ends_with(s: Seq<char>, p: Seq<char>) -> bool {
    p.len() <= s.len() && s.skip(s.len() - p.len()) == p
}

/// The segment on a line like
/// `[00:01:02.000 --> 00:01:05.000]   Hello there. [SPEAKER_TURN]`. Anything
/// that is not shaped like that is no segment. One that is only a speaker mark
/// still ends the turn, but has nothing to add to it.
pub open spec fn segment_on(line: Seq<char>) -> Option<Utterance> {
    let s = trim(line);
    let rest = s.skip(1);
    let close = first_of(rest, seq![']']);
    let stamps = rest.take(close);
    let arrow = index_of(stamps, "-->"@);
    if s.len() == 0 || s[0] != '[' || close >= rest.len() || arrow < 0 {
        None
    } else {
        match timestamp(trim(stamps.take(arrow))) {
            None => None,
            Some(start) => {
                let text = trim(rest.skip(close + 1));
                if ends_with(text, "[SPEAKER_TURN]"@) {
                    Some(
                        Utterance {
                            start: start as u128,
                            text: trim(text.take(text.len() - "[SPEAKER_TURN]"@.len())),
                            turn_ends: true,
                        },
                    )
                } else {
                    Some(Utterance { start: start as u128, text, turn_ends: false })
                }
            },
        }
    }
}

/// Pull a segment out of a line of Whisper's output.
///
/// Anything that is not one — the banner, the timing summary, a blank line — is
/// skipped, so the parser cannot be derailed by Whisper printing something new
/// around the edges.
pub fn parse_segment(line: &str) -> (r: Option<Segment>)
    ensures
        match r {
            Some(s) => segment_on(line@) == Some(s@),
            None => segment_on(line@) is None,
        },
{
    let cs = chars_of(line);
    let s = trimmed(cs.as_slice());
    if s.len() == 0 || s[0] != '[' {
        return None;
    }
    let rest = slice_subrange(s, 1, s.len());
    assert(rest@ =~= s@.skip(1));
    let bracket: [char; 1] = [']'];
    assert(bracket@ =~= seq![']']);
    let close = find_of(rest, bracket.as_slice());
    if close == rest.len() {
        return None;
    }
    let stamps = slice_subrange(rest, 0, close);
    assert(stamps@ =~= rest@.take(close as int));
    let arrow = match find_text(stamps, "-->") {
        Some(n) => n,
        None => return None,
    };
    let from = slice_subrange(stamps, 0, arrow);
    assert(from@ =~= stamps@.take(arrow as int));
    let start = match parse_timestamp(trimmed(from)) {
        Some(n) => n,
        None => return None,
    };
    let tail = slice_subrange(rest, close + 1, rest.len());
    assert(tail@ =~= rest@.skip(close + 1));
    let text = trimmed(tail);
    let mark = chars_of("[SPEAKER_TURN]");
    if text.len() >= mark.len() {
        let cut: usize = text.len() - mark.len();
        let end = slice_subrange(text, cut, text.len());
        assert(end@ =~= text@.skip(cut as int));
        if same(end, mark.as_slice()) {
            let before = slice_subrange(text, 0, cut);
            assert(before@ =~= text@.take(cut as int));
            return Some(Segment { start, text: string_of(trimmed(before)), turn_ends: true });
        }
    }
    Some(Segment { start, text: string_of(text), turn_ends: false })
}

// ---- Turns ----------------------------------------------------------------

/// Turns finished so far, and the one being gathered.
pub struct Gathering {
    pub turns: Seq<Speech>,
    pub current: Option<Speech>,
}

/// The turn being gathered after one more segment.
pub open spec fn gathered(current: Option<Speech>, turns: int, s: Utterance) -> Option<Speech> {
    if s.text.len() == 0 {
        current
    } else {
        match current {
            Some(t) => Some(
                Speech { start: t.start, text: t.text + seq![' '] + s.text, speaker: t.speaker },
            ),
            None => Some(
                Speech { start: s.start, text: s.text, speaker: (turns % 2 + 1) as usize },
            ),
        }
    }
}

/// Segments gathered into turns, split where Whisper heard the speaker change.
pub open spec fn gathering(segments: Seq<Utterance>) -> Gathering
    decreases segments.len(),
{
    if segments.len() == 0 {
        Gathering { turns: Seq::empty(), current: None }
    } else {
        let before = gathering(segments.drop_last());
        let s = segments.last();
        let current = gathered(before.current, before.turns.len() as int, s);
        match current {
            Some(t) if s.turn_ends => Gathering { turns: before.turns.push(t), current: None },
            _ => Gathering { turns: before.turns, current },
        }
    }
}

/// The turns that segments make up. A trailing one with no final mark is still
/// kept.
pub open spec fn turns_of(segments: Seq<Utterance>) -> Seq<Speech> {
    let g = gathering(segments);
    match g.current {
        Some(t) => g.turns.push(t),
        None => g.turns,
    }
}

/// What an optional turn says.
pub open spec fn optional_speech(t: Option<Turn>) -> Option<Speech> {
    match t {
        Some(t) => Some(t@),
        None => None,
    }
}

/// Gather segments into turns, splitting where Whisper heard the speaker change.
///
/// Turns alternate between Speaker 1 and Speaker 2. All a turn mark tells us is
/// that the voice changed, so the only thing it forces is that this turn is not
/// the previous one — and with two voices, "not the previous one" has exactly
/// one answer. That makes alternating correct for the two-hander, which is most
/// podcasts, and it is why the numbering stops at two: with three voices "not
/// the previous one" has two answers and nothing here can choose between them.
/// Guessing a third would be inventing information.
pub fn into_turns(segments: Vec<Segment>) -> (r: Vec<Turn>)
    ensures
        speeches(r@) == turns_of(utterances(segments@)),
{
    let ghost all = utterances(segments@);
    let mut turns: Vec<Turn> = Vec::new();
    let mut current: Option<Turn> = None;
    let mut i: usize = 0;
    assert(speeches(turns@) =~= gathering(all.take(0)).turns);
    while i < segments.len()
        invariant
            i <= segments@.len(),
            all == utterances(segments@),
            speeches(turns@) == gathering(all.take(i as int)).turns,
            optional_speech(current) == gathering(all.take(i as int)).current,
        decreases segments@.len() - i,
    {
        let segment = &segments[i];
        proof {
            let upto = all.take(i + 1);
            assert(upto.drop_last() =~= all.take(i as int));
            assert(upto.last() == segment@);
        }
        let ghost was = current;
        if !segment.text.as_str().is_empty() {
            current = match current {
                Some(turn) => {
                    let mut text = turn.text;
                    text.push(' ');
                    text.push_str(segment.text.as_str());
                    assert(text@ =~= turn.text@ + seq![' '] + segment.text@);
                    Some(Turn { start: turn.start, text, speaker: turn.speaker })
                },
                None => Some(
                    Turn {
                        start: segment.start,
                        text: segment.text.clone(),
                        speaker: turns.len() % 2 + 1,
                    },
                ),
            };
        }
        assert(optional_speech(current) == gathered(
            optional_speech(was),
            turns@.len() as int,
            segment@,
        ));
        if segment.turn_ends {
            if let Some(turn) = current {
                let ghost before = turns@;
                turns.push(turn);
                assert(speeches(turns@) =~= speeches(before).push(turn@));
            }
            current = None;
        }
        i += 1;
    }
    assert(all.take(i as int) =~= all);
    if let Some(turn) = current {
        let ghost before = turns@;
        turns.push(turn);
        assert(speeches(turns@) =~= speeches(before).push(turn@));
    }
    turns
}

/// The speakers of the turns alternate between 1 and 2, whatever was heard, and
/// no turn is empty.
pub proof fn law_speakers_alternate(segments: Seq<Utterance>)
    ensures
        forall|i: int|
            0 <= i < turns_of(segments).len() ==> (#[trigger] turns_of(segments)[i]).speaker == i
                % 2 + 1 && turns_of(segments)[i].text.len() > 0,
{
    lemma_gathering(segments);
}

proof fn lemma_gathering(segments: Seq<Utterance>)
    ensures
        forall|i: int|
            0 <= i < gathering(segments).turns.len() ==> (#[trigger] gathering(
                segments,
            ).turns[i]).speaker == i % 2 + 1 && gathering(segments).turns[i].text.len() > 0,
        match gathering(segments).current {
            Some(t) => t.speaker == gathering(segments).turns.len() % 2 + 1 && t.text.len() > 0,
            None => true,
        },
    decreases segments.len(),
{
    if segments.len() > 0 {
        lemma_gathering(segments.drop_last());
        let before = gathering(segments.drop_last()).turns;
        let after = gathering(segments).turns;
        assert(forall|i: int| 0 <= i < before.len() ==> #[trigger] after[i] == before[i]);
    }
}

/// The texts of the turns.
pub open spec fn turn_texts(turns: Seq<Speech>) -> Seq<Seq<char>> {
    turns.map_values(|t: Speech| t.text)
}

/// The texts of the segments that have one.
pub open spec fn spoken(segments: Seq<Utterance>) -> Seq<Seq<char>>
    decreases segments.len(),
{
    if segments.len() == 0 {
        Seq::empty()
    } else if segments.last().text.len() == 0 {
        spoken(segments.drop_last())
    } else {
        spoken(segments.drop_last()).push(segments.last().text)
    }
}

proof fn lemma_join_push(parts: Seq<Seq<char>>, x: Seq<char>, sep: Seq<char>)
    ensures
        parts.len() == 0 ==> join(parts.push(x), sep) == x,
        parts.len() > 0 ==> join(parts.push(x), sep) == join(parts, sep) + sep + x,
{
    assert(parts.push(x).drop_last() =~= parts);
}

proof fn lemma_gathering_keeps(segments: Seq<Utterance>)
    ensures
        join(turn_texts(turns_of(segments)), seq![' ']) == join(spoken(segments), seq![' ']),
        turns_of(segments).len() == 0 <==> spoken(segments).len() == 0,
    decreases segments.len(),
{
    let sep = seq![' '];
    if segments.len() == 0 {
        assert(turn_texts(turns_of(segments)) =~= spoken(segments));
    } else {
        let front = segments.drop_last();
        let s = segments.last();
        lemma_gathering_keeps(front);
        let g = gathering(front);
        let before = turns_of(front);
        let after = turns_of(segments);
        lemma_join_push(spoken(front), s.text, sep);
        if s.text.len() == 0 {
            assert(after =~= before);
        } else {
            let done = turn_texts(g.turns);
            match g.current {
                Some(t) => {
                    let longer = t.text + sep + s.text;
                    assert(turn_texts(before) =~= done.push(t.text));
                    assert(turn_texts(after) =~= done.push(longer));
                    lemma_join_push(done, t.text, sep);
                    lemma_join_push(done, longer, sep);
                    if done.len() > 0 {
                        assert(join(done, sep) + sep + longer =~= join(done, sep) + sep + t.text
                            + sep + s.text);
                    }
                },
                None => {
                    assert(turn_texts(before) =~= done);
                    assert(turn_texts(after) =~= done.push(s.text));
                    lemma_join_push(done, s.text, sep);
                    assert(done.len() == before.len());
                },
            }
        }
    }
}

/// Nothing Whisper heard is lost or reordered: the turns read one after another
/// are the segments read one after another.
pub proof fn law_turns_keep_every_word(segments: Seq<Utterance>)
    ensures
        join(turn_texts(turns_of(segments)), seq![' ']) == join(spoken(segments), seq![' ']),
{
    lemma_gathering_keeps(segments);
}

/// What is said between two marks is one turn: it starts when its first words
/// do, and says all of it.
pub proof fn law_a_turn_starts_with_its_first_words(group: Seq<Utterance>, first: int)
    requires
        0 <= first < group.len(),
        group[first].text.len() > 0,
        forall|j: int| 0 <= j < first ==> (#[trigger] group[j]).text.len() == 0,
        forall|j: int| 0 <= j < group.len() - 1 ==> !(#[trigger] group[j]).turn_ends,
    ensures
        turns_of(group) == seq![
            Speech {
                start: group[first].start,
                text: join(spoken(group), seq![' ']),
                speaker: 1,
            },
        ],
{
    law_turns_keep_every_word(group);
    lemma_one_turn(group, first);
    let turns = turns_of(group);
    assert(turn_texts(turns)[0] == turns[0].text);
    assert(turns =~= seq![
        Speech { start: group[first].start, text: join(spoken(group), seq![' ']), speaker: 1 },
    ]);
}

proof fn lemma_one_turn(group: Seq<Utterance>, first: int)
    requires
        0 <= first,
        first < group.len() ==> group[first].text.len() > 0,
        forall|j: int|
            0 <= j < first && j < group.len() ==> (#[trigger] group[j]).text.len() == 0,
        forall|j: int| 0 <= j < group.len() - 1 ==> !(#[trigger] group[j]).turn_ends,
    ensures
        group.len() <= first ==> gathering(group).current is None && gathering(group).turns.len()
            == 0,
        first < group.len() ==> turns_of(group).len() == 1 && turns_of(group)[0].start
            == group[first].start && turns_of(group)[0].speaker == 1,
        first < group.len() && !group.last().turn_ends ==> gathering(group).turns.len() == 0,
    decreases group.len(),
{
    if group.len() > 0 {
        let front = group.drop_last();
        assert forall|j: int| 0 <= j < front.len() implies #[trigger] front[j] == group[j] by {}
        lemma_one_turn(front, first);
        if front.len() > 0 {
            assert(!front.last().turn_ends);
        }
    }
}

/// A mark ends a turn for good: what follows it makes the turns it would make on
/// its own, and takes nothing from those before.
pub proof fn law_turns_are_cut_at_the_marks(a: Seq<Utterance>, b: Seq<Utterance>)
    requires
        a.len() > 0,
        a.last().turn_ends,
    ensures
        turns_of(a + b).len() == turns_of(a).len() + turns_of(b).len(),
        turns_of(a + b).take(turns_of(a).len() as int) == turns_of(a),
        forall|k: int|
            0 <= k < turns_of(b).len() ==> {
                let t = turns_of(a + b)[turns_of(a).len() + k];
                t.start == (#[trigger] turns_of(b)[k]).start && t.text == turns_of(b)[k].text
            },
{
    lemma_cut(a, b);
    assert(turns_of(a) == gathering(a).turns);
    assert(turns_of(a + b).take(turns_of(a).len() as int) =~= turns_of(a));
}

proof fn lemma_cut(a: Seq<Utterance>, b: Seq<Utterance>)
    requires
        a.len() > 0,
        a.last().turn_ends,
    ensures
        gathering(a).current is None,
        ({
            let (x, y, z) = (gathering(a), gathering(b), gathering(a + b));
            &&& z.turns.len() == x.turns.len() + y.turns.len()
            &&& z.turns.take(x.turns.len() as int) == x.turns
            &&& forall|k: int|
                0 <= k < y.turns.len() ==> z.turns[x.turns.len() + k].start == (
                #[trigger] y.turns[k]).start && z.turns[x.turns.len() + k].text == y.turns[k].text
            &&& match (y.current, z.current) {
                (Some(t), Some(u)) => t.start == u.start && t.text == u.text,
                (None, None) => true,
                _ => false,
            }
        }),
    decreases b.len(),
{
    if b.len() == 0 {
        assert(a + b =~= a);
        assert(gathering(a).turns.take(gathering(a).turns.len() as int) =~= gathering(a).turns);
    } else {
        let front = b.drop_last();
        lemma_cut(a, front);
        assert((a + b).drop_last() =~= a + front);
        assert((a + b).last() == b.last());
        let (x, y, z) = (gathering(a), gathering(b), gathering(a + b));
        let (v, w) = (gathering(front), gathering(a + front));
        assert(z.turns.take(x.turns.len() as int) =~= w.turns.take(x.turns.len() as int));
        assert forall|k: int| 0 <= k < y.turns.len() implies z.turns[x.turns.len() + k].start == (
        #[trigger] y.turns[k]).start && z.turns[x.turns.len() + k].text == y.turns[k].text by {
            if k < v.turns.len() {
                assert(y.turns[k] == v.turns[k]);
                assert(z.turns[x.turns.len() + k] == w.turns[x.turns.len() + k]);
            }
        }
    }
}

/// Silence makes no turns, marks or no marks.
pub proof fn law_silence_makes_no_turns(segments: Seq<Utterance>)
    requires
        forall|j: int| 0 <= j < segments.len() ==> (#[trigger] segments[j]).text.len() == 0,
    ensures
        turns_of(segments).len() == 0,
{
    lemma_silence(segments);
}

proof fn lemma_silence(segments: Seq<Utterance>)
    requires
        forall|j: int| 0 <= j < segments.len() ==> (#[trigger] segments[j]).text.len() == 0,
    ensures
        gathering(segments).turns.len() == 0,
        gathering(segments).current is None,
    decreases segments.len(),
{
    if segments.len() > 0 {
        let front = segments.drop_last();
        assert forall|j: int| 0 <= j < front.len() implies (#[trigger] front[j]).text.len() == 0 by {
            assert(front[j] == segments[j]);
        }
        lemma_silence(front);
    }
}

// ---- Speakers -------------------------------------------------------------

/// How many turns to hand Ollama at once.
///
/// A whole episode is far too much to put in one prompt and would be answered
/// worse even if it fitted.
pub const CHUNK_TURNS: usize = 30;

/// How many of the previous chunk's decisions to repeat as context. The overlap
/// is what stops the numbering restarting at each chunk boundary: the model is
/// shown who was who a moment ago and asked to carry on from there.
pub const CHUNK_OVERLAP: usize = 4;

/// A turn short enough that thirty of them fit in a prompt. Who is speaking is
/// clear from the first sentence or two; the rest is just tokens.
pub open spec fn clipped(text: Seq<char>) -> Seq<char> {
    if text.len() <= 240 {
        text
    } else {
        text.take(240).push('…')
    }
}

/// Keep a turn short enough that thirty of them fit in a prompt.
pub fn clip(text: &str) -> (r: String)
    ensures
        r@ == clipped(text@),
{
    let cs = chars_of(text);
    if cs.len() <= 240 {
        return owned(text);
    }
    let mut out = copy_of(cs.as_slice(), 240);
    out.push('…');
    string_of(out.as_slice())
}

/// Turns already decided, as the prompt repeats them.
pub open spec fn decided_lines(turns: Seq<Speech>) -> Seq<char>
    decreases turns.len(),
{
    if turns.len() == 0 {
        Seq::empty()
    } else {
        decided_lines(turns.drop_last()) + ("Speaker "@ + decimal(turns.last().speaker as int)
            + ": "@ + clipped(turns.last().text) + "\n"@)
    }
}

/// Turns to label, numbered from 1.
pub open spec fn numbered_lines(turns: Seq<Speech>) -> Seq<char>
    decreases turns.len(),
{
    if turns.len() == 0 {
        Seq::empty()
    } else {
        numbered_lines(turns.drop_last()) + (decimal(turns.len() as int) + ". "@ + clipped(
            turns.last().text,
        ) + "\n"@)
    }
}

/// What is asked of the model for one chunk.
pub open spec fn prompt_text(context: Seq<Speech>, chunk: Seq<Speech>) -> Seq<char> {
    "You are labelling the speakers in a podcast transcript. Each numbered line is one uninterrupted turn by one person. Decide which turns are the same person.\n\n"@
        + (if context.len() > 0 {
        "Already decided, keep these numbers meaning the same people:\n"@ + decided_lines(context)
            + "\n"@
    } else {
        Seq::empty()
    }) + "Label these turns:\n"@ + numbered_lines(chunk)
        + "\nA podcast has only a handful of people in it and they take it in turns, so the same numbers come round again and again. Give a turn the number you already gave that person earlier; only use a new number when you are sure it is somebody new. Two people talking to each other should come out 1, 2, 1, 2.\n\nReply with JSON only: {\"speakers\": [n1, n2, ...]} with exactly "@
        + decimal(chunk.len() as int)
        + " whole numbers, one per turn in order, starting at 1.\n"@
}

/// Writes what is asked of the model: the turns from `start` up to `end`, with
/// the last of those already decided as context.
fn write_prompt(context: &[Turn], chunk: &[Turn]) -> (r: String)
    ensures
        r@ == prompt_text(speeches(context@), speeches(chunk@)),
{
    let ghost cs = speeches(context@);
    let ghost ts = speeches(chunk@);
    let mut known = String::new();
    let mut i: usize = 0;
    assert(known@ =~= decided_lines(cs.take(0)));
    while i < context.len()
        invariant
            i <= context@.len(),
            cs == speeches(context@),
            known@ == decided_lines(cs.take(i as int)),
        decreases context@.len() - i,
    {
        let mut line = owned("Speaker ");
        push_decimal(&mut line, context[i].speaker as u64);
        line.push_str(": ");
        line.push_str(clip(context[i].text.as_str()).as_str());
        line.push_str("\n");
        known.push_str(line.as_str());
        proof {
            let upto = cs.take(i + 1);
            assert(upto.drop_last() =~= cs.take(i as int));
            assert(upto.last() == context@[i as int]@);
        }
        i += 1;
    }
    assert(cs.take(i as int) =~= cs);
    let mut asked = String::new();
    let mut k: usize = 0;
    assert(asked@ =~= numbered_lines(ts.take(0)));
    while k < chunk.len()
        invariant
            k <= chunk@.len(),
            ts == speeches(chunk@),
            asked@ == numbered_lines(ts.take(k as int)),
        decreases chunk@.len() - k,
    {
        let mut line = String::new();
        push_wide(&mut line, k as u128 + 1);
        assert(line@ =~= decimal(k + 1));
        line.push_str(". ");
        line.push_str(clip(chunk[k].text.as_str()).as_str());
        line.push_str("\n");
        asked.push_str(line.as_str());
        proof {
            let upto = ts.take(k + 1);
            assert(upto.drop_last() =~= ts.take(k as int));
            assert(upto.last() == chunk@[k as int]@);
        }
        k += 1;
    }
    assert(ts.take(k as int) =~= ts);
    let mut prompt = owned(
        "You are labelling the speakers in a podcast transcript. Each numbered line is one uninterrupted turn by one person. Decide which turns are the same person.\n\n",
    );
    let mut reminder = String::new();
    if context.len() > 0 {
        reminder = owned("Already decided, keep these numbers meaning the same people:\n");
        reminder.push_str(known.as_str());
        reminder.push_str("\n");
    } else {
        assert(reminder@ =~= Seq::<char>::empty());
    }
    prompt.push_str(reminder.as_str());
    prompt.push_str("Label these turns:\n");
    prompt.push_str(asked.as_str());
    // The wording here matters more than it looks. Saying that consecutive
    // turns are almost always different people would be true and useless: it
    // pushes the model into numbering every turn 1, 2, 3, 4. What has to be
    // said is that the cast is small and closed, so a number is there to be
    // reused.
    prompt.push_str(
        "\nA podcast has only a handful of people in it and they take it in turns, so the same numbers come round again and again. Give a turn the number you already gave that person earlier; only use a new number when you are sure it is somebody new. Two people talking to each other should come out 1, 2, 1, 2.\n\nReply with JSON only: {\"speakers\": [n1, n2, ...]} with exactly ",
    );
    push_decimal(&mut prompt, chunk.len() as u64);
    prompt.push_str(" whole numbers, one per turn in order, starting at 1.\n");
    prompt
}

/// What a character becomes inside a JSON string: quotes and backslashes get a
/// backslash, control characters their short form where they have one, and
/// everything else stays.
pub open spec fn json_escaped(c: char) -> Seq<char> {
    if c == '"' {
        seq!['\\', '"']
    } else if c == '\\' {
        seq!['\\', '\\']
    } else if c == '\u{8}' {
        seq!['\\', 'b']
    } else if c == '\t' {
        seq!['\\', 't']
    } else if c == '\n' {
        seq!['\\', 'n']
    } else if c == '\u{c}' {
        seq!['\\', 'f']
    } else if c == '\r' {
        seq!['\\', 'r']
    } else if ' ' > c {
        seq!['\\', 'u'] + hex(c as int, 4)
    } else {
        seq![c]
    }
}

/// The characters of a text as they stand inside a JSON string.
pub open spec fn json_contents(text: Seq<char>) -> Seq<char>
    decreases text.len(),
{
    if text.len() == 0 {
        Seq::empty()
    } else {
        json_contents(text.drop_last()) + json_escaped(text.last())
    }
}

/// A text as a JSON string, quotes included.
pub open spec fn json_string(text: Seq<char>) -> Seq<char> {
    "\""@ + json_contents(text) + "\""@
}

/// Writes one character of a JSON string.
fn push_escaped(s: &mut String, c: char)
    ensures
        final(s)@ == old(s)@ + json_escaped(c),
{
    let ghost before = s@;
    let short: Option<char> = if c == '"' {
        Some('"')
    } else if c == '\\' {
        Some('\\')
    } else if c == '\u{8}' {
        Some('b')
    } else if c == '\t' {
        Some('t')
    } else if c == '\n' {
        Some('n')
    } else if c == '\u{c}' {
        Some('f')
    } else if c == '\r' {
        Some('r')
    } else {
        None
    };
    match short {
        Some(letter) => {
            s.push('\\');
            s.push(letter);
        },
        None => {
            if ' ' > c {
                s.push('\\');
                s.push('u');
                assert(s@ =~= before + seq!['\\', 'u']);
                push_hex(s, c as u64, 4);
            } else {
                s.push(c);
            }
        },
    }
    assert(s@ =~= before + json_escaped(c));
}

/// Writes a text as a JSON string.
pub fn quote_json(text: &str) -> (r: String)
    ensures
        r@ == json_string(text@),
{
    let cs = chars_of(text);
    let mut inner = String::new();
    let mut i: usize = 0;
    assert(inner@ =~= json_contents(cs@.take(0)));
    while i < cs.len()
        invariant
            i <= cs@.len(),
            inner@ == json_contents(cs@.take(i as int)),
        decreases cs@.len() - i,
    {
        assert(cs@.take(i + 1).drop_last() =~= cs@.take(i as int));
        push_escaped(&mut inner, cs[i]);
        i += 1;
    }
    assert(cs@.take(i as int) =~= cs@);
    let mut s = owned("\"");
    s.push_str(inner.as_str());
    s.push_str("\"");
    s
}

/// The request for one chunk. `format` constrains the decoder to emit valid
/// JSON, which turns "parse whatever the model felt like saying" into an
/// ordinary parse.
pub open spec fn request_text(model: Seq<char>, prompt: Seq<char>) -> Seq<char> {
    "{\"format\":\"json\",\"model\":"@ + json_string(model)
        + ",\"options\":{\"temperature\":0},\"prompt\":"@ + json_string(prompt)
        + ",\"stream\":false}"@
}

/// The body of the request that asks `model` a question.
pub fn request_body(model: &str, prompt: &str) -> (r: String)
    ensures
        r@ == request_text(model@, prompt@),
{
    let mut s = owned("{\"format\":\"json\",\"model\":");
    s.push_str(quote_json(model).as_str());
    s.push_str(",\"options\":{\"temperature\":0},\"prompt\":");
    s.push_str(quote_json(prompt).as_str());
    s.push_str(",\"stream\":false}");
    s
}

/// No control character of a text stands bare inside a JSON string, so neither a
/// line break nor anything like it can end one early.
pub proof fn law_json_strings_hold_no_controls(text: Seq<char>)
    ensures
        forall|i: int| 0 <= i < json_contents(text).len() ==> ' ' <= #[trigger] json_contents(
            text,
        )[i],
    decreases text.len(),
{
    if text.len() > 0 {
        law_json_strings_hold_no_controls(text.drop_last());
        let before = json_contents(text.drop_last());
        let c = text.last();
        let e = json_escaped(c);
        lemma_hex_prints(c as int, 4);
        assert forall|i: int| 0 <= i < e.len() implies ' ' <= #[trigger] e[i] by {
            if ' ' > c && e.len() == 6 && i >= 2 {
                assert(e[i] == hex(c as int, 4)[i - 2]);
            }
        }
        assert forall|i: int| 0 <= i < json_contents(text).len() implies ' '
            <= #[trigger] json_contents(text)[i] by {
            if i >= before.len() {
                assert(json_contents(text)[i] == e[i - before.len()]);
            } else {
                assert(json_contents(text)[i] == before[i]);
            }
        }
    }
}

proof fn lemma_hex_prints(n: int, width: int)
    ensures
        forall|i: int| 0 <= i < hex(n, width).len() ==> ' ' <= #[trigger] hex(n, width)[i],
    decreases width,
{
    if width > 0 {
        lemma_hex_prints(n / 16, width - 1);
        let before = hex(n / 16, width - 1);
        let d = n % 16;
        assert(0 <= d < 16);
        assert(' ' <= hex_digit(d)) by {
            if d < 10 {
                assert(hex_digit(d) as int == 48 + d);
            } else {
                assert(hex_digit(d) as int == 87 + d);
            }
        }
        assert forall|i: int| 0 <= i < hex(n, width).len() implies ' ' <= #[trigger] hex(
            n,
            width,
        )[i] by {
            if i < before.len() {
                assert(hex(n, width)[i] == before[i]);
            }
        }
    }
}

/// A reason with what it is about in front.
fn explained(what: &str, why: &str) -> (r: String)
    ensures
        r@ == what@ + why@,
{
    let mut s = owned(what);
    s.push_str(why);
    s
}

/// One field of a JSON object: its text when it is a string, and its items read
/// as whole numbers when it is an array.
#[derive(Debug, Clone)]
pub struct JsonField {
    pub key: String,
    pub text: Option<String>,
    pub numbers: Option<Vec<Option<u64>>>,
}

/// What a field of a JSON object holds.
pub struct Field {
    pub key: Seq<char>,
    pub text: Option<Seq<char>>,
    pub numbers: Option<Seq<Option<u64>>>,
}

impl View for JsonField {
    type V = Field;

    open spec fn view(&self) -> Field {
        Field {
            key: self.key@,
            text: optional_text(self.text),
            numbers: match self.numbers {
                Some(v) => Some(v@),
                None => None,
            },
        }
    }
}

/// What the fields of a JSON object hold.
pub open spec fn field_list(v: Seq<JsonField>) -> Seq<Field> {
    v.map_values(|f: JsonField| f@)
}

/// What parsing gave: the fields, or why there are none.
pub open spec fn fields_result(r: Result<Vec<JsonField>, String>) -> Result<
    Seq<Field>,
    Seq<char>,
> {
    match r {
        Ok(fields) => Ok(field_list(fields@)),
        Err(e) => Err(e@),
    }
}

/// The fields of the object that a text is in JSON: none for any other value,
/// and the reason when it is not JSON.
pub uninterp spec fn json_fields(text: Seq<char>) -> Result<Seq<Field>, Seq<char>>;

/// Parses a text with `serde_json::from_str` into a `serde_json::Value` and
/// takes out the fields it has as an object; of an error it takes the words that
/// `serde_json::Error` gives through `Display`. Claims only that the outcome
/// depends on nothing but the text.
#[verifier::external_body]
fn parse_fields(text: &str) -> (r: Result<Vec<JsonField>, String>)
    ensures
        fields_result(r) == json_fields(text@),
{
    let value: serde_json::Value = serde_json::from_str(text).map_err(|e| e.to_string())?;
    Ok(value.as_object().into_iter().flatten().map(|(k, v)| JsonField {
        key: k.clone(),
        text: v.as_str().map(|s| s.to_string()),
        numbers: v.as_array().map(|a| a.iter().map(|n| n.as_u64()).collect()),
    }).collect())
}

/// The field with this name.
pub open spec fn field(fields: Seq<Field>, key: Seq<char>) -> Option<Field>
    decreases fields.len(),
{
    if fields.len() == 0 {
        None
    } else if fields[0].key == key {
        Some(fields[0])
    } else {
        field(fields.skip(1), key)
    }
}

/// Looks a field up.
fn find_field<'a>(fields: &'a Vec<JsonField>, key: &str) -> (r: Option<&'a JsonField>)
    ensures
        match r {
            Some(f) => field(field_list(fields@), key@) == Some(f@),
            None => field(field_list(fields@), key@) is None,
        },
{
    let ghost all = field_list(fields@);
    let mut i: usize = 0;
    assert(all.skip(0) =~= all);
    while i < fields.len()
        invariant
            i <= fields@.len(),
            all == field_list(fields@),
            field(all, key@) == field(all.skip(i as int), key@),
        decreases fields@.len() - i,
    {
        assert(all.skip(i as int)[0] == fields@[i as int]@);
        assert(all.skip(i as int).skip(1) =~= all.skip(i + 1));
        if crate::text::same_str(fields[i].key.as_str(), key) {
            return Some(&fields[i]);
        }
        i += 1;
    }
    None
}

/// The text of a field, when it has one.
pub open spec fn field_text(fields: Seq<Field>, key: Seq<char>) -> Option<Seq<char>> {
    match field(fields, key) {
        Some(f) => f.text,
        None => None,
    }
}

/// The model's answer inside the API's envelope, or the error the API gave
/// instead.
pub open spec fn answer(fields: Seq<Field>) -> Result<Seq<char>, Seq<char>> {
    match (field_text(fields, "error"@), field_text(fields, "response"@)) {
        (Some(e), _) => Err(e),
        (None, Some(r)) => Ok(r),
        (None, None) => Err("Ollama's answer had no content"@),
    }
}

/// The views of both sides of a result.
pub open spec fn result_text(r: Result<String, String>) -> Result<Seq<char>, Seq<char>> {
    match r {
        Ok(s) => Ok(s@),
        Err(e) => Err(e@),
    }
}

/// Reads the model's answer out of the API's envelope.
pub fn answer_in(fields: &Vec<JsonField>) -> (r: Result<String, String>)
    ensures
        result_text(r) == answer(field_list(fields@)),
{
    if let Some(f) = find_field(fields, "error") {
        if let Some(e) = &f.text {
            return Err(e.clone());
        }
    }
    if let Some(f) = find_field(fields, "response") {
        if let Some(t) = &f.text {
            return Ok(t.clone());
        }
    }
    Err(owned("Ollama's answer had no content"))
}

/// Whether every item is a speaker: a whole number from 1.
pub open spec fn all_speakers(list: Seq<Option<u64>>) -> bool {
    forall|i: int|
        0 <= i < list.len() ==> match #[trigger] list[i] {
            Some(n) => n >= 1,
            None => false,
        }
}

/// The speakers in an answer, one for each turn asked about. Anything that comes
/// back the wrong length is rejected rather than padded — a short list silently
/// filled in would put words in the wrong person's mouth.
pub open spec fn speakers(fields: Seq<Field>, expected: int) -> Result<Seq<usize>, Seq<char>> {
    match listed_numbers(fields) {
        None => Err("Ollama's answer had no speaker list"@),
        Some(v) => if v.len() != expected {
            Err(
                "Ollama labelled "@ + decimal(v.len() as int) + " turns out of "@ + decimal(
                    expected,
                ),
            )
        } else if !all_speakers(v) {
            Err("Ollama gave a speaker that is not a number"@)
        } else {
            Ok(Seq::new(v.len(), |i: int| (v[i]->0) as usize))
        },
    }
}

/// The views of a list of speakers, or of the reason there is none.
pub open spec fn speakers_result(r: Result<Vec<usize>, String>) -> Result<Seq<usize>, Seq<char>> {
    match r {
        Ok(v) => Ok(v@),
        Err(e) => Err(e@),
    }
}

/// Reads the speakers out of an answer.
pub fn speakers_in(fields: &Vec<JsonField>, expected: usize) -> (r: Result<Vec<usize>, String>)
    ensures
        speakers_result(r) == speakers(field_list(fields@), expected as int),
{
    let list = match find_field(fields, "speakers") {
        Some(f) => match &f.numbers {
            Some(v) => v,
            None => return Err(owned("Ollama's answer had no speaker list")),
        },
        None => return Err(owned("Ollama's answer had no speaker list")),
    };
    if list.len() != expected {
        let mut s = owned("Ollama labelled ");
        push_decimal(&mut s, list.len() as u64);
        s.push_str(" turns out of ");
        push_decimal(&mut s, expected as u64);
        return Err(s);
    }
    let mut out: Vec<usize> = Vec::new();
    let mut i: usize = 0;
    while i < list.len()
        invariant
            i <= list@.len() == expected,
            field(field_list(fields@), "speakers"@) matches Some(f) && f.numbers == Some(list@),
            out@.len() == i,
            all_speakers(list@.take(i as int)),
            forall|k: int| 0 <= k < i ==> #[trigger] out@[k] == (list@[k]->0) as usize,
        decreases list@.len() - i,
    {
        let n: u64 = match list[i] {
            Some(n) => n,
            None => 0,
        };
        if n < 1 {
            assert(!all_speakers(list@)) by {
                let bad = list@[i as int];
            }
            return Err(owned("Ollama gave a speaker that is not a number"));
        }
        out.push(#[verifier::truncate] (n as usize));
        assert forall|k: int| 0 <= k < i + 1 implies match #[trigger] list@.take(i + 1)[k] {
            Some(n) => n >= 1,
            None => false,
        } by {
            if k < i {
                assert(list@.take(i as int)[k] == list@[k]);
            }
        }
        i += 1;
    }
    assert(list@.take(i as int) =~= list@);
    assert(out@ =~= Seq::new(list@.len(), |k: int| (list@[k]->0) as usize));
    Ok(out)
}

/// The speakers in Ollama's reply, or why there are none.
pub open spec fn reply_speakers(body: Seq<char>, expected: int) -> Result<Seq<usize>, Seq<char>> {
    match json_fields(body) {
        Err(why) => Err("Ollama sent something unreadable — "@ + why),
        Ok(envelope) => match answer(envelope) {
            Err(why) => Err(why),
            Ok(inner) => match json_fields(inner) {
                Err(why) => Err("Ollama's JSON did not parse — "@ + why),
                Ok(fields) => speakers(fields, expected),
            },
        },
    }
}

/// Pull the speaker numbers out of Ollama's reply.
///
/// Two layers of JSON: the API's envelope, whose `response` field is itself a
/// JSON string because that is what we asked the model for.
pub fn parse_speakers(body: &str, expected: usize) -> (r: Result<Vec<usize>, String>)
    ensures
        speakers_result(r) == reply_speakers(body@, expected as int),
{
    let envelope = match parse_fields(body) {
        Ok(f) => f,
        Err(e) => return Err(explained("Ollama sent something unreadable — ", e.as_str())),
    };
    let inner = match answer_in(&envelope) {
        Ok(t) => t,
        Err(e) => return Err(e),
    };
    match parse_fields(inner.as_str()) {
        Ok(fields) => speakers_in(&fields, expected),
        Err(e) => Err(explained("Ollama's JSON did not parse — ", e.as_str())),
    }
}

/// The numbers an answer lists, when it lists any.
pub open spec fn listed_numbers(fields: Seq<Field>) -> Option<Seq<Option<u64>>> {
    match field(fields, "speakers"@) {
        Some(f) => f.numbers,
        None => None,
    }
}

/// Whatever the model answers, speakers are accepted only one for each turn
/// asked about, each the number that was given, and never one below 1. (Where a
/// number does not fit the machine's own it loses its high bits, and such an
/// answer is left out.)
pub proof fn law_speakers_are_never_padded(fields: Seq<Field>, expected: int)
    requires
        listed_numbers(fields) matches Some(list) ==> forall|i: int|
            0 <= i < list.len() ==> ((#[trigger] list[i]) matches Some(n) ==> n <= usize::MAX),
    ensures
        speakers(fields, expected) matches Ok(v) ==> {
            &&& v.len() == expected
            &&& forall|i: int|
                0 <= i < v.len() ==> (#[trigger] v[i]) >= 1 && listed_numbers(fields)->0[i] == Some(
                    v[i] as u64,
                )
        },
{
    if let Ok(v) = speakers(fields, expected) {
        let list = listed_numbers(fields)->0;
        assert forall|i: int| 0 <= i < v.len() implies (#[trigger] v[i]) >= 1 && list[i] == Some(
            v[i] as u64,
        ) by {
            assert(list[i] is Some);
        }
    }
}

/// Turns with new speakers: everything else about them stays.
pub open spec fn relabelled(turns: Seq<Speech>, given: Seq<usize>) -> Seq<Speech> {
    Seq::new(
        given.len(),
        |i: int| Speech { start: turns[i].start, text: turns[i].text, speaker: given[i] },
    )
}

/// What to ask the model next: the question, and how many numbers it must be
/// answered with.
#[derive(Debug)]
pub struct Question {
    pub prompt: String,
    pub expected: usize,
}

/// The optional step: deciding which turns are the same person, in overlapping
/// chunks. The model is shown how the last few turns were labelled and asked to
/// keep going, which is what stops the numbering restarting every thirty turns.
pub struct Labelling {
    turns: Vec<Turn>,
    given: Vec<usize>,
}

impl Labelling {
    /// The turns being labelled.
    pub closed spec fn turns(self) -> Seq<Speech> {
        speeches(self.turns@)
    }

    /// The speakers decided so far.
    pub closed spec fn given(self) -> Seq<usize> {
        self.given@
    }

    /// No more speakers than turns.
    pub open spec fn wf(self) -> bool {
        self.given().len() <= self.turns().len()
    }

    /// Where the next chunk ends.
    pub open spec fn chunk_end(self) -> int {
        if self.turns().len() - self.given().len() > CHUNK_TURNS {
            self.given().len() + CHUNK_TURNS
        } else {
            self.turns().len() as int
        }
    }

    /// The turns decided so far that the next question repeats.
    pub open spec fn context(self) -> Seq<Speech> {
        let done = relabelled(self.turns(), self.given());
        if done.len() > CHUNK_OVERLAP {
            done.skip(done.len() - CHUNK_OVERLAP)
        } else {
            done
        }
    }

    /// Starts on a list of turns.
    pub fn new(turns: Vec<Turn>) -> (r: Self)
        ensures
            r.wf(),
            r.turns() == speeches(turns@),
            r.given() == Seq::<usize>::empty(),
    {
        Labelling { turns, given: Vec::new() }
    }

    /// The next question, until every turn has a speaker.
    pub fn question(&self) -> (r: Option<Question>)
        requires
            self.wf(),
        ensures
            match r {
                Some(q) => self.given().len() < self.turns().len() && q.expected == self.chunk_end()
                    - self.given().len() && q.prompt@ == prompt_text(
                    self.context(),
                    self.turns().subrange(self.given().len() as int, self.chunk_end()),
                ),
                None => self.given().len() == self.turns().len(),
            },
    {
        let start: usize = self.given.len();
        let total: usize = self.turns.len();
        if start >= total {
            return None;
        }
        let end: usize = if total - start > CHUNK_TURNS {
            start + CHUNK_TURNS
        } else {
            total
        };
        let mut context: Vec<Turn> = Vec::new();
        let first: usize = if start > CHUNK_OVERLAP {
            start - CHUNK_OVERLAP
        } else {
            0
        };
        let mut i: usize = first;
        while i < start
            invariant
                first <= i <= start == self.given@.len(),
                start < self.turns@.len(),
                speeches(context@) == relabelled(self.turns(), self.given()).subrange(
                    first as int,
                    i as int,
                ),
            decreases start - i,
        {
            let ghost before = context@;
            let turn = Turn {
                start: self.turns[i].start,
                text: self.turns[i].text.clone(),
                speaker: self.given[i],
            };
            context.push(turn);
            assert(speeches(context@) =~= speeches(before).push(
                relabelled(self.turns(), self.given())[i as int],
            ));
            assert(speeches(context@) =~= relabelled(self.turns(), self.given()).subrange(
                first as int,
                i + 1,
            ));
            i += 1;
        }
        assert(speeches(context@) =~= self.context());
        let chunk = slice_subrange(self.turns.as_slice(), start, end);
        assert(speeches(chunk@) =~= self.turns().subrange(start as int, end as int));
        let prompt = write_prompt(context.as_slice(), chunk);
        Some(Question { prompt, expected: end - start })
    }

    /// Takes the answer to the last question: a speaker for each of its turns.
    pub fn accept(&mut self, answer: Vec<usize>)
        requires
            old(self).wf(),
            answer@.len() == old(self).chunk_end() - old(self).given().len(),
        ensures
            final(self).wf(),
            final(self).turns() == old(self).turns(),
            final(self).given() == old(self).given() + answer@,
    {
        let mut answer = answer;
        self.given.append(&mut answer);
    }

    /// The turns with the speakers decided, once all of them are.
    pub fn finish(self) -> (r: Vec<Turn>)
        requires
            self.given().len() == self.turns().len(),
        ensures
            speeches(r@) == relabelled(self.turns(), self.given()),
    {
        let mut r: Vec<Turn> = Vec::new();
        let mut i: usize = 0;
        while i < self.turns.len()
            invariant
                i <= self.turns@.len() == self.given@.len(),
                speeches(r@) == relabelled(self.turns(), self.given()).take(i as int),
            decreases self.turns@.len() - i,
        {
            let ghost before = r@;
            let turn = Turn {
                start: self.turns[i].start,
                text: self.turns[i].text.clone(),
                speaker: self.given[i],
            };
            r.push(turn);
            assert(speeches(r@) =~= speeches(before).push(
                relabelled(self.turns(), self.given())[i as int],
            ));
            i += 1;
        }
        assert(speeches(r@) =~= relabelled(self.turns(), self.given()));
        r
    }
}

/// Labelling changes who says a turn and nothing else: the words and the times
/// stay as Whisper gave them.
pub proof fn law_labelling_keeps_the_words(turns: Seq<Speech>, given: Seq<usize>, i: int)
    requires
        0 <= i < given.len() == turns.len(),
    ensures
        relabelled(turns, given).len() == turns.len(),
        relabelled(turns, given)[i].text == turns[i].text,
        relabelled(turns, given)[i].start == turns[i].start,
        relabelled(turns, given)[i].speaker == given[i],
{
}

// ---- Output ---------------------------------------------------------------

/// A moment as `HH:MM:SS`, which is how you find your place in an episode.
pub open spec fn clock_text(millis: int) -> Seq<char> {
    let total = at_most(millis / 1000, u64::MAX as int);
    padded(total / 3600, 2) + seq![':'] + padded(total % 3600 / 60, 2) + seq![':'] + padded(
        total % 60,
        2,
    )
}

/// Milliseconds as `HH:MM:SS`, which is how you find your place in an episode.
pub fn clock(millis: u128) -> (r: String)
    ensures
        r@ == clock_text(millis as int),
{
    let seconds: u128 = millis / 1000;
    let total: u64 = if seconds > u64::MAX as u128 {
        u64::MAX
    } else {
        seconds as u64
    };
    let mut s = String::new();
    push_padded(&mut s, total / 3600, 2);
    assert(s@ =~= padded(total as int / 3600, 2));
    s.push(':');
    push_padded(&mut s, total % 3600 / 60, 2);
    s.push(':');
    push_padded(&mut s, total % 60, 2);
    assert(s@ =~= clock_text(millis as int));
    s
}

/// The turns as they are written out.
pub open spec fn written_turns(turns: Seq<Speech>) -> Seq<char>
    decreases turns.len(),
{
    if turns.len() == 0 {
        Seq::empty()
    } else {
        written_turns(turns.drop_last()) + ("["@ + clock_text(turns.last().start as int)
            + "] Speaker "@ + decimal(turns.last().speaker as int) + ": "@ + turns.last().text
            + "\n\n"@)
    }
}

/// Which kind of numbering a transcript got. Said in the file itself, because a
/// transcript outlives the window that made it and the difference between the
/// two matters when you read it.
pub open spec fn numbering_note(labelled: bool) -> Seq<char> {
    if labelled {
        "Speakers followed through the episode by Ollama — a number should mean the same person throughout. Check anything that matters.\n"@
    } else {
        "Speakers alternate between two voices. Whisper heard where the voice changed but not whose it is, so this is right for two people talking and wrong for three or more — and one missed change swaps the two names from that point on.\n"@
    }
}

/// A transcript: the episode's file, what made it, which kind of numbering it
/// got, and the turns.
pub open spec fn transcript_body(
    source: Seq<char>,
    program: Seq<char>,
    turns: Seq<Speech>,
    labelled: bool,
) -> Seq<char> {
    source + "\nTranscribed by "@ + program + " — whisper.cpp, "@ + crate::tools::MODEL_FILE@
        + "\n"@ + numbering_note(labelled) + "\n"@ + written_turns(turns)
}

/// Writes a transcript. `program` is the name and version of what made it.
pub fn transcript(source: &str, program: &str, turns: &Vec<Turn>, labelled: bool) -> (r: String)
    ensures
        r@ == transcript_body(source@, program@, speeches(turns@), labelled),
{
    let ghost all = speeches(turns@);
    let mut body = String::new();
    let mut i: usize = 0;
    assert(body@ =~= written_turns(all.take(0)));
    while i < turns.len()
        invariant
            i <= turns@.len(),
            all == speeches(turns@),
            body@ == written_turns(all.take(i as int)),
        decreases turns@.len() - i,
    {
        let mut line = owned("[");
        line.push_str(clock(turns[i].start).as_str());
        line.push_str("] Speaker ");
        push_decimal(&mut line, turns[i].speaker as u64);
        line.push_str(": ");
        line.push_str(turns[i].text.as_str());
        line.push_str("\n\n");
        body.push_str(line.as_str());
        proof {
            let upto = all.take(i + 1);
            assert(upto.drop_last() =~= all.take(i as int));
            assert(upto.last() == turns@[i as int]@);
        }
        i += 1;
    }
    assert(all.take(i as int) =~= all);
    let mut out = owned(source);
    out.push_str("\nTranscribed by ");
    out.push_str(program);
    out.push_str(" — whisper.cpp, ");
    out.push_str(crate::tools::MODEL_FILE);
    out.push_str("\n");
    out.push_str(
        if labelled {
            "Speakers followed through the episode by Ollama — a number should mean the same person throughout. Check anything that matters.\n"
        } else {
            "Speakers alternate between two voices. Whisper heard where the voice changed but not whose it is, so this is right for two people talking and wrong for three or more — and one missed change swaps the two names from that point on.\n"
        },
    );
    out.push_str("\n");
    out.push_str(body.as_str());
    out
}

/// The bytes of a transcript's file.
pub fn write_transcript(
    source: &str,
    program: &str,
    turns: &Vec<Turn>,
    labelled: bool,
    format: Format,
    style: Style,
) -> (r: Vec<u8>)
    ensures
        r@ == file_bytes(
            format,
            style,
            transcript_body(source@, program@, speeches(turns@), labelled),
        ),
{
    let body = transcript(source, program, turns, labelled);
    render(format, style, body.as_str())
}

/// A path without what comes after its last name: slashes, and names that are a
/// single dot.
pub open spec fn named_part(path: Seq<char>) -> Seq<char>
    decreases path.len(),
{
    if path.len() > 0 && path.last() == '/' {
        named_part(path.drop_last())
    } else if path.len() >= 2 && path.last() == '.' && path[path.len() - 2] == '/' {
        named_part(path.drop_last())
    } else {
        path
    }
}

/// A path with the extension of its last name replaced, or put on when it has
/// none. A path that does not end in a name stays as it is.
pub open spec fn with_extension(path: Seq<char>, extension: Seq<char>) -> Seq<char> {
    let p = named_part(path);
    let name = crate::text::after_last(p, '/');
    let dot = crate::text::last_of(name, '.');
    if name.len() == 0 || name == seq!['.'] || name == seq!['.', '.'] {
        path
    } else if dot > 0 {
        p.take(p.len() - name.len() + dot) + seq!['.'] + extension
    } else {
        p + seq!['.'] + extension
    }
}

proof fn lemma_last_of(s: Seq<char>, c: char)
    ensures
        -1 <= crate::text::last_of(s, c) < s.len(),
    decreases s.len(),
{
    if s.len() > 0 {
        lemma_last_of(s.drop_last(), c);
    }
}

/// Replaces the extension of a path.
pub fn replace_extension(path: &str, extension: &str) -> (r: String)
    ensures
        r@ == with_extension(path@, extension@),
{
    let cs = chars_of(path);
    let mut n: usize = cs.len();
    assert(cs@.take(n as int) =~= cs@);
    while n > 0 && (cs[n - 1] == '/' || (n >= 2 && cs[n - 1] == '.' && cs[n - 2] == '/'))
        invariant
            n <= cs@.len(),
            named_part(cs@) == named_part(cs@.take(n as int)),
        decreases n,
    {
        assert(cs@.take(n as int).drop_last() =~= cs@.take(n - 1));
        n -= 1;
    }
    let p = slice_subrange(cs.as_slice(), 0, n);
    assert(p@ =~= cs@.take(n as int));
    assert(p@ == named_part(path@));
    let at = crate::text::find_after_last(p, '/');
    let name = slice_subrange(p, at, p.len());
    assert(name@ =~= crate::text::after_last(p@, '/'));
    let dot = crate::text::find_after_last(name, '.');
    proof {
        lemma_last_of(name@, '.');
        if name@.len() == 1 {
            assert(name@ =~= seq![name@[0]]);
        }
        if name@.len() == 2 {
            assert(name@ =~= seq![name@[0], name@[1]]);
        }
    }
    if name.len() == 0 || (name.len() == 1 && name[0] == '.') || (name.len() == 2 && name[0] == '.'
        && name[1] == '.') {
        return owned(path);
    }
    let keep: usize = if dot > 1 {
        at + dot - 1
    } else {
        p.len()
    };
    let mut s = crate::text::string_between(p, 0, keep);
    assert(s@ =~= p@.take(keep as int));
    s.push('.');
    s.push_str(extension);
    proof {
        if dot <= 1 {
            assert(p@.take(keep as int) =~= p@);
        }
        assert(s@ =~= with_extension(path@, extension@));
    }
    s
}

/// Where a transcript goes: beside the audio, same name, the chosen extension.
/// The path is one with forward slashes.
pub fn transcript_path(audio: &str, format: Format) -> (r: String)
    ensures
        r@ == with_extension(audio@, format.suffix()),
{
    replace_extension(audio, format.extension())
}

// ---- Files ----------------------------------------------------------------

/// One thing found in a folder.
#[derive(Clone, Debug)]
pub struct FolderEntry {
    pub name: String,
    pub is_file: bool,
}

/// Whether a text comes no later than another, character by character.
pub open spec fn no_later(a: Seq<char>, b: Seq<char>) -> bool
    decreases a.len(),
{
    if a.len() == 0 {
        true
    } else if b.len() == 0 {
        false
    } else if a[0] != b[0] {
        a[0] < b[0]
    } else {
        no_later(a.skip(1), b.skip(1))
    }
}

/// Whether a list is in order.
pub open spec fn in_order(v: Seq<Seq<char>>) -> bool {
    forall|i: int, j: int| 0 <= i <= j < v.len() ==> no_later(#[trigger] v[i], #[trigger] v[j])
}

proof fn lemma_no_later_self(a: Seq<char>)
    ensures
        no_later(a, a),
    decreases a.len(),
{
    if a.len() > 0 {
        lemma_no_later_self(a.skip(1));
    }
}

proof fn lemma_no_later_chain(a: Seq<char>, b: Seq<char>, c: Seq<char>)
    requires
        no_later(a, b),
        no_later(b, c),
    ensures
        no_later(a, c),
    decreases a.len(),
{
    if a.len() > 0 && a[0] == b[0] && b[0] == c[0] {
        lemma_no_later_chain(a.skip(1), b.skip(1), c.skip(1));
    }
}

proof fn lemma_no_later_either(a: Seq<char>, b: Seq<char>)
    ensures
        no_later(a, b) || no_later(b, a),
    decreases a.len(),
{
    if a.len() > 0 && b.len() > 0 && a[0] == b[0] {
        lemma_no_later_either(a.skip(1), b.skip(1));
    }
}

/// Whether a text comes no later than another.
fn is_no_later(a: &[char], b: &[char]) -> (r: bool)
    ensures
        r == no_later(a@, b@),
{
    let mut i: usize = 0;
    assert(a@.skip(0) =~= a@);
    assert(b@.skip(0) =~= b@);
    while i < a.len()
        invariant
            i <= a@.len(),
            i <= b@.len(),
            no_later(a@, b@) == no_later(a@.skip(i as int), b@.skip(i as int)),
        decreases a@.len() - i,
    {
        if i == b.len() {
            return false;
        }
        if a[i] != b[i] {
            return a[i] < b[i];
        }
        assert(a@.skip(i as int).skip(1) =~= a@.skip(i + 1));
        assert(b@.skip(i as int).skip(1) =~= b@.skip(i + 1));
        i += 1;
    }
    true
}

/// The media files among the first `n` things in a folder.
pub open spec fn media_names(entries: Seq<FolderEntry>, n: int) -> Seq<Seq<char>>
    decreases n,
{
    if n <= 0 {
        Seq::empty()
    } else {
        let e = entries[n - 1];
        let before = media_names(entries, n - 1);
        if e.is_file && crate::util::media_file(e.name@) {
            before.push(e.name@)
        } else {
            before
        }
    }
}

/// Puts a name into a list that is in order, after everything that is no later.
fn insert_name(list: &mut Vec<String>, name: String)
    requires
        in_order(texts(old(list)@)),
    ensures
        in_order(texts(final(list)@)),
        texts(final(list)@).to_multiset() == texts(old(list)@).to_multiset().insert(name@),
{
    let ghost before = texts(list@);
    let cs = chars_of(name.as_str());
    let mut at: usize = list.len();
    while at > 0
        invariant
            at <= list@.len(),
            cs@ == name@,
            before == texts(list@),
            forall|k: int| at <= k < before.len() ==> no_later(name@, #[trigger] before[k]),
        ensures
            at > 0 ==> no_later(before[at - 1], name@),
        decreases at,
    {
        let other = chars_of(list[at - 1].as_str());
        assert(before[at - 1] == list@[at - 1]@);
        if is_no_later(other.as_slice(), cs.as_slice()) {
            break;
        }
        proof {
            lemma_no_later_either(name@, other@);
        }
        at -= 1;
    }
    let ghost added = name@;
    let ghost split = at as int;
    list.insert(at, name);
    proof {
        let after = texts(list@);
        assert(after =~= before.insert(split, added));
        before.insert_ensures(split, added);
        assert forall|i: int, j: int| 0 <= i <= j < after.len() implies no_later(
            #[trigger] after[i],
            #[trigger] after[j],
        ) by {
            let a = if i < split { i } else { i - 1 };
            let b = if j < split { j } else { j - 1 };
            if i == split && j == split {
                lemma_no_later_self(added);
            } else if i == split {
                assert(after[j] == before[b]);
            } else if j == split {
                assert(after[i] == before[a]);
                if split > 0 {
                    assert(no_later(before[a], before[split - 1]));
                    lemma_no_later_chain(before[a], before[split - 1], added);
                }
            } else {
                assert(after[i] == before[a] && after[j] == before[b]);
            }
        }
        lemma_insert_multiset(before, split, added);
    }
}

proof fn lemma_insert_multiset(s: Seq<Seq<char>>, at: int, x: Seq<char>)
    requires
        0 <= at <= s.len(),
    ensures
        s.insert(at, x).to_multiset() == s.to_multiset().insert(x),
{
    broadcast use vstd::seq_lib::group_to_multiset_ensures;

    assert(s.insert(at, x).to_multiset() =~= s.to_multiset().insert(x));
}

/// The audio files in a folder, sorted, ignoring anything we cannot feed to
/// FFmpeg.
///
/// One level only. A podcast library is a folder of folders, and walking the lot
/// would turn "open this show" into "transcribe everything you have ever
/// downloaded" — which is hours of work nobody asked for.
pub fn audio_in(entries: &Vec<FolderEntry>) -> (r: Vec<String>)
    ensures
        in_order(texts(r@)),
        texts(r@).to_multiset() == media_names(entries@, entries@.len() as int).to_multiset(),
{
    let mut r: Vec<String> = Vec::new();
    let mut i: usize = 0;
    assert(texts(r@) =~= media_names(entries@, 0));
    while i < entries.len()
        invariant
            i <= entries@.len(),
            in_order(texts(r@)),
            texts(r@).to_multiset() == media_names(entries@, i as int).to_multiset(),
        decreases entries@.len() - i,
    {
        if entries[i].is_file && crate::util::is_media(entries[i].name.as_str()) {
            proof {
                let before = media_names(entries@, i as int);
                broadcast use vstd::seq_lib::group_to_multiset_ensures;

                assert(before.push(entries@[i as int].name@).to_multiset()
                    =~= before.to_multiset().insert(entries@[i as int].name@));
            }
            insert_name(&mut r, entries[i].name.clone());
        }
        i += 1;
    }
    r
}

// ---- Running the programs -------------------------------------------------

/// What FFmpeg is told.
pub open spec fn converting(source: Seq<char>, wav: Seq<char>) -> Seq<Seq<char>> {
    seq![
        "-nostdin"@,
        "-y"@,
        "-i"@,
        source,
        "-ar"@,
        "16000"@,
        "-ac"@,
        "1"@,
        "-c:a"@,
        "pcm_s16le"@,
        wav,
    ]
}

/// What FFmpeg is told: whatever the episode is, into the one format Whisper
/// reads.
pub fn convert_args(source: &str, wav: &str) -> (r: Vec<String>)
    ensures
        texts(r@) == seq![
            "-nostdin"@,
            "-y"@,
            "-i"@,
            source@,
            "-ar"@,
            "16000"@,
            "-ac"@,
            "1"@,
            "-c:a"@,
            "pcm_s16le"@,
            wav@,
        ],
        texts(r@) == converting(source@, wav@),
{
    let mut r: Vec<String> = Vec::new();
    r.push(owned("-nostdin"));
    r.push(owned("-y"));
    r.push(owned("-i"));
    r.push(owned(source));
    r.push(owned("-ar"));
    r.push(owned("16000"));
    r.push(owned("-ac"));
    r.push(owned("1"));
    r.push(owned("-c:a"));
    r.push(owned("pcm_s16le"));
    r.push(owned(wav));
    assert(texts(r@) =~= seq![
        "-nostdin"@,
        "-y"@,
        "-i"@,
        source@,
        "-ar"@,
        "16000"@,
        "-ac"@,
        "1"@,
        "-c:a"@,
        "pcm_s16le"@,
        wav@,
    ]);
    r
}

/// What Whisper is told.
pub open spec fn listening(model: Seq<char>, wav: Seq<char>) -> Seq<Seq<char>> {
    seq!["-m"@, model, "-f"@, wav, "-tdrz"@, "-bs"@, "1"@]
}

/// What Whisper is told. `-tdrz` is the flag this whole design rests on: without
/// it the model never emits a speaker mark and every episode comes out as one
/// long block. Greedy decoding rather than the default five-beam search: the
/// beams optimise the sentence, and the speaker mark is a token that rarely
/// helps the sentence, so the better-scoring path is usually the one that drops
/// it.
pub fn listen_args(model: &str, wav: &str) -> (r: Vec<String>)
    ensures
        texts(r@) == seq!["-m"@, model@, "-f"@, wav@, "-tdrz"@, "-bs"@, "1"@],
        texts(r@) == listening(model@, wav@),
{
    let mut r: Vec<String> = Vec::new();
    r.push(owned("-m"));
    r.push(owned(model));
    r.push(owned("-f"));
    r.push(owned(wav));
    r.push(owned("-tdrz"));
    r.push(owned("-bs"));
    r.push(owned("1"));
    assert(texts(r@) =~= seq!["-m"@, model@, "-f"@, wav@, "-tdrz"@, "-bs"@, "1"@]);
    r
}

/// How long converted audio is, in milliseconds.
pub open spec fn played_millis(wav_bytes: int) -> int {
    wav_bytes * 1000 / 32_000
}

/// How long converted audio is, in milliseconds: 16 kHz, mono, 16-bit.
pub fn audio_millis(wav_bytes: u64) -> (r: u64)
    ensures
        r == wav_bytes as int * 1000 / 32_000,
        r == played_millis(wav_bytes as int),
{
    assert(wav_bytes as int * 1000 / 32_000 == wav_bytes as int / 32);
    wav_bytes / 32
}

/// The last line that says anything, trimmed.
pub open spec fn last_words(ls: Seq<Seq<char>>) -> Option<Seq<char>>
    decreases ls.len(),
{
    if ls.len() == 0 {
        None
    } else if trim(ls.last()).len() > 0 {
        Some(trim(ls.last()))
    } else {
        last_words(ls.drop_last())
    }
}

/// Why FFmpeg failed. It says so on stderr, and the last line of that is nearly
/// always the reason.
pub fn convert_reason(stderr: &str) -> (r: String)
    ensures
        r@ == match last_words(lines(stderr@)) {
            Some(w) => w,
            None => "FFmpeg could not read it"@,
        },
{
    let cs = chars_of(stderr);
    let ls = split_lines(cs.as_slice());
    let ghost all = views(ls@);
    let mut n: usize = ls.len();
    assert(all.take(n as int) =~= all);
    while n > 0
        invariant
            n <= ls@.len(),
            all == views(ls@),
            all == lines(stderr@),
            last_words(all) == last_words(all.take(n as int)),
        decreases n,
    {
        assert(all.take(n as int).last() == ls@[n - 1]@);
        assert(all.take(n as int).drop_last() =~= all.take(n - 1));
        let words = trimmed(ls[n - 1].as_slice());
        if words.len() > 0 {
            return string_of(words);
        }
        n -= 1;
    }
    owned("FFmpeg could not read it")
}

/// The last line that owns up to something.
pub open spec fn last_complaint(ls: Seq<Seq<char>>) -> Option<Seq<char>>
    decreases ls.len(),
{
    if ls.len() == 0 {
        None
    } else if crate::tools::has_text(ls.last(), "error"@) || crate::tools::has_text(
        ls.last(),
        "failed"@,
    ) {
        Some(ls.last())
    } else {
        last_complaint(ls.drop_last())
    }
}

/// Why Whisper failed, going by what it wrote to stderr.
pub fn listen_reason(stderr: &Vec<String>) -> (r: String)
    ensures
        r@ == match last_complaint(texts(stderr@)) {
            Some(w) => w,
            None => "Whisper stopped without transcribing"@,
        },
{
    let ghost all = texts(stderr@);
    let mut n: usize = stderr.len();
    assert(all.take(n as int) =~= all);
    while n > 0
        invariant
            n <= stderr@.len(),
            all == texts(stderr@),
            last_complaint(all) == last_complaint(all.take(n as int)),
        decreases n,
    {
        assert(all.take(n as int).last() == stderr@[n - 1]@);
        assert(all.take(n as int).drop_last() =~= all.take(n - 1));
        let line = stderr[n - 1].as_str();
        if crate::tools::contains_text(line, "error") || crate::tools::contains_text(
            line,
            "failed",
        ) {
            return owned(line);
        }
        n -= 1;
    }
    owned("Whisper stopped without transcribing")
}

/// The digit that writes `d` in base sixteen.
pub open spec fn hex_digit(d: int) -> char {
    if d < 10 {
        (48 + d) as char
    } else {
        (87 + d) as char
    }
}

/// A number in `width` digits of base sixteen.
pub open spec fn hex(n: int, width: int) -> Seq<char>
    decreases width,
{
    if width <= 0 {
        Seq::empty()
    } else {
        hex(n / 16, width - 1).push(hex_digit(n % 16))
    }
}

fn push_hex(s: &mut String, n: u64, width: usize)
    ensures
        final(s)@ == old(s)@ + hex(n as int, width as int),
    decreases width,
{
    if width > 0 {
        push_hex(s, n / 16, width - 1);
        let d: u8 = (n % 16) as u8;
        s.push(
            if d < 10 {
                (48u8 + d) as char
            } else {
                (87u8 + d) as char
            },
        );
        assert(s@ =~= old(s)@ + hex(n as int, width as int));
    } else {
        assert(s@ =~= old(s)@ + hex(n as int, width as int));
    }
}

/// The name of a scratch directory. It carries randomness rather than the
/// process id: a guessable name in a shared directory is one somebody else can
/// create first.
pub fn scratch_name(random: u64) -> (r: String)
    ensures
        r@ == "podbatch-transcribe-"@ + hex(random as int, 16),
{
    let mut s = owned("podbatch-transcribe-");
    push_hex(&mut s, random, 16);
    s
}

/// What came of trying to make a directory.
#[derive(Clone, Copy, Debug, PartialEq, Eq, Structural)]
pub enum Made {
    Created,
    /// Something was there already.
    Taken,
    Refused,
}

/// What to do about it.
#[derive(Clone, Copy, Debug, PartialEq, Eq, Structural)]
pub enum ScratchStep {
    Use,
    TryAnother,
    GiveUp,
}

/// What to do after the attempt with this number, counted from 1.
pub open spec fn next_step(attempt: u32, made: Made) -> ScratchStep {
    match made {
        Made::Created => ScratchStep::Use,
        Made::Refused => ScratchStep::GiveUp,
        Made::Taken => if attempt < 8 {
            ScratchStep::TryAnother
        } else {
            ScratchStep::GiveUp
        },
    }
}

/// What to do after the attempt with this number, counted from 1. Eight attempts
/// is seven more than should ever be needed; they are there because the one
/// thing we must not do on a name that is taken is use it.
pub fn after_attempt(attempt: u32, made: Made) -> (r: ScratchStep)
    ensures
        r == match made {
            Made::Created => ScratchStep::Use,
            Made::Refused => ScratchStep::GiveUp,
            Made::Taken => if attempt < 8 {
                ScratchStep::TryAnother
            } else {
                ScratchStep::GiveUp
            },
        },
        r == next_step(attempt, made),
{
    match made {
        Made::Created => ScratchStep::Use,
        Made::Refused => ScratchStep::GiveUp,
        Made::Taken => if attempt < 8 {
            ScratchStep::TryAnother
        } else {
            ScratchStep::GiveUp
        },
    }
}

// ---- The run --------------------------------------------------------------

/// What one run of the tab was asked to do.
#[derive(Clone, Debug)]
pub struct Settings {
    /// The names of the audio files that were ticked, in the order they are
    /// listed.
    pub files: Vec<String>,
    /// Whether to spend the extra time asking Ollama to keep a speaker's number
    /// attached to the same person. Off, or Ollama missing, means turns are
    /// numbered by when the voice changed — which is still a transcript, just a
    /// blunter one.
    pub label_speakers: bool,
    /// Leave a file alone when its transcript is already sitting next to it.
    pub skip_existing: bool,
    /// What the transcript is written as, and how big and bold the text is.
    pub format: Format,
    pub style: Style,
}

/// Where a file has got to. `Working` carries which of the three programs is
/// running, because they take very different lengths of time and "Transcribing"
/// sitting there for ten minutes is only alarming if you think it means
/// "Converting".
#[derive(Clone, Debug, PartialEq, Eq)]
pub enum Status {
    Pending,
    Working(Stage),
    Done,
    Skipped,
    Failed(String),
}

/// What a status says.
pub enum Standing {
    Pending,
    Working(Stage),
    Done,
    Skipped,
    Failed(Seq<char>),
}

impl View for Status {
    type V = Standing;

    open spec fn view(&self) -> Standing {
        match self {
            Status::Pending => Standing::Pending,
            Status::Working(s) => Standing::Working(*s),
            Status::Done => Standing::Done,
            Status::Skipped => Standing::Skipped,
            Status::Failed(e) => Standing::Failed(e@),
        }
    }
}

/// What the window is told as the run goes on.
#[derive(Debug)]
pub enum Update {
    Status { file: usize, status: Status },
    /// How far through the audio Whisper has got, and how long that is.
    Progress { file: usize, heard_ms: u64, total_ms: u64 },
    /// A line of transcript as it appears, so the box fills while it works.
    ///
    /// Not tagged with the file it came from: the output box is one running
    /// column and the progress bar underneath already names the episode in
    /// hand, so the tag would have nowhere to be shown.
    Line { text: String },
    Log(String),
    Problem(String),
    Finished { cancelled: bool },
}

/// What an update says.
pub enum Report {
    Status { file: int, status: Standing },
    Progress { file: int, heard_ms: u64, total_ms: u64 },
    Line { text: Seq<char> },
    Log(Seq<char>),
    Problem(Seq<char>),
    Finished { cancelled: bool },
}

impl View for Update {
    type V = Report;

    open spec fn view(&self) -> Report {
        match self {
            Update::Status { file, status } => Report::Status {
                file: *file as int,
                status: status@,
            },
            Update::Progress { file, heard_ms, total_ms } => Report::Progress {
                file: *file as int,
                heard_ms: *heard_ms,
                total_ms: *total_ms,
            },
            Update::Line { text } => Report::Line { text: text@ },
            Update::Log(m) => Report::Log(m@),
            Update::Problem(m) => Report::Problem(m@),
            Update::Finished { cancelled } => Report::Finished { cancelled: *cancelled },
        }
    }
}

/// What a list of updates says.
pub open spec fn reports(v: Seq<Update>) -> Seq<Report> {
    v.map_values(|u: Update| u@)
}

/// How far along a segment is, when the length of the audio is known. No segment
/// is further along than the whole of it.
pub open spec fn progress_at(file: int, start: u128, total_ms: u64) -> Seq<Report> {
    if total_ms > 0 {
        seq![
            Report::Progress {
                file,
                heard_ms: at_most(start as int, total_ms as int) as u64,
                total_ms,
            },
        ]
    } else {
        Seq::empty()
    }
}

/// What a segment says to the window: how far along it is, when the length of
/// the audio is known, and the words.
pub fn segment_updates(file: usize, segment: &Segment, total_ms: u64) -> (r: Vec<Update>)
    ensures
        reports(r@) == progress_at(file as int, segment.start, total_ms) + seq![
            Report::Line { text: segment.text@ },
        ],
{
    let mut r: Vec<Update> = Vec::new();
    if total_ms > 0 {
        let heard_ms: u64 = if segment.start > total_ms as u128 {
            total_ms
        } else {
            segment.start as u64
        };
        r.push(Update::Progress { file, heard_ms, total_ms });
    }
    r.push(Update::Line { text: segment.text.clone() });
    assert(reports(r@) =~= progress_at(file as int, segment.start, total_ms) + seq![
        Report::Line { text: segment.text@ },
    ]);
    r
}

/// What has to be done next.
#[derive(Clone, Copy, Debug, PartialEq, Eq, Structural)]
pub enum Action {
    /// See whether the file's transcript is already there.
    Look { file: usize },
    Convert { file: usize },
    Listen { file: usize },
    Label { file: usize },
    Write { file: usize, labelled: bool },
    Finish { cancelled: bool },
}

/// What came of doing it.
#[derive(Debug)]
pub enum Event {
    /// The run starts: whether there is somewhere to put the converted audio,
    /// and whether Ollama answers.
    Begin { scratch: Result<(), String>, ollama: bool },
    Looked { there: bool },
    /// `ran` says that FFmpeg itself failed rather than never having run.
    Converted { outcome: Result<(), String>, ran: bool },
    /// How many turns were heard.
    Heard(Result<usize, String>),
    Labelled(Result<(), String>),
    Written(Result<(), String>),
}

/// A run over a list of files.
pub struct Job {
    pub files: Vec<String>,
    pub targets: Vec<String>,
    pub skip_existing: bool,
    pub label_speakers: bool,
    /// Whether speakers are being followed: asked for, and Ollama answering.
    /// Asked once, not once per file: a run that quietly stopped labelling half
    /// way would be worse than one that never started.
    pub labelling: bool,
    pub file: usize,
}

/// The text at a place in a list, or nothing when there is no such place.
pub open spec fn text_at(v: Seq<String>, i: int) -> Seq<char> {
    if 0 <= i < v.len() {
        v[i]@
    } else {
        Seq::empty()
    }
}

/// A copy of the text at a place in a list.
fn copy_at(v: &Vec<String>, i: usize) -> (r: String)
    ensures
        r@ == text_at(v@, i as int),
{
    if i < v.len() {
        v[i].clone()
    } else {
        let r = String::new();
        assert(r@ =~= Seq::<char>::empty());
        r
    }
}

impl Job {
    /// One target for each file.
    pub open spec fn wf(self) -> bool {
        self.targets@.len() == self.files@.len()
    }

    /// The name of the file in hand.
    pub open spec fn name(self) -> Seq<char> {
        text_at(self.files@, self.file as int)
    }

    /// The file after this one.
    pub open spec fn following(self) -> usize {
        if self.file < self.files@.len() {
            (self.file + 1) as usize
        } else {
            self.file
        }
    }

    /// What starting on a file means: nothing more once the run is stopped or
    /// out of files, a look for the transcript where that could save the work,
    /// and otherwise the work itself.
    pub open spec fn start(self, file: usize, stopped: bool) -> Action {
        if stopped || file >= self.files@.len() {
            Action::Finish { cancelled: stopped }
        } else if self.skip_existing {
            Action::Look { file }
        } else {
            Action::Convert { file }
        }
    }

    /// What is said as an action starts.
    pub open spec fn announced(action: Action) -> Seq<Report> {
        match action {
            Action::Convert { file } => seq![
                Report::Status {
                    file: file as int,
                    status: Standing::Working(Stage::Converting),
                },
            ],
            Action::Listen { file } => seq![
                Report::Status {
                    file: file as int,
                    status: Standing::Working(Stage::Transcribing),
                },
            ],
            Action::Label { file } => seq![
                Report::Status { file: file as int, status: Standing::Working(Stage::Labelling) },
            ],
            Action::Finish { cancelled } => seq![Report::Finished { cancelled }],
            _ => Seq::empty(),
        }
    }

    /// What is said of an event before the next action is announced.
    pub open spec fn remarks(self, event: Event, stopped: bool) -> Seq<Report> {
        let file = self.file as int;
        match event {
            Event::Begin { scratch: Err(e), .. } => seq![
                Report::Problem("Nowhere to put the converted audio — "@ + e@),
            ],
            Event::Begin { scratch: Ok(_), ollama } => if !self.label_speakers {
                Seq::empty()
            } else if ollama {
                seq![
                    Report::Log(
                        "Speakers will be kept consistent using Ollama ("@
                            + crate::tools::OLLAMA_MODEL@ + ")"@,
                    ),
                ]
            } else {
                seq![
                    Report::Problem(
                        "Ollama is not answering, so speakers will be numbered turn by turn instead of being followed through the episode."@,
                    ),
                ]
            },
            Event::Looked { there } => if there {
                seq![
                    Report::Status { file, status: Standing::Skipped },
                    Report::Log(self.name() + " — already transcribed"@),
                ]
            } else {
                Seq::empty()
            },
            Event::Converted { outcome: Ok(_), .. } => Seq::empty(),
            Event::Converted { outcome: Err(e), ran } => (if ran {
                seq![Report::Log("FFmpeg could not read "@ + self.name())]
            } else {
                Seq::empty()
            }) + self.failure(e@, stopped),
            Event::Heard(Ok(turns)) => if turns == 0 {
                self.failure("no speech found"@, stopped)
            } else {
                Seq::empty()
            },
            Event::Heard(Err(e)) => self.failure(e@, stopped),
            Event::Labelled(Ok(_)) => Seq::empty(),
            Event::Labelled(Err(e)) => seq![
                Report::Problem(
                    "Could not follow the speakers through "@ + self.name() + " ("@ + e@
                        + ") — numbering each turn instead"@,
                ),
            ],
            Event::Written(Ok(_)) => seq![
                Report::Status { file, status: Standing::Done },
                Report::Log(self.name() + " → "@ + text_at(self.targets@, file)),
            ],
            Event::Written(Err(e)) => self.failure(e@, stopped),
        }
    }

    /// What is said when a file failed. A cancelled run is not a failed file:
    /// marking it failed would leave the list claiming something went wrong with
    /// an episode that was simply never reached.
    pub open spec fn failure(self, why: Seq<char>, stopped: bool) -> Seq<Report> {
        if stopped {
            Seq::empty()
        } else {
            seq![
                Report::Status { file: self.file as int, status: Standing::Failed(why) },
                Report::Problem(self.name() + " — "@ + why),
            ]
        }
    }

    /// What an event leads to.
    pub open spec fn next_action(self, event: Event, stopped: bool) -> Action {
        match event {
            Event::Begin { scratch: Err(_), .. } => Action::Finish { cancelled: false },
            Event::Begin { scratch: Ok(_), .. } => self.start(0, stopped),
            Event::Looked { there: false } => Action::Convert { file: self.file },
            Event::Converted { outcome: Ok(_), .. } => Action::Listen { file: self.file },
            Event::Heard(Ok(turns)) if turns > 0 => if self.labelling {
                Action::Label { file: self.file }
            } else {
                Action::Write { file: self.file, labelled: false }
            },
            // A labelling failure costs the nice version of the answer, not the
            // answer: the transcript is written out with the blunter numbering.
            Event::Labelled(outcome) => Action::Write { file: self.file, labelled: outcome is Ok },
            _ => self.start(self.following(), stopped),
        }
    }

    /// A run over the files of `settings`.
    pub fn new(settings: &Settings) -> (r: Self)
        ensures
            r.wf(),
            texts(r.files@) == texts(settings.files@),
            forall|i: int|
                0 <= i < settings.files@.len() ==> (#[trigger] r.targets@[i])@ == with_extension(
                    settings.files@[i]@,
                    settings.format.suffix(),
                ),
            r.skip_existing == settings.skip_existing,
            r.label_speakers == settings.label_speakers,
            !r.labelling,
            r.file == 0,
    {
        let mut files: Vec<String> = Vec::new();
        let mut targets: Vec<String> = Vec::new();
        let mut i: usize = 0;
        while i < settings.files.len()
            invariant
                i <= settings.files@.len(),
                files@.len() == i,
                targets@.len() == i,
                forall|k: int| 0 <= k < i ==> (#[trigger] files@[k])@ == settings.files@[k]@,
                forall|k: int|
                    0 <= k < i ==> (#[trigger] targets@[k])@ == with_extension(
                        settings.files@[k]@,
                        settings.format.suffix(),
                    ),
            decreases settings.files@.len() - i,
        {
            files.push(settings.files[i].clone());
            targets.push(transcript_path(settings.files[i].as_str(), settings.format));
            i += 1;
        }
        assert(texts(files@) =~= texts(settings.files@));
        Job {
            files,
            targets,
            skip_existing: settings.skip_existing,
            label_speakers: settings.label_speakers,
            labelling: false,
            file: 0,
        }
    }

    /// Takes what came of the last action and says what to do next, and what to
    /// tell the window. `stopped` says whether the run has been cancelled.
    pub fn step(&mut self, event: Event, stopped: bool) -> (r: (Action, Vec<Update>))
        ensures
            final(self).files == old(self).files,
            final(self).targets == old(self).targets,
            final(self).skip_existing == old(self).skip_existing,
            final(self).label_speakers == old(self).label_speakers,
            final(self).labelling == (match event {
                Event::Begin { ollama, .. } => old(self).label_speakers && ollama,
                _ => old(self).labelling,
            }),
            final(self).file == (match r.0 {
                Action::Look { file } => file,
                Action::Convert { file } => file,
                _ => old(self).file,
            }),
            r.0 == old(self).next_action(event, stopped),
            reports(r.1@) == old(self).remarks(event, stopped) + Job::announced(r.0),
    {
        let ghost before = *self;
        let mut said: Vec<Update> = Vec::new();
        let file: usize = self.file;
        let after: usize = if file < self.files.len() {
            file + 1
        } else {
            file
        };
        let ghost asked = event;
        let action = match event {
            Event::Begin { scratch, ollama } => {
                self.labelling = self.label_speakers && ollama;
                match scratch {
                    Err(e) => {
                        said.push(
                            Update::Problem(
                                explained("Nowhere to put the converted audio — ", e.as_str()),
                            ),
                        );
                        Action::Finish { cancelled: false }
                    },
                    Ok(_) => {
                        if self.label_speakers {
                            if ollama {
                                let mut m = owned("Speakers will be kept consistent using Ollama (");
                                m.push_str(crate::tools::OLLAMA_MODEL);
                                m.push_str(")");
                                said.push(Update::Log(m));
                            } else {
                                said.push(
                                    Update::Problem(
                                        owned(
                                            "Ollama is not answering, so speakers will be numbered turn by turn instead of being followed through the episode.",
                                        ),
                                    ),
                                );
                            }
                        }
                        self.first_action(0, stopped)
                    },
                }
            },
            Event::Looked { there } => if there {
                said.push(Update::Status { file, status: Status::Skipped });
                let mut m = copy_at(&self.files, file);
                m.push_str(" — already transcribed");
                said.push(Update::Log(m));
                self.first_action(after, stopped)
            } else {
                Action::Convert { file }
            },
            Event::Converted { outcome, ran } => match outcome {
                Ok(_) => Action::Listen { file },
                Err(e) => {
                    if ran {
                        let name = copy_at(&self.files, file);
                        said.push(
                            Update::Log(explained("FFmpeg could not read ", name.as_str())),
                        );
                    }
                    self.say_failure(&mut said, e, stopped);
                    self.first_action(after, stopped)
                },
            },
            Event::Heard(outcome) => match outcome {
                Ok(turns) => if turns == 0 {
                    self.say_failure(&mut said, owned("no speech found"), stopped);
                    self.first_action(after, stopped)
                } else if self.labelling {
                    Action::Label { file }
                } else {
                    Action::Write { file, labelled: false }
                },
                Err(e) => {
                    self.say_failure(&mut said, e, stopped);
                    self.first_action(after, stopped)
                },
            },
            Event::Labelled(outcome) => match outcome {
                Ok(_) => Action::Write { file, labelled: true },
                Err(e) => {
                    let mut m = owned("Could not follow the speakers through ");
                    m.push_str(copy_at(&self.files, file).as_str());
                    m.push_str(" (");
                    m.push_str(e.as_str());
                    m.push_str(") — numbering each turn instead");
                    said.push(Update::Problem(m));
                    Action::Write { file, labelled: false }
                },
            },
            Event::Written(outcome) => match outcome {
                Ok(_) => {
                    said.push(Update::Status { file, status: Status::Done });
                    let mut m = copy_at(&self.files, file);
                    m.push_str(" → ");
                    m.push_str(copy_at(&self.targets, file).as_str());
                    said.push(Update::Log(m));
                    self.first_action(after, stopped)
                },
                Err(e) => {
                    self.say_failure(&mut said, e, stopped);
                    self.first_action(after, stopped)
                },
            },
        };
        assert(reports(said@) =~= before.remarks(asked, stopped));
        let ghost remarks = said@;
        match action {
            Action::Look { file } => {
                self.file = file;
            },
            Action::Convert { file } => {
                self.file = file;
                said.push(Update::Status { file, status: Status::Working(Stage::Converting) });
            },
            Action::Listen { file } => {
                said.push(Update::Status { file, status: Status::Working(Stage::Transcribing) });
            },
            Action::Label { file } => {
                said.push(Update::Status { file, status: Status::Working(Stage::Labelling) });
            },
            Action::Write { .. } => {},
            Action::Finish { cancelled } => {
                said.push(Update::Finished { cancelled });
            },
        }
        assert(reports(said@) =~= reports(remarks) + Job::announced(action));
        (action, said)
    }

    /// What starting on a file means.
    fn first_action(&self, file: usize, stopped: bool) -> (r: Action)
        ensures
            r == self.start(file, stopped),
    {
        if stopped || file >= self.files.len() {
            Action::Finish { cancelled: stopped }
        } else if self.skip_existing {
            Action::Look { file }
        } else {
            Action::Convert { file }
        }
    }

    /// Says that the file in hand failed, unless the run was stopped.
    fn say_failure(&self, said: &mut Vec<Update>, why: String, stopped: bool)
        ensures
            reports(final(said)@) == reports(old(said)@) + self.failure(why@, stopped),
    {
        if !stopped {
            let ghost before = said@;
            let mut m = copy_at(&self.files, self.file);
            m.push_str(" — ");
            m.push_str(why.as_str());
            said.push(Update::Status { file: self.file, status: Status::Failed(why) });
            said.push(Update::Problem(m));
            assert(reports(said@) =~= reports(before) + self.failure(why@, stopped));
        } else {
            assert(reports(said@) =~= reports(said@) + self.failure(why@, stopped));
        }
    }
}

/// A run that has been stopped starts on no further file: whatever was going on
/// is the last thing to finish.
pub proof fn law_a_stopped_run_starts_nothing(job: Job, event: Event)
    ensures
        match job.next_action(event, true) {
            Action::Look { .. } => false,
            Action::Convert { file } => file == job.file && event matches Event::Looked {
                there: false,
            },
            _ => true,
        },
{
}

/// The file says that speakers were followed only when they were.
pub proof fn law_transcripts_own_up_to_their_numbering(job: Job, event: Event, stopped: bool)
    ensures
        match job.next_action(event, stopped) {
            Action::Write { labelled, .. } => labelled == (event matches Event::Labelled(Ok(_))),
            _ => true,
        },
{
}

/// Nothing that goes wrong with Ollama keeps a transcript from being written.
pub proof fn law_labelling_never_costs_the_transcript(job: Job, outcome: Result<(), String>, stopped: bool)
    ensures
        job.next_action(Event::Labelled(outcome), stopped) is Write,
{
}

} // verus!
