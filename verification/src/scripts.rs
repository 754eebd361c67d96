//! What a transcript keeps of what Whisper printed, and what Ollama is told.

use crate::figures::says;
use crate::text::after_last;
use crate::text::decimal;
use crate::text::digits_value;
use crate::text::last_of;
use crate::text::lemma_trim_start;
use crate::text::padded;
use crate::text::starts_with;
use crate::text::trim;
use crate::text::trim_end;
use crate::text::trim_start;
use crate::text::white;
use crate::timestamps::lemma_decimal;
use crate::timestamps::lemma_first_is;
use crate::timestamps::lemma_padded;
use crate::timestamps::lemma_untrimmed;
use crate::tools::has_text;
use crate::transcribe::clipped;
use crate::transcribe::clock_text;
use crate::transcribe::converting;
use crate::transcribe::decided_lines;
use crate::transcribe::ends_with;
use crate::transcribe::field;
use crate::transcribe::hex;
use crate::transcribe::hex_digit;
use crate::transcribe::in_order;
use crate::transcribe::index_of;
use crate::transcribe::json_contents;
use crate::transcribe::json_escaped;
use crate::transcribe::json_string;
use crate::transcribe::last_complaint;
use crate::transcribe::law_stamps_read_back;
use crate::transcribe::listed_numbers;
use crate::transcribe::listening;
use crate::transcribe::media_names;
use crate::transcribe::named_part;
use crate::transcribe::next_step;
use crate::transcribe::no_later;
use crate::transcribe::numbered_lines;
use crate::transcribe::played_millis;
use crate::transcribe::progress_at;
use crate::transcribe::request_text;
use crate::transcribe::segment_on;
use crate::transcribe::speakers;
use crate::transcribe::stamp_text;
use crate::transcribe::timestamp;
use crate::transcribe::transcript_body;
use crate::transcribe::with_extension;
use crate::transcribe::written_turns;
use crate::transcribe::Action;
use crate::transcribe::Event;
use crate::transcribe::Field;
use crate::transcribe::FolderEntry;
use crate::transcribe::Job;
use crate::transcribe::Labelling;
use crate::transcribe::Made;
use crate::transcribe::Report;
use crate::transcribe::ScratchStep;
use crate::transcribe::Speech;
use crate::transcribe::Standing;
use crate::transcribe::Utterance;
use crate::transcribe::LAST_MOMENT;
use crate::util::media_file;
use vstd::prelude::*;

verus! {

// ---- What Whisper printed -------------------------------------------------

/// A line of Whisper's output: when a stretch of speech starts and ends, and what
/// was said in it.
pub open spec fn whisper_line(start: Seq<char>, end: Seq<char>, said: Seq<char>) -> Seq<char> {
    "["@ + start + " --> "@ + end + "]"@ + said
}

proof fn lemma_index(a: Seq<char>, p: Seq<char>, b: Seq<char>)
    requires
        p.len() > 0,
        !a.contains(p[0]),
    ensures
        index_of(a + p + b, p) == a.len(),
    decreases a.len(),
{
    let s = a + p + b;
    if a.len() == 0 {
        assert(s.take(p.len() as int) =~= p);
    } else {
        if starts_with(s, p) {
            assert(s.take(p.len() as int)[0] == s[0]);
            assert(a[0] == s[0]);
            assert(a.contains(a[0]));
        }
        let t = a.skip(1);
        assert(!t.contains(p[0])) by {
            if t.contains(p[0]) {
                let k = choose|k: int| 0 <= k < t.len() && t[k] == p[0];
                assert(a[k + 1] == p[0]);
            }
        }
        lemma_index(t, p, b);
        assert(s.skip(1) =~= t + p + b);
    }
}

proof fn lemma_stamp_chars(h: int, m: int, s: int, ms: int, mark: char)
    requires
        0 <= h && 0 <= m && 0 <= s && 0 <= ms,
        mark == '.' || mark == ',',
    ensures
        ({
            let t = stamp_text(h, m, s, ms, mark);
            &&& t.len() > 0
            &&& forall|i: int|
                0 <= i < t.len() ==> {
                    let c = #[trigger] t[i];
                    '0' <= c <= '9' || c == ':' || c == '.' || c == ','
                }
        }),
{
    let (a, b, c, d) = (padded(h, 2), padded(m, 2), padded(s, 2), padded(ms, 3));
    lemma_padded(h, 2);
    lemma_padded(m, 2);
    lemma_padded(s, 2);
    lemma_padded(ms, 3);
    let z = c + seq![mark] + d;
    assert forall|i: int| 0 <= i < z.len() implies '0' <= #[trigger] z[i] <= '9' || z[i] == '.'
        || z[i] == ',' by {
        if i < c.len() {
            assert('0' <= c[i] <= '9');
        } else if i > c.len() {
            assert('0' <= d[i - c.len() - 1] <= '9');
        }
    }
    let y = b + seq![':'] + z;
    assert forall|i: int| 0 <= i < y.len() implies '0' <= #[trigger] y[i] <= '9' || y[i] == '.'
        || y[i] == ',' || y[i] == ':' by {
        if i < b.len() {
            assert('0' <= b[i] <= '9');
        } else if i > b.len() {
            assert(y[i] == z[i - b.len() - 1]);
        }
    }
    let x = a + seq![':'] + y;
    assert forall|i: int| 0 <= i < x.len() implies '0' <= #[trigger] x[i] <= '9' || x[i] == '.'
        || x[i] == ',' || x[i] == ':' by {
        if i < a.len() {
            assert('0' <= a[i] <= '9');
        } else if i > a.len() {
            assert(x[i] == y[i - a.len() - 1]);
        }
    }
}

proof fn lemma_segment(start: Seq<char>, end: Seq<char>, said: Seq<char>, at: int)
    requires
        start.len() > 0,
        forall|i: int|
            0 <= i < start.len() ==> {
                let c = #[trigger] start[i];
                '0' <= c <= '9' || c == ':' || c == '.' || c == ','
            },
        !end.contains(']'),
        said.len() > 0 ==> !white(said.last()),
        timestamp(start) == Some(at),
    ensures
        segment_on(whisper_line(start, end, said)) == (if ends_with(trim(said), "[SPEAKER_TURN]"@) {
            Some(
                Utterance {
                    start: at as u128,
                    text: trim(trim(said).take(trim(said).len() - "[SPEAKER_TURN]"@.len())),
                    turn_ends: true,
                },
            )
        } else {
            Some(Utterance { start: at as u128, text: trim(said), turn_ends: false })
        }),
{
    reveal_strlit("[");
    reveal_strlit("]");
    reveal_strlit(" --> ");
    reveal_strlit("-->");
    let line = whisper_line(start, end, said);
    let stamps = start + " --> "@ + end;
    assert(line =~= seq!['['] + stamps + seq![']'] + said);
    assert(line[0] == '[');
    assert(!white(line.last())) by {
        if said.len() > 0 {
            assert(line.last() == said.last());
        } else {
            assert(line.last() == ']');
        }
    }
    lemma_untrimmed(line);
    let rest = line.skip(1);
    assert(rest =~= stamps + seq![']'] + said);
    let n = stamps.len() as int;
    let set = seq![']'];
    assert(set[0] == ']');
    assert forall|i: int| 0 <= i < n implies !set.contains(#[trigger] rest[i]) by {
        assert(rest[i] == stamps[i]);
        if i < start.len() {
            assert(stamps[i] == start[i]);
        } else if i >= start.len() + 5 {
            assert(stamps[i] == end[i - start.len() - 5]);
        } else {
            assert(stamps[i] == " --> "@[i - start.len()]);
        }
    }
    assert(set.contains(rest[n]));
    lemma_first_is(rest, set, n);
    assert(rest.take(n) =~= stamps);
    assert(rest.skip(n + 1) =~= said);
    let front = start + seq![' '];
    let back = seq![' '] + end;
    assert(stamps =~= front + "-->"@ + back);
    assert(!front.contains('-'));
    lemma_index(front, "-->"@, back);
    assert(stamps.take(front.len() as int) =~= front);
    assert(trim(front) == start) by {
        assert(front[0] == start[0]);
        assert(!white(start[0]) && !white(start[start.len() - 1]));
        assert(front.drop_last() =~= start);
        assert(trim_start(front) == front);
        assert(trim_end(front) == trim_end(start));
        lemma_untrimmed(start);
    }
}

/// What Whisper prints of a stretch of speech is read back: when it starts, what
/// was said with the space around it taken off, and whether the speaker changed
/// at its end, which a mark after the words says.
pub proof fn law_segments_read_back(
    h: int,
    m: int,
    s: int,
    ms: int,
    mark: char,
    end: Seq<char>,
    said: Seq<char>,
)
    requires
        0 <= h,
        0 <= m,
        0 <= s,
        0 <= ms < 1000,
        mark == '.' || mark == ',',
        ((h * 60 + m) * 60 + s) * 1000 + ms <= LAST_MOMENT,
        !end.contains(']'),
    ensures
        segment_on(
            whisper_line(stamp_text(h, m, s, ms, mark), end, said + "[SPEAKER_TURN]"@),
        ) == Some(
            Utterance {
                start: (((h * 60 + m) * 60 + s) * 1000 + ms) as u128,
                text: trim(said),
                turn_ends: true,
            },
        ),
        (said.len() > 0 ==> !white(said.last())) && !ends_with(trim(said), "[SPEAKER_TURN]"@)
            ==> segment_on(whisper_line(stamp_text(h, m, s, ms, mark), end, said)) == Some(
            Utterance {
                start: (((h * 60 + m) * 60 + s) * 1000 + ms) as u128,
                text: trim(said),
                turn_ends: false,
            },
        ),
{
    reveal_strlit("[SPEAKER_TURN]");
    let t = stamp_text(h, m, s, ms, mark);
    let at = ((h * 60 + m) * 60 + s) * 1000 + ms;
    let sign = "[SPEAKER_TURN]"@;
    law_stamps_read_back(h, m, s, ms, mark);
    lemma_stamp_chars(h, m, s, ms, mark);
    let whole = said + sign;
    assert(whole.last() == ']');
    lemma_segment(t, end, whole, at);
    lemma_trim_before(said, sign);
    let kept = trim_start(said);
    assert(trim(whole) == kept + sign);
    assert((kept + sign).skip(kept.len() as int) =~= sign);
    assert((kept + sign).take(kept.len() as int) =~= kept);
    lemma_trim_start(said);
    assert(trim_start(kept) == kept);
    if said.len() > 0 ==> !white(said.last()) {
        lemma_segment(t, end, said, at);
    }
}

proof fn lemma_trim_before(a: Seq<char>, b: Seq<char>)
    requires
        b.len() > 0,
        !white(b[0]),
        !white(b.last()),
    ensures
        trim(a + b) == trim_start(a) + b,
    decreases a.len(),
{
    let s = a + b;
    if a.len() > 0 && white(a[0]) {
        lemma_trim_before(a.drop_first(), b);
        assert(s.drop_first() =~= a.drop_first() + b);
        assert(s[0] == a[0]);
    } else {
        if a.len() > 0 {
            assert(s[0] == a[0]);
        } else {
            assert(s =~= b);
        }
        assert(s.last() == b.last());
        lemma_untrimmed(s);
        assert(trim_start(a) == a);
    }
}

// ---- What is written ------------------------------------------------------

/// A turn in a transcript: when it starts, to the second, who speaks, and what
/// they say.
pub open spec fn turn_line(h: int, m: int, s: int, speaker: int, text: Seq<char>) -> Seq<char> {
    "["@ + padded(h, 2) + seq![':'] + padded(m, 2) + seq![':'] + padded(s, 2) + "] Speaker "@
        + decimal(speaker) + ": "@ + text + "\n\n"@
}

/// A transcript is written turn by turn: more turns add what they say at the end
/// and change nothing before it, and each says when it starts, who speaks and
/// what they say.
pub proof fn law_transcripts_go_turn_by_turn(
    turns: Seq<Speech>,
    h: int,
    m: int,
    s: int,
    ms: int,
    t: Speech,
)
    requires
        0 <= h,
        0 <= m < 60,
        0 <= s < 60,
        0 <= ms < 1000,
        ((h * 60 + m) * 60 + s) * 1000 + ms <= LAST_MOMENT,
        t.start == ((h * 60 + m) * 60 + s) * 1000 + ms,
    ensures
        written_turns(turns.push(t)) == written_turns(turns) + turn_line(
            h,
            m,
            s,
            t.speaker as int,
            t.text,
        ),
        written_turns(Seq::empty()) == Seq::<char>::empty(),
{
    law_stamps_read_back(h, m, s, ms, '.');
    assert(turns.push(t).drop_last() =~= turns);
    let clock = padded(h, 2) + seq![':'] + padded(m, 2) + seq![':'] + padded(s, 2);
    assert(clock_text(t.start as int) == clock);
    assert("["@ + clock + "] Speaker "@ + decimal(t.speaker as int) + ": "@ + t.text + "\n\n"@
        =~= turn_line(h, m, s, t.speaker as int, t.text));
}

/// A transcript opens with the episode's file on a line of its own, says how its
/// speakers were told apart, and then holds the turns to the last.
pub proof fn law_transcripts_hold_their_turns(
    source: Seq<char>,
    program: Seq<char>,
    turns: Seq<Speech>,
    labelled: bool,
)
    ensures
        ({
            let body = transcript_body(source, program, turns, labelled);
            let head = transcript_body(source, program, Seq::empty(), labelled);
            &&& body == head + written_turns(turns)
            &&& starts_with(body, source + seq!['\n'])
        }),
        transcript_body(source, program, turns, true) != transcript_body(
            source,
            program,
            turns,
            false,
        ),
{
    reveal_strlit("\nTranscribed by ");
    let body = transcript_body(source, program, turns, labelled);
    let head = transcript_body(source, program, Seq::empty(), labelled);
    assert(head + written_turns(turns) =~= body);
    assert(body.take(source.len() as int + 1) =~= source + seq!['\n']);
    reveal_strlit(
        "Speakers followed through the episode by Ollama — a number should mean the same person throughout. Check anything that matters.\n",
    );
    reveal_strlit(
        "Speakers alternate between two voices. Whisper heard where the voice changed but not whose it is, so this is right for two people talking and wrong for three or more — and one missed change swaps the two names from that point on.\n",
    );
    let a = transcript_body(source, program, turns, true);
    let b = transcript_body(source, program, turns, false);
    let front = source + "\nTranscribed by "@ + program + " — whisper.cpp, "@
        + crate::tools::MODEL_FILE@ + "\n"@;
    assert(a[front.len() as int + 9] == 'f');
    assert(b[front.len() as int + 9] == 'a');
}

// ---- What Ollama is told --------------------------------------------------

/// What is already decided is repeated turn by turn, each with its speaker, and
/// the turns to label are numbered from 1 in order.
pub proof fn law_prompts_go_turn_by_turn(turns: Seq<Speech>, t: Speech)
    ensures
        decided_lines(turns.push(t)) == decided_lines(turns) + ("Speaker "@ + decimal(
            t.speaker as int,
        ) + ": "@ + clipped(t.text) + "\n"@),
        numbered_lines(turns.push(t)) == numbered_lines(turns) + (decimal(turns.len() as int + 1) + ". "@
            + clipped(t.text) + "\n"@),
        decided_lines(Seq::empty()) == Seq::<char>::empty(),
        numbered_lines(Seq::empty()) == Seq::<char>::empty(),
        digits_value(decimal(turns.len() as int + 1)) == turns.len() + 1,
{
    assert(turns.push(t).drop_last() =~= turns);
    lemma_decimal(turns.len() as int + 1);
}

/// A turn is cut only when it is long, and then keeps its beginning.
pub proof fn law_long_turns_keep_their_beginning(text: Seq<char>)
    ensures
        text.len() <= 240 ==> clipped(text) == text,
        text.len() > 240 ==> clipped(text).len() == 241 && clipped(text).take(240) == text.take(240)
            && clipped(text)[240] == '…',
{
    if text.len() > 240 {
        assert(clipped(text).take(240) =~= text.take(240));
    }
}

/// Turns are asked about thirty at a time at the most, the next ones each time,
/// until none is left; and the question repeats the last four decided, or all of
/// them where there are fewer, with the speakers they were given.
pub proof fn law_chunks_cover_the_turns(l: Labelling)
    requires
        l.wf(),
    ensures
        l.given().len() < l.turns().len() ==> l.given().len() < l.chunk_end() <= l.turns().len(),
        l.chunk_end() - l.given().len() <= 30,
        l.chunk_end() == l.turns().len() || l.chunk_end() - l.given().len() == 30,
        l.context().len() == (if l.given().len() < 4 {
            l.given().len()
        } else {
            4
        }),
        forall|i: int|
            0 <= i < l.context().len() ==> {
                let k = l.given().len() - l.context().len() + i;
                &&& (#[trigger] l.context()[i]).speaker == l.given()[k]
                &&& l.context()[i].text == l.turns()[k].text
            },
{
}

/// An answer that gives each turn a number from 1 is taken as it stands.
pub proof fn law_full_answers_are_taken(fields: Seq<Field>, list: Seq<Option<u64>>)
    requires
        listed_numbers(fields) == Some(list),
        forall|i: int|
            0 <= i < list.len() ==> ((#[trigger] list[i]) matches Some(n) && 1 <= n <= usize::MAX),
    ensures
        speakers(fields, list.len() as int) matches Ok(v) && v.len() == list.len() && forall|i: int|
            0 <= i < v.len() ==> list[i] == Some((#[trigger] v[i]) as u64),
{
    assert(crate::transcribe::all_speakers(list)) by {
        assert forall|i: int| 0 <= i < list.len() implies match #[trigger] list[i] {
            Some(n) => n >= 1,
            None => false,
        } by {
            assert(list[i] matches Some(n) && 1 <= n <= usize::MAX);
        }
    }
    let v = speakers(fields, list.len() as int)->Ok_0;
    assert forall|i: int| 0 <= i < v.len() implies list[i] == Some((#[trigger] v[i]) as u64) by {
        assert(list[i] matches Some(n) && 1 <= n <= usize::MAX);
    }
}

// ---- JSON -----------------------------------------------------------------

/// What a hexadecimal digit is worth.
pub open spec fn hex_value(c: char) -> int {
    if '0' <= c <= '9' {
        c as int - 48
    } else {
        c as int - 87
    }
}

/// The characters of a JSON string, as numbers, up to the quote that ends it, and
/// what follows.
pub open spec fn json_read(s: Seq<char>) -> (Seq<int>, Seq<char>)
    decreases s.len(),
{
    if s.len() == 0 || s[0] == '"' {
        (Seq::empty(), s)
    } else if s[0] == '\\' && s.len() >= 6 && s[1] == 'u' {
        let rest = json_read(s.skip(6));
        let n = hex_value(s[2]) * 4096 + hex_value(s[3]) * 256 + hex_value(s[4]) * 16 + hex_value(
            s[5],
        );
        (seq![n] + rest.0, rest.1)
    } else if s[0] == '\\' && s.len() >= 2 {
        let rest = json_read(s.skip(2));
        let n = if s[1] == 'b' {
            8
        } else if s[1] == 't' {
            9
        } else if s[1] == 'n' {
            10
        } else if s[1] == 'f' {
            12
        } else if s[1] == 'r' {
            13
        } else {
            s[1] as int
        };
        (seq![n] + rest.0, rest.1)
    } else {
        let rest = json_read(s.skip(1));
        (seq![s[0] as int] + rest.0, rest.1)
    }
}

/// The characters of a text as numbers.
pub open spec fn char_codes(s: Seq<char>) -> Seq<int> {
    s.map_values(|c: char| c as int)
}

proof fn lemma_hex_digit(d: int)
    requires
        0 <= d < 16,
    ensures
        hex_value(hex_digit(d)) == d,
{
}

proof fn lemma_json_char(c: char, rest: Seq<char>)
    ensures
        json_read(json_escaped(c) + rest) == (seq![c as int] + json_read(rest).0, json_read(rest).1),
{
    let e = json_escaped(c);
    let s = e + rest;
    if ' ' > c {
        reveal_with_fuel(hex, 5);
        let n = c as int;
        lemma_hex_digit(n % 16);
        lemma_hex_digit(n / 16 % 16);
        lemma_hex_digit(0);
        assert(n / 16 / 16 == 0);
        assert(hex(n, 4) =~= seq![
            hex_digit(0),
            hex_digit(0),
            hex_digit(n / 16 % 16),
            hex_digit(n % 16),
        ]);
    }
    assert(e.len() == 1 || e.len() == 2 || e.len() == 6);
    assert(s.skip(e.len() as int) =~= rest);
    assert(s[0] == e[0]);
    if e.len() > 1 {
        assert(s[1] == e[1]);
    }
    if e.len() == 6 {
        assert(s[2] == e[2] && s[3] == e[3] && s[4] == e[4] && s[5] == e[5]);
    }
}

proof fn lemma_json_front(s: Seq<char>)
    requires
        s.len() > 0,
    ensures
        json_contents(s) == json_escaped(s[0]) + json_contents(s.skip(1)),
    decreases s.len(),
{
    if s.len() == 1 {
        assert(s.drop_last() =~= Seq::empty());
        assert(s.skip(1) =~= Seq::empty());
        assert(json_contents(s) =~= json_escaped(s[0]) + json_contents(s.skip(1)));
    } else {
        lemma_json_front(s.drop_last());
        assert(s.drop_last().skip(1) =~= s.skip(1).drop_last());
        assert(s.skip(1).last() == s.last());
        assert(json_contents(s) =~= json_escaped(s[0]) + json_contents(s.skip(1)));
    }
}

/// A text written as a JSON string stands between quotes and reads back as
/// itself, whatever is in it, and ends at its own quote.
pub proof fn law_json_strings_read_back(text: Seq<char>, rest: Seq<char>)
    ensures
        json_string(text).len() >= 2,
        json_string(text)[0] == '"',
        json_read((json_string(text) + rest).skip(1)) == (char_codes(text), seq!['"'] + rest),
{
    reveal_strlit("\"");
    let tail = seq!['"'] + rest;
    assert((json_string(text) + rest).skip(1) =~= json_contents(text) + tail);
    lemma_json_read(text, tail);
}

proof fn lemma_json_read(text: Seq<char>, tail: Seq<char>)
    requires
        tail.len() > 0,
        tail[0] == '"',
    ensures
        json_read(json_contents(text) + tail) == (char_codes(text), tail),
    decreases text.len(),
{
    if text.len() == 0 {
        assert(json_contents(text) + tail =~= tail);
        assert(char_codes(text) =~= Seq::empty());
    } else {
        lemma_json_front(text);
        let t = text.skip(1);
        lemma_json_read(t, tail);
        lemma_json_char(text[0], json_contents(t) + tail);
        assert(json_contents(text) + tail =~= json_escaped(text[0]) + (json_contents(t) + tail));
        assert(seq![text[0] as int] + char_codes(t) =~= char_codes(text));
    }
}

// ---- Files ----------------------------------------------------------------

/// A transcript stands beside its episode: the folder and the name stay, and only
/// what follows the last dot of the name changes.
pub proof fn law_transcripts_stand_beside_their_episode(
    dir: Seq<char>,
    name: Seq<char>,
    old_ext: Seq<char>,
    new_ext: Seq<char>,
)
    requires
        dir.len() == 0 || dir.last() == '/',
        name.len() > 0,
        !name.contains('/'),
        old_ext.len() > 0,
        !old_ext.contains('/'),
        !old_ext.contains('.'),
    ensures
        with_extension(dir + name + seq!['.'] + old_ext, new_ext) == dir + name + seq!['.']
            + new_ext,
{
    let file = name + seq!['.'] + old_ext;
    let path = dir + name + seq!['.'] + old_ext;
    assert(path =~= dir + file);
    assert(path.last() == old_ext.last());
    assert(old_ext.contains(old_ext.last()));
    assert(named_part(path) == path);
    let k = dir.len() as int;
    assert(last_of(path, '/') == k - 1) by {
        assert forall|i: int| k - 1 < i < path.len() implies #[trigger] path[i] != '/' by {
            assert(path[i] == file[i - k]);
            if i - k < name.len() {
                assert(name.contains(name[i - k]));
            } else if i - k > name.len() {
                assert(old_ext.contains(old_ext[i - k - name.len() - 1]));
            }
        }
        if k > 0 {
            assert(path[k - 1] == dir.last());
        }
        lemma_last_is(path, '/', k - 1);
    }
    assert(after_last(path, '/') =~= file);
    let n = name.len() as int;
    assert forall|i: int| n < i < file.len() implies #[trigger] file[i] != '.' by {
        assert(file[i] == old_ext[i - n - 1]);
        assert(old_ext.contains(old_ext[i - n - 1]));
    }
    assert(file[n] == '.');
    lemma_last_is(file, '.', n);
    assert(file.len() >= 3);
    assert(path.take(path.len() - file.len() + n) =~= dir + name);
}

proof fn lemma_last_is(s: Seq<char>, c: char, n: int)
    requires
        -1 <= n < s.len(),
        n >= 0 ==> s[n] == c,
        forall|i: int| n < i < s.len() ==> #[trigger] s[i] != c,
    ensures
        last_of(s, c) == n,
    decreases s.len(),
{
    if s.len() > 0 && s.last() != c {
        assert(s.drop_last().len() == s.len() - 1);
        lemma_last_is(s.drop_last(), c, n);
    }
}

// ---- A run ----------------------------------------------------------------

/// Whether an event ends the work on the file in hand: its transcript was there,
/// some step of it failed, nothing was said in it, or its transcript is written.
pub open spec fn ends_the_file(event: Event) -> bool {
    match event {
        Event::Looked { there } => there,
        Event::Converted { outcome, .. } => outcome is Err,
        Event::Heard(Ok(turns)) => turns == 0,
        Event::Heard(Err(_)) => true,
        Event::Written(_) => true,
        _ => false,
    }
}

/// Whether an action is the first on a file: a look for its transcript where what
/// is there is left alone, and the work itself where it is not.
pub open spec fn begins(job: Job, action: Action, file: int) -> bool {
    if job.skip_existing {
        action matches Action::Look { file: f } && f == file
    } else {
        action matches Action::Convert { file: f } && f == file
    }
}

/// The files are taken one after another, each once: the run begins with the
/// first, whatever ends the work on one leads to the next, and after the last it
/// finishes.
pub proof fn law_files_are_taken_in_turn(job: Job, event: Event)
    requires
        job.file < job.files@.len(),
        ends_the_file(event),
    ensures
        job.file + 1 < job.files@.len() ==> begins(
            job,
            job.next_action(event, false),
            job.file + 1,
        ),
        job.file + 1 == job.files@.len() ==> job.next_action(event, false) == (Action::Finish {
            cancelled: false,
        }),
{
    assert(job.files.len() <= usize::MAX);
    match event {
        Event::Looked { there } => {},
        Event::Converted { outcome, .. } => {},
        Event::Heard(outcome) => {},
        Event::Written(outcome) => {},
        _ => {},
    }
}

/// The run begins with the first file, and without any or without somewhere to
/// work it is over.
pub proof fn law_a_run_begins_with_the_first_file(job: Job, scratch: Result<(), String>, ollama: bool)
    ensures
        scratch is Ok && job.files@.len() > 0 ==> begins(
            job,
            job.next_action(Event::Begin { scratch, ollama }, false),
            0,
        ),
        scratch is Err || job.files@.len() == 0 ==> job.next_action(
            Event::Begin { scratch, ollama },
            false,
        ) == (Action::Finish { cancelled: false }),
{
}

/// A file goes through its stages in order: converted, listened to, its speakers
/// followed where that is being done, and written out; and a transcript claims
/// that its speakers were followed exactly when they were.
pub proof fn law_a_file_goes_through_its_stages(
    job: Job,
    ran: bool,
    turns: usize,
    labelled: Result<(), String>,
    stopped: bool,
)
    requires
        turns > 0,
    ensures
        job.next_action(Event::Looked { there: false }, stopped) == (Action::Convert {
            file: job.file,
        }),
        job.next_action(Event::Converted { outcome: Ok(()), ran }, stopped) == (Action::Listen {
            file: job.file,
        }),
        job.next_action(Event::Heard(Ok(turns)), stopped) == (if job.labelling {
            Action::Label { file: job.file }
        } else {
            Action::Write { file: job.file, labelled: false }
        }),
        job.next_action(Event::Labelled(labelled), stopped) matches Action::Write {
            file,
            labelled: claimed,
        } && file == job.file && (claimed <==> labelled is Ok),
{
}

/// What becomes of a file is told of that file: done once its transcript is
/// written, skipped when it was there, and failed, with the reason, when a step
/// failed and the run was not stopped.
pub proof fn law_every_outcome_is_told(job: Job, why: String, ran: bool)
    ensures
        ({
            let file = job.file as int;
            let failed = Report::Status { file, status: Standing::Failed(why@) };
            &&& job.remarks(Event::Written(Ok(())), false).contains(
                Report::Status { file, status: Standing::Done },
            )
            &&& job.remarks(Event::Looked { there: true }, false).contains(
                Report::Status { file, status: Standing::Skipped },
            )
            &&& job.remarks(Event::Converted { outcome: Err(why), ran }, false).contains(failed)
            &&& job.remarks(Event::Heard(Err(why)), false).contains(failed)
            &&& job.remarks(Event::Written(Err(why)), false).contains(failed)
        }),
{
    let file = job.file as int;
    let failed = Report::Status { file, status: Standing::Failed(why@) };
    let a = job.remarks(Event::Written(Ok(())), false);
    assert(a[0] == (Report::Status { file, status: Standing::Done }));
    let b = job.remarks(Event::Looked { there: true }, false);
    assert(b[0] == (Report::Status { file, status: Standing::Skipped }));
    let c = job.remarks(Event::Converted { outcome: Err(why), ran }, false);
    let k: int = if ran {
        1
    } else {
        0
    };
    assert(c[k] == failed);
    let d = job.remarks(Event::Heard(Err(why)), false);
    assert(d[0] == failed);
    let e = job.remarks(Event::Written(Err(why)), false);
    assert(e[0] == failed);
}

// ---- Folders --------------------------------------------------------------

/// Names are ordered by the first character in which they differ, and one that
/// another begins with comes first.
pub proof fn law_names_are_ordered_by_their_letters(
    front: Seq<char>,
    a: char,
    x: Seq<char>,
    b: char,
    y: Seq<char>,
)
    ensures
        a < b ==> no_later(front + seq![a] + x, front + seq![b] + y),
        a > b ==> !no_later(front + seq![a] + x, front + seq![b] + y),
        no_later(front, front + x),
        x.len() > 0 ==> !no_later(front + x, front),
    decreases front.len(),
{
    let (p, q) = (front + seq![a] + x, front + seq![b] + y);
    if front.len() == 0 {
        assert(p[0] == a && q[0] == b);
        assert(front + x =~= x);
    } else {
        let t = front.skip(1);
        law_names_are_ordered_by_their_letters(t, a, x, b, y);
        assert(p.skip(1) =~= t + seq![a] + x);
        assert(q.skip(1) =~= t + seq![b] + y);
        assert(p[0] == front[0] && q[0] == front[0]);
        assert((front + x).skip(1) =~= t + x);
        assert((front + x)[0] == front[0]);
    }
}

/// The audio of a folder is the media files in it, and nothing that is no file or
/// no media.
pub proof fn law_folders_offer_their_media(entries: Seq<FolderEntry>, n: int, name: Seq<char>)
    requires
        0 <= n <= entries.len(),
    ensures
        media_names(entries, n).contains(name) <==> exists|i: int|
            0 <= i < n && (#[trigger] entries[i]).is_file && entries[i].name@ == name && media_file(
                name,
            ),
    decreases n,
{
    if n > 0 {
        law_folders_offer_their_media(entries, n - 1, name);
        let before = media_names(entries, n - 1);
        let all = media_names(entries, n);
        if all.contains(name) {
            let j = choose|j: int| 0 <= j < all.len() && all[j] == name;
            if j < before.len() {
                assert(before[j] == name);
                assert(before.contains(name));
            } else {
                assert(entries[n - 1].is_file);
            }
        }
        if exists|i: int|
            0 <= i < n && (#[trigger] entries[i]).is_file && entries[i].name@ == name && media_file(
                name,
            ) {
            let i = choose|i: int|
                0 <= i < n && (#[trigger] entries[i]).is_file && entries[i].name@ == name
                    && media_file(name);
            if i < n - 1 {
                assert(before.contains(name));
                let j = choose|j: int| 0 <= j < before.len() && before[j] == name;
                assert(all[j] == name);
            } else {
                assert(all[before.len() as int] == name);
            }
        }
    }
}

/// Different numbers are written differently, so runs with different numbers
/// work in different folders.
pub proof fn law_runs_work_apart(a: u64, b: u64)
    requires
        a != b,
    ensures
        hex(a as int, 16) != hex(b as int, 16),
        hex(a as int, 16).len() == 16,
{
    reveal_with_fuel(sixteens, 17);
    reveal_with_fuel(hex, 17);
    if hex(a as int, 16) == hex(b as int, 16) {
        lemma_hex(a as int, b as int, 16);
    }
}

/// Sixteen to the power of `k`.
spec fn sixteens(k: int) -> int
    decreases k,
{
    if k <= 0 {
        1
    } else {
        16 * sixteens(k - 1)
    }
}

proof fn lemma_hex(a: int, b: int, width: int)
    requires
        0 <= a < sixteens(width),
        0 <= b < sixteens(width),
        0 <= width,
        hex(a, width) == hex(b, width),
    ensures
        a == b,
    decreases width,
{
    if width > 0 {
        let (x, y) = (hex(a, width), hex(b, width));
        assert(x.last() == y.last());
        assert(x.drop_last() =~= hex(a / 16, width - 1));
        assert(y.drop_last() =~= hex(b / 16, width - 1));
        lemma_hex_digit(a % 16);
        lemma_hex_digit(b % 16);
        lemma_hex(a / 16, b / 16, width - 1);
    }
}

/// The names of a folder's audio come in order: of any two, the one that is no
/// later stands first.
pub proof fn law_audio_comes_in_order(names: Seq<Seq<char>>, i: int, j: int)
    requires
        in_order(names),
        0 <= i < j < names.len(),
    ensures
        no_later(names[i], names[j]),
{
}

// ---- Requests and complaints ----------------------------------------------

/// What is asked of the speaker model names the model and the prompt, each as a
/// string of its own, and asks for one whole answer that is the same every time.
pub proof fn law_requests_name_model_and_prompt(model: Seq<char>, prompt: Seq<char>)
    ensures
        says(request_text(model, prompt), "\"model\":"@ + json_string(model)),
        says(request_text(model, prompt), "\"prompt\":"@ + json_string(prompt)),
        says(request_text(model, prompt), "\"temperature\":0"@),
        says(request_text(model, prompt), "\"stream\":false"@),
        says(request_text(model, prompt), "\"format\":\"json\""@),
{
    reveal_strlit("{\"format\":\"json\",\"model\":");
    reveal_strlit(",\"options\":{\"temperature\":0},\"prompt\":");
    reveal_strlit(",\"stream\":false}");
    reveal_strlit("\"model\":");
    reveal_strlit("\"prompt\":");
    reveal_strlit("\"temperature\":0");
    reveal_strlit("\"stream\":false");
    reveal_strlit("\"format\":\"json\"");
    let r = request_text(model, prompt);
    let (m, p) = (json_string(model), json_string(prompt));
    let first = "{\"format\":\"json\",\"model\":"@;
    let middle = ",\"options\":{\"temperature\":0},\"prompt\":"@;
    let end = ",\"stream\":false}"@;
    assert(first =~= first.take(17) + "\"model\":"@);
    assert(r =~= first.take(17) + ("\"model\":"@ + m) + (middle + p + end));
    assert(middle =~= middle.take(29) + "\"prompt\":"@);
    assert(r =~= (first + m + middle.take(29)) + ("\"prompt\":"@ + p) + end);
    assert(middle =~= middle.take(12) + "\"temperature\":0"@ + middle.skip(27));
    assert(r =~= (first + m + middle.take(12)) + "\"temperature\":0"@ + (middle.skip(27) + p
        + end));
    assert(end =~= end.take(1) + "\"stream\":false"@ + end.skip(15));
    assert(r =~= (first + m + middle + p + end.take(1)) + "\"stream\":false"@ + end.skip(15));
    assert(first =~= first.take(1) + "\"format\":\"json\""@ + first.skip(16));
    assert(r =~= first.take(1) + "\"format\":\"json\""@ + (first.skip(16) + m + middle + p
        + end));
}

/// Of what a tool printed, the last line that speaks of an error or a failure is
/// taken for the reason.
pub proof fn law_the_last_complaint_counts(
    before: Seq<Seq<char>>,
    line: Seq<char>,
    after: Seq<Seq<char>>,
)
    requires
        forall|i: int|
            0 <= i < after.len() ==> !has_text(#[trigger] after[i], "error"@) && !has_text(
                after[i],
                "failed"@,
            ),
    ensures
        has_text(line, "error"@) || has_text(line, "failed"@) ==> last_complaint(
            before.push(line) + after,
        ) == Some(line),
        last_complaint(after) is None,
    decreases after.len(),
{
    let all = before.push(line) + after;
    if after.len() == 0 {
        assert(all =~= before.push(line));
        assert(all.last() == line);
    } else {
        assert(after.last() == after[after.len() - 1]);
        assert(all.last() == after.last());
        assert(all.drop_last() =~= before.push(line) + after.drop_last());
        let rest = after.drop_last();
        assert forall|i: int| 0 <= i < rest.len() implies !has_text(#[trigger] rest[i], "error"@)
            && !has_text(rest[i], "failed"@) by {
            assert(rest[i] == after[i]);
        }
        law_the_last_complaint_counts(before, line, rest);
    }
}

/// How far a file has been heard is never more than its length, and where that
/// is not known nothing is told.
pub proof fn law_progress_stays_within_the_file(file: int, start: u128, total_ms: u64)
    ensures
        total_ms == 0 ==> progress_at(file, start, total_ms).len() == 0,
        total_ms > 0 ==> progress_at(file, start, total_ms).len() == 1 && (progress_at(
            file,
            start,
            total_ms,
        )[0] matches Report::Progress { file: f, heard_ms, total_ms: t } && f == file && t
            == total_ms && heard_ms <= total_ms && (start <= total_ms ==> heard_ms == start) && (
        start > total_ms ==> heard_ms == total_ms)),
{
}

/// A field is found by its name, the first of that name where there are several.
pub proof fn law_fields_go_by_name(before: Seq<Field>, f: Field, after: Seq<Field>)
    requires
        forall|i: int| 0 <= i < before.len() ==> (#[trigger] before[i]).key != f.key,
    ensures
        field(before + seq![f] + after, f.key) == Some(f),
        field(before, f.key) is None,
    decreases before.len(),
{
    let all = before + seq![f] + after;
    if before.len() > 0 {
        let rest = before.skip(1);
        assert(before[0].key != f.key);
        assert(all[0] == before[0]);
        assert(all.skip(1) =~= rest + seq![f] + after);
        assert forall|i: int| 0 <= i < rest.len() implies (#[trigger] rest[i]).key != f.key by {
            assert(rest[i] == before[i + 1]);
        }
        law_fields_go_by_name(rest, f, after);
    } else {
        assert(all[0] == f);
    }
}

// ---- Programs -------------------------------------------------------------

/// Whether `value` stands right behind `flag`.
pub open spec fn sets(args: Seq<Seq<char>>, flag: Seq<char>, value: Seq<char>) -> bool {
    exists|i: int| 0 <= i < args.len() - 1 && #[trigger] args[i] == flag && args[i + 1] == value
}

/// FFmpeg reads the episode and writes the audio, which comes last: one channel
/// at 16,000 samples a second, each a signed number of 16 bits. It asks nothing
/// on the way.
pub proof fn law_episodes_are_converted_for_whisper(source: Seq<char>, wav: Seq<char>)
    ensures
        sets(converting(source, wav), "-i"@, source),
        sets(converting(source, wav), "-ar"@, "16000"@),
        sets(converting(source, wav), "-ac"@, "1"@),
        sets(converting(source, wav), "-c:a"@, "pcm_s16le"@),
        converting(source, wav).last() == wav,
        converting(source, wav).contains("-y"@),
        converting(source, wav).contains("-nostdin"@),
{
    let a = converting(source, wav);
    assert(a[0] == "-nostdin"@);
    assert(a[1] == "-y"@);
    assert(a[2] == "-i"@ && a[3] == source);
    assert(a[4] == "-ar"@ && a[5] == "16000"@);
    assert(a[6] == "-ac"@ && a[7] == "1"@);
    assert(a[8] == "-c:a"@ && a[9] == "pcm_s16le"@);
}

/// Whisper listens to the audio with the model, marks where the speaker changes,
/// and follows a single beam.
pub proof fn law_whisper_marks_the_speakers(model: Seq<char>, wav: Seq<char>)
    ensures
        sets(listening(model, wav), "-m"@, model),
        sets(listening(model, wav), "-f"@, wav),
        sets(listening(model, wav), "-bs"@, "1"@),
        listening(model, wav).contains("-tdrz"@),
{
    let a = listening(model, wav);
    assert(a[0] == "-m"@ && a[1] == model);
    assert(a[2] == "-f"@ && a[3] == wav);
    assert(a[4] == "-tdrz"@);
    assert(a[5] == "-bs"@ && a[6] == "1"@);
}

/// Audio plays a second for every 16,000 samples of two bytes, and a part of a
/// millisecond does not count.
pub proof fn law_audio_plays_its_samples(seconds: int, samples: int)
    requires
        0 <= seconds,
        0 <= samples,
    ensures
        played_millis(32_000 * seconds) == 1000 * seconds,
        16 * played_millis(2 * samples) <= samples < 16 * (played_millis(2 * samples) + 1),
{
}

/// A folder that was made is used, one that cannot be made is given up, and a
/// name that is taken is tried again under another at most seven times.
pub proof fn law_a_taken_name_is_never_used(attempt: u32)
    ensures
        next_step(attempt, Made::Created) is Use,
        next_step(attempt, Made::Refused) is GiveUp,
        !(next_step(attempt, Made::Taken) is Use),
        1 <= attempt <= 7 ==> next_step(attempt, Made::Taken) is TryAnother,
        attempt > 7 ==> next_step(attempt, Made::Taken) is GiveUp,
{
}

} // verus!
