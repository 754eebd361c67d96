//! What is kept of a text when it is cut into lines, trimmed, or stripped of its
//! markup.

use crate::text::all_digits;
use crate::text::decimal;
use crate::text::join;
use crate::text::lemma_trim_end;
use crate::text::lemma_trim_start;
use crate::text::lines;
use crate::text::number;
use crate::text::replace;
use crate::text::signed_decimal;
use crate::text::signed_number;
use crate::text::starts_with;
use crate::text::strip_end;
use crate::text::strip_start;
use crate::text::trim;
use crate::text::trim_end;
use crate::text::trim_start;
use crate::text::unsigned_number;
use crate::text::white;
use crate::text::words;
use crate::timestamps::lemma_decimal;
use crate::timestamps::lemma_first_is;
use crate::util::digits_of;
use crate::util::opens_tag;
use crate::util::stripped;
use crate::util::unescaped;
use crate::util::untagged;
use vstd::prelude::*;

verus! {

// ---- Lines ----------------------------------------------------------------

/// A line ends at its line feed, with the carriage return before that taken off
/// if there is one, and the rest is cut on its own. The end of the text ends its
/// last line, and after a line feed there is none.
pub proof fn law_lines_end_at_line_feeds(line: Seq<char>, rest: Seq<char>)
    requires
        !line.contains('\n'),
    ensures
        lines(line + seq!['\n'] + rest) == seq![
            if line.len() > 0 && line.last() == '\r' {
                line.drop_last()
            } else {
                line
            },
        ] + lines(rest),
        line.len() > 0 ==> lines(line) == seq![line],
        lines(Seq::empty()) == Seq::<Seq<char>>::empty(),
{
    let s = line + seq!['\n'] + rest;
    let n = line.len() as int;
    let feed = seq!['\n'];
    assert(feed[0] == '\n');
    assert forall|i: int| 0 <= i < n implies !feed.contains(#[trigger] s[i]) by {
        assert(s[i] == line[i]);
        assert(line.contains(line[i]));
    }
    assert(feed.contains(s[n]));
    lemma_first_is(s, feed, n);
    assert(s.take(n) =~= line);
    assert(s.skip(n + 1) =~= rest);
    assert forall|i: int| 0 <= i < n implies !feed.contains(#[trigger] line[i]) by {
        assert(line.contains(line[i]));
    }
    lemma_first_is(line, feed, n);
}

// ---- Trimming -------------------------------------------------------------

/// Trimming takes white space off both ends and nothing else: what is left stood
/// in the text as it is, ends in nothing white, and what was taken was white.
pub proof fn law_trimming_takes_only_white_space(s: Seq<char>) -> (from: int)
    ensures
        0 <= from <= from + trim(s).len() <= s.len(),
        trim(s) == s.subrange(from, from + trim(s).len()),
        trim(s).len() > 0 ==> !white(trim(s)[0]) && !white(trim(s).last()),
        forall|i: int| 0 <= i < from ==> white(#[trigger] s[i]),
        forall|i: int| from + trim(s).len() <= i < s.len() ==> white(#[trigger] s[i]),
{
    let t = trim_start(s);
    lemma_trim_start(s);
    lemma_trim_end(t);
    lemma_trailing(t);
    let from = s.len() - t.len();
    let r = trim(s);
    assert(r =~= s.subrange(from, from + r.len())) by {
        assert forall|i: int| 0 <= i < r.len() implies #[trigger] r[i] == s[from + i] by {
            assert(r[i] == t[i]);
        }
    }
    assert forall|i: int| from + r.len() <= i < s.len() implies white(#[trigger] s[i]) by {
        assert(t[i - from] == s[i]);
    }
    if r.len() > 0 {
        assert(r[0] == t[0]);
    }
    from
}

proof fn lemma_trailing(s: Seq<char>)
    ensures
        forall|i: int| trim_end(s).len() <= i < s.len() ==> white(#[trigger] s[i]),
    decreases s.len(),
{
    if s.len() > 0 && white(s.last()) {
        lemma_trailing(s.drop_last());
        assert forall|i: int| trim_end(s).len() <= i < s.len() implies white(#[trigger] s[i]) by {
            if i < s.len() - 1 {
                assert(s.drop_last()[i] == s[i]);
            }
        }
    }
}

// ---- Markup ---------------------------------------------------------------

/// Text without markup keeps every word, with single spaces between.
pub proof fn law_plain_words_are_kept(s: Seq<char>)
    requires
        !s.contains('<'),
        !s.contains('&'),
    ensures
        stripped(s) == join(words(s), seq![' ']),
{
    lemma_no_tags(s, Seq::empty());
    assert(s + Seq::<char>::empty() =~= s);
    assert(untagged(Seq::empty()) =~= Seq::empty());
    lemma_no_entities(s);
}

proof fn lemma_no_tags(a: Seq<char>, rest: Seq<char>)
    requires
        !a.contains('<'),
    ensures
        untagged(a + rest) == a + untagged(rest),
    decreases a.len(),
{
    let s = a + rest;
    if a.len() == 0 {
        assert(s =~= rest);
        assert(a + untagged(rest) =~= untagged(rest));
    } else {
        assert(s[0] == a[0]);
        assert(a.contains(a[0]));
        let t = a.skip(1);
        assert(!t.contains('<')) by {
            if t.contains('<') {
                let k = choose|k: int| 0 <= k < t.len() && t[k] == '<';
                assert(a[k + 1] == '<');
            }
        }
        lemma_no_tags(t, rest);
        assert(s.skip(1) =~= t + rest);
        assert(seq![s[0]] + (t + untagged(rest)) =~= a + untagged(rest));
    }
}

/// A tag leaves a space between what stands before it and after it, and what
/// stands after it is stripped in its turn.
pub proof fn law_tags_leave_a_space(a: Seq<char>, tag: Seq<char>, rest: Seq<char>)
    requires
        !a.contains('<'),
        tag.len() > 0,
        'a' <= tag[0] <= 'z' || 'A' <= tag[0] <= 'Z' || tag[0] == '/' || tag[0] == '!' || tag[0]
            == '?',
        !tag.contains('>'),
    ensures
        untagged(a + (seq!['<'] + tag + seq!['>'] + rest)) == a + (seq![' '] + untagged(rest)),
{
    let s = seq!['<'] + tag + seq!['>'] + rest;
    lemma_no_tags(a, s);
    let n = (tag.len() + 1) as int;
    let close = seq!['>'];
    assert(close[0] == '>');
    assert(s[0] == '<' && s[1] == tag[0]);
    assert(opens_tag(s));
    assert forall|i: int| 0 <= i < n implies !close.contains(#[trigger] s[i]) by {
        if i > 0 {
            assert(s[i] == tag[i - 1]);
            assert(tag.contains(tag[i - 1]));
        }
    }
    assert(close.contains(s[n]));
    lemma_first_is(s, close, n);
    assert(s.skip(n + 1) =~= rest);
}

/// An angle bracket that opens no tag is kept.
pub proof fn law_stray_brackets_are_kept(a: Seq<char>, next: char, rest: Seq<char>)
    requires
        !a.contains('<'),
        !('a' <= next <= 'z' || 'A' <= next <= 'Z' || next == '/' || next == '!' || next == '?'),
    ensures
        untagged(a + (seq!['<', next] + rest)) == a + (seq!['<'] + untagged(seq![next] + rest)),
{
    let s = seq!['<', next] + rest;
    lemma_no_tags(a, s);
    assert(s[0] == '<' && s[1] == next);
    assert(s.skip(1) =~= seq![next] + rest);
}

proof fn lemma_replace_none(s: Seq<char>, from: Seq<char>, to: Seq<char>)
    requires
        from.len() > 0,
        from[0] == '&',
        !s.contains('&'),
    ensures
        replace(s, from, to) == s,
    decreases s.len(),
{
    if s.len() > 0 {
        assert(s.contains(s[0]));
        if starts_with(s, from) {
            assert(s.take(from.len() as int)[0] == s[0]);
        }
        let t = s.skip(1);
        assert(!t.contains('&')) by {
            if t.contains('&') {
                let k = choose|k: int| 0 <= k < t.len() && t[k] == '&';
                assert(s[k + 1] == '&');
            }
        }
        lemma_replace_none(t, from, to);
        assert(seq![s[0]] + t =~= s);
    }
}

proof fn lemma_replace_past(a: Seq<char>, rest: Seq<char>, from: Seq<char>, to: Seq<char>)
    requires
        from.len() > 0,
        from[0] == '&',
        !a.contains('&'),
    ensures
        replace(a + rest, from, to) == a + replace(rest, from, to),
    decreases a.len(),
{
    let s = a + rest;
    if a.len() == 0 {
        assert(s =~= rest);
        assert(a + replace(rest, from, to) =~= replace(rest, from, to));
    } else {
        assert(s[0] == a[0]);
        assert(a.contains(a[0]));
        if starts_with(s, from) {
            assert(s.take(from.len() as int)[0] == s[0]);
        }
        let t = a.skip(1);
        assert(!t.contains('&')) by {
            if t.contains('&') {
                let k = choose|k: int| 0 <= k < t.len() && t[k] == '&';
                assert(a[k + 1] == '&');
            }
        }
        lemma_replace_past(t, rest, from, to);
        assert(s.skip(1) =~= t + rest);
        assert(seq![s[0]] + (t + replace(rest, from, to)) =~= a + replace(rest, from, to));
    }
}

/// One entity among text without any: it gives way if it is the one looked for,
/// and stays if its second letter is another's.
proof fn lemma_replace_entity(
    a: Seq<char>,
    e: Seq<char>,
    b: Seq<char>,
    from: Seq<char>,
    to: Seq<char>,
)
    requires
        from.len() > 1,
        from[0] == '&',
        !a.contains('&'),
        !b.contains('&'),
        e.len() > 1,
        e[0] == '&',
        !e.skip(1).contains('&'),
        e == from || e[1] != from[1] || (e.len() > 2 && from.len() > 2 && e[2] != from[2]),
    ensures
        replace(a + (e + b), from, to) == (if e == from {
            a + (to + b)
        } else {
            a + (e + b)
        }),
{
    let s = e + b;
    lemma_replace_past(a, s, from, to);
    if e == from {
        assert(s.take(from.len() as int) =~= from);
        assert(s.skip(from.len() as int) =~= b);
        lemma_replace_none(b, from, to);
    } else {
        assert(s[0] == e[0] && s[1] == e[1]);
        if starts_with(s, from) {
            assert(s.take(from.len() as int)[1] == s[1]);
            if e.len() > 2 && from.len() > 2 {
                assert(s[2] == e[2]);
                assert(s.take(from.len() as int)[2] == s[2]);
            }
        }
        let t = e.skip(1) + b;
        assert(s.skip(1) =~= t);
        assert(!t.contains('&')) by {
            if t.contains('&') {
                let k = choose|k: int| 0 <= k < t.len() && t[k] == '&';
                if k < e.skip(1).len() {
                    assert(e.skip(1)[k] == '&');
                } else {
                    assert(b[k - e.skip(1).len()] == '&');
                }
            }
        }
        lemma_replace_none(t, from, to);
        assert(seq![s[0]] + t =~= s);
    }
}

proof fn lemma_no_entities(s: Seq<char>)
    requires
        !s.contains('&'),
    ensures
        unescaped(s) == s,
{
    lemma_entity_letters();
    lemma_replace_none(s, "&nbsp;"@, " "@);
    lemma_replace_none(s, "&#39;"@, "'"@);
    lemma_replace_none(s, "&apos;"@, "'"@);
    lemma_replace_none(s, "&quot;"@, "\""@);
    lemma_replace_none(s, "&lt;"@, "<"@);
    lemma_replace_none(s, "&gt;"@, ">"@);
    lemma_replace_none(s, "&amp;"@, "&"@);
}

proof fn lemma_entity_letters()
    ensures
        "&nbsp;"@ == seq!['&', 'n', 'b', 's', 'p', ';'],
        "&#39;"@ == seq!['&', '#', '3', '9', ';'],
        "&apos;"@ == seq!['&', 'a', 'p', 'o', 's', ';'],
        "&quot;"@ == seq!['&', 'q', 'u', 'o', 't', ';'],
        "&lt;"@ == seq!['&', 'l', 't', ';'],
        "&gt;"@ == seq!['&', 'g', 't', ';'],
        "&amp;"@ == seq!['&', 'a', 'm', 'p', ';'],
        " "@ == seq![' '],
        "'"@ == seq!['\''],
        "\""@ == seq!['"'],
        "<"@ == seq!['<'],
        ">"@ == seq!['>'],
        "&"@ == seq!['&'],
{
    reveal_strlit("&nbsp;");
    reveal_strlit("&#39;");
    reveal_strlit("&apos;");
    reveal_strlit("&quot;");
    reveal_strlit("&lt;");
    reveal_strlit("&gt;");
    reveal_strlit("&amp;");
    reveal_strlit(" ");
    reveal_strlit("'");
    reveal_strlit("\"");
    reveal_strlit("<");
    reveal_strlit(">");
    reveal_strlit("&");
    assert("&nbsp;"@ =~= seq!['&', 'n', 'b', 's', 'p', ';']);
    assert("&#39;"@ =~= seq!['&', '#', '3', '9', ';']);
    assert("&apos;"@ =~= seq!['&', 'a', 'p', 'o', 's', ';']);
    assert("&quot;"@ =~= seq!['&', 'q', 'u', 'o', 't', ';']);
    assert("&lt;"@ =~= seq!['&', 'l', 't', ';']);
    assert("&gt;"@ =~= seq!['&', 'g', 't', ';']);
    assert("&amp;"@ =~= seq!['&', 'a', 'm', 'p', ';']);
    assert(" "@ =~= seq![' ']);
    assert("'"@ =~= seq!['\'']);
    assert("\""@ =~= seq!['"']);
    assert("<"@ =~= seq!['<']);
    assert(">"@ =~= seq!['>']);
    assert("&"@ =~= seq!['&']);
}

/// The character an entity stands for, for the ones that are put back.
pub open spec fn entity(name: Seq<char>) -> Option<char> {
    if name == seq!['n', 'b', 's', 'p'] {
        Some(' ')
    } else if name == seq!['#', '3', '9'] || name == seq!['a', 'p', 'o', 's'] {
        Some('\'')
    } else if name == seq!['q', 'u', 'o', 't'] {
        Some('"')
    } else if name == seq!['l', 't'] {
        Some('<')
    } else if name == seq!['g', 't'] {
        Some('>')
    } else if name == seq!['a', 'm', 'p'] {
        Some('&')
    } else {
        None
    }
}

/// An entity is put back as the character it stands for, and the text around it
/// stays.
pub proof fn law_entities_are_put_back(a: Seq<char>, name: Seq<char>, b: Seq<char>, c: char)
    requires
        !a.contains('&'),
        !b.contains('&'),
        entity(name) == Some(c),
    ensures
        unescaped(a + (seq!['&'] + name + seq![';'] + b)) == a + (seq![c] + b),
{
    lemma_entity_letters();
    let e = seq!['&'] + name + seq![';'];
    let s = a + (e + b);
    assert(a + (seq!['&'] + name + seq![';'] + b) =~= s);
    assert(e =~= "&nbsp;"@ || e =~= "&#39;"@ || e =~= "&apos;"@ || e =~= "&quot;"@ || e =~= "&lt;"@
        || e =~= "&gt;"@ || e =~= "&amp;"@);
    assert(!e.skip(1).contains('&'));
    lemma_replace_entity(a, e, b, "&nbsp;"@, " "@);
    lemma_replace_entity(a, e, b, "&#39;"@, "'"@);
    lemma_replace_entity(a, e, b, "&apos;"@, "'"@);
    lemma_replace_entity(a, e, b, "&quot;"@, "\""@);
    lemma_replace_entity(a, e, b, "&lt;"@, "<"@);
    lemma_replace_entity(a, e, b, "&gt;"@, ">"@);
    lemma_replace_entity(a, e, b, "&amp;"@, "&"@);
    let done = a + (seq![c] + b);
    if c != '&' {
        lemma_joined_plain(a, seq![c] + b);
        assert(!(seq![c] + b).contains('&')) by {
            let t = seq![c] + b;
            if t.contains('&') {
                let k = choose|k: int| 0 <= k < t.len() && t[k] == '&';
                if k > 0 {
                    assert(b[k - 1] == '&');
                }
            }
        }
        lemma_joined_plain(a, seq![c] + b);
        lemma_replace_none(done, "&nbsp;"@, " "@);
        lemma_replace_none(done, "&#39;"@, "'"@);
        lemma_replace_none(done, "&apos;"@, "'"@);
        lemma_replace_none(done, "&quot;"@, "\""@);
        lemma_replace_none(done, "&lt;"@, "<"@);
        lemma_replace_none(done, "&gt;"@, ">"@);
        lemma_replace_none(done, "&amp;"@, "&"@);
    }
}

proof fn lemma_joined_plain(a: Seq<char>, b: Seq<char>)
    ensures
        !a.contains('&') && !b.contains('&') ==> !(a + b).contains('&'),
{
    if !a.contains('&') && !b.contains('&') && (a + b).contains('&') {
        let s = a + b;
        let k = choose|k: int| 0 <= k < s.len() && s[k] == '&';
        if k < a.len() {
            assert(a[k] == '&');
        } else {
            assert(b[k - a.len()] == '&');
        }
    }
}

// ---- Replacing ------------------------------------------------------------

/// Replacing puts the new text where the old first stands, and goes on behind
/// it.
pub proof fn law_replacing_goes_from_place_to_place(
    a: Seq<char>,
    from: Seq<char>,
    b: Seq<char>,
    to: Seq<char>,
)
    requires
        from.len() > 0,
        forall|i: int|
            0 <= i < a.len() ==> !starts_with(#[trigger] (a + from + b).skip(i), from),
    ensures
        replace(a + from + b, from, to) == a + to + replace(b, from, to),
    decreases a.len(),
{
    let s = a + from + b;
    if a.len() == 0 {
        assert(s.take(from.len() as int) =~= from);
        assert(s.skip(from.len() as int) =~= b);
        assert(a + to + replace(b, from, to) =~= to + replace(b, from, to));
    } else {
        let t = a.skip(1);
        assert(s.skip(1) =~= t + from + b);
        assert(s.skip(0) =~= s);
        assert forall|i: int| 0 <= i < t.len() implies !starts_with(
            #[trigger] (t + from + b).skip(i),
            from,
        ) by {
            assert((t + from + b).skip(i) =~= s.skip(i + 1));
        }
        law_replacing_goes_from_place_to_place(t, from, b, to);
        assert(seq![s[0]] + (t + to + replace(b, from, to)) =~= a + to + replace(b, from, to));
    }
}

/// A text in which the old text stands nowhere is left as it is.
pub proof fn law_replacing_nothing_changes_nothing(s: Seq<char>, from: Seq<char>, to: Seq<char>)
    requires
        forall|i: int| 0 <= i < s.len() ==> !starts_with(#[trigger] s.skip(i), from),
    ensures
        replace(s, from, to) == s,
    decreases s.len(),
{
    if s.len() > 0 && from.len() > 0 {
        assert(s.skip(0) =~= s);
        let t = s.skip(1);
        assert forall|i: int| 0 <= i < t.len() implies !starts_with(#[trigger] t.skip(i), from) by {
            assert(t.skip(i) =~= s.skip(i + 1));
        }
        law_replacing_nothing_changes_nothing(t, from, to);
        assert(seq![s[0]] + t =~= s);
    }
}

/// Stripping a character takes every one of it off that end, and nothing else.
pub proof fn law_stripping_takes_only_that_character(k: nat, c: char, s: Seq<char>)
    ensures
        s.len() == 0 || s[0] != c ==> strip_start(Seq::new(k, |i: int| c) + s, c) == s,
        s.len() == 0 || s.last() != c ==> strip_end(s + Seq::new(k, |i: int| c), c) == s,
    decreases k,
{
    let run = Seq::new(k, |i: int| c);
    if k == 0 {
        assert(run + s =~= s);
        assert(s + run =~= s);
    } else {
        let less = Seq::new((k - 1) as nat, |i: int| c);
        law_stripping_takes_only_that_character((k - 1) as nat, c, s);
        assert((run + s).drop_first() =~= less + s);
        assert((s + run).drop_last() =~= s + less);
        assert((run + s)[0] == c);
        assert((s + run).last() == c);
    }
}

/// Of a text, the digits are kept and nothing else, part by part.
pub proof fn law_digits_are_kept_part_by_part(a: Seq<char>, b: Seq<char>)
    ensures
        digits_of(a + b) == digits_of(a) + digits_of(b),
        all_digits(a) ==> digits_of(a) == a,
        all_digits(digits_of(a)),
    decreases a.len(),
{
    let s = a + b;
    if a.len() == 0 {
        assert(s =~= b);
        assert(digits_of(a) + digits_of(b) =~= digits_of(b));
        assert(digits_of(a) =~= a);
    } else {
        let t = a.skip(1);
        law_digits_are_kept_part_by_part(t, b);
        assert(s.skip(1) =~= t + b);
        assert(s[0] == a[0]);
        if '0' <= a[0] <= '9' {
            assert(seq![a[0]] + (digits_of(t) + digits_of(b)) =~= seq![a[0]] + digits_of(t)
                + digits_of(b));
            if all_digits(a) {
                assert(all_digits(t)) by {
                    assert forall|i: int| 0 <= i < t.len() implies '0' <= #[trigger] t[i] <= '9' by {
                        assert(t[i] == a[i + 1]);
                    }
                }
                assert(seq![a[0]] + t =~= a);
            }
            let d = digits_of(a);
            assert forall|i: int| 0 <= i < d.len() implies '0' <= #[trigger] d[i] <= '9' by {
                if i > 0 {
                    assert(d[i] == digits_of(t)[i - 1]);
                }
            }
        }
    }
}

// ---- Numbers --------------------------------------------------------------

/// A number that is written reads back as it was, with its sign.
pub proof fn law_numbers_read_back(n: int, max: int)
    ensures
        0 <= n <= max ==> number(decimal(n), max) == Some(n) && unsigned_number(decimal(n), max)
            == Some(n) && unsigned_number(seq!['+'] + decimal(n), max) == Some(n),
        n > max && n >= 0 ==> number(decimal(n), max) is None,
        -0x8000_0000 <= n <= 0x7fff_ffff ==> signed_number(signed_decimal(n)) == Some(n),
{
    if n >= 0 {
        lemma_decimal(n);
        let d = decimal(n);
        assert('0' <= d[0] <= '9');
        assert((seq!['+'] + d).skip(1) =~= d);
    } else {
        lemma_decimal(-n);
        let d = decimal(-n);
        assert((seq!['-'] + d).skip(1) =~= d);
        assert((seq!['-'] + d)[0] == '-');
    }
}

} // verus!
