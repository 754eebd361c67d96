//! Small helpers: filename hygiene, byte formatting, date parsing.
//!
//! Publication times are what episode file names are made of, so the parsing
//! here is a little more careful than a nicety would need to be: a feed's
//! timestamp carries a zone, and the same instant written from two zones must
//! not come out as two different names — nor an episode published late at night
//! land on the wrong day. Everything is normalised to UTC before it becomes a
//! name.

use crate::calendar::civil_days;
use crate::calendar::civil_from_days;
use crate::calendar::date_of;
use crate::calendar::days_from_civil;
use crate::calendar::floor_div;
use crate::calendar::law_dates_and_days_are_inverse;
use crate::calendar::lemma_days_fit;
use crate::calendar::valid_date;
use crate::calendar::wrap32;
use crate::text::after_last;
use crate::text::all_digits;
use crate::text::chars_of;
use crate::text::control;
use crate::text::copy_of;
use crate::text::decimal;
use crate::text::digit;
use crate::text::digits_value;
use crate::text::find_after_last;
use crate::text::find_of;
use crate::text::first_of;
use crate::text::has_prefix;
use crate::text::is_control;
use crate::text::is_text;
use crate::text::is_white;
use crate::text::join;
use crate::text::join_words;
use crate::text::last_of;
use crate::text::lemma_first_of;
use crate::text::lower;
use crate::text::owned;
use crate::text::padded;
use crate::text::parse_number;
use crate::text::parse_signed;
use crate::text::parse_unsigned;
use crate::text::pieces;
use crate::text::push_decimal;
use crate::text::push_padded;
use crate::text::replace;
use crate::text::replaced;
use crate::text::signed_number;
use crate::text::split_on;
use crate::text::split_words;
use crate::text::starts_with;
use crate::text::string_of;
use crate::text::to_lower;
use crate::text::trim;
use crate::text::trimmed;
use crate::text::unsigned_number;
use crate::text::views;
use crate::text::white;
use crate::text::words;
use crate::text::zeros;
use vstd::prelude::*;
use vstd::slice::slice_subrange;

verus! {

/// Characters that are illegal on Windows, plus the path separators. Names are
/// made for the strictest common denominator so that a library copied onto
/// another machine keeps working.
pub open spec fn illegal(c: char) -> bool {
    c == '/' || c == '\\' || c == ':' || c == '*' || c == '?' || c == '"' || c == '<' || c == '>'
        || c == '|'
}

/// Whether a character may not stand in a file name.
fn is_illegal(c: char) -> (b: bool)
    ensures
        b == illegal(c),
{
    c == '/' || c == '\\' || c == ':' || c == '*' || c == '?' || c == '"' || c == '<' || c == '>'
        || c == '|'
}

/// The part of a name before its first dot.
pub open spec fn stem(name: Seq<char>) -> Seq<char> {
    name.take(first_of(name, seq!['.']))
}

/// The names Windows keeps for devices, in small letters: `con`, `prn`, `aux`,
/// `nul`, and `com` and `lpt` followed by a digit from 1 to 9.
pub open spec fn device_name(name: Seq<char>) -> bool {
    ||| name == seq!['c', 'o', 'n']
    ||| name == seq!['p', 'r', 'n']
    ||| name == seq!['a', 'u', 'x']
    ||| name == seq!['n', 'u', 'l']
    ||| name.len() == 4 && (name.take(3) == seq!['c', 'o', 'm'] || name.take(3) == seq![
        'l',
        'p',
        't',
    ]) && '1' <= name[3] <= '9'
}

/// Whether `name` is, up to its first dot, a name that Windows reserves for a
/// device, whatever the case: `nul.mp3` is exactly as unusable as `nul`.
pub open spec fn windows_reserved(name: Seq<char>) -> bool {
    device_name(lower(stem(name)))
}

/// Whether Windows would take `name` for a device.
fn is_windows_reserved(name: &[char]) -> (b: bool)
    ensures
        b == windows_reserved(name@),
{
    let dot: [char; 1] = ['.'];
    let n = find_of(name, dot.as_slice());
    assert(dot@ =~= seq!['.']);
    let base = slice_subrange(name, 0, n);
    let low = to_lower(base);
    if low.len() == 3 {
        let b = (low[0] == 'c' && low[1] == 'o' && low[2] == 'n') || (low[0] == 'p' && low[1] == 'r'
            && low[2] == 'n') || (low[0] == 'a' && low[1] == 'u' && low[2] == 'x') || (low[0] == 'n'
            && low[1] == 'u' && low[2] == 'l');
        proof {
            if b {
                assert(low@ =~= seq![low@[0], low@[1], low@[2]]);
            }
        }
        b
    } else if low.len() == 4 {
        let b = ((low[0] == 'c' && low[1] == 'o' && low[2] == 'm') || (low[0] == 'l' && low[1]
            == 'p' && low[2] == 't')) && '1' <= low[3] && low[3] <= '9';
        proof {
            let t = low@.take(3);
            assert(t[0] == low@[0] && t[1] == low@[1] && t[2] == low@[2]);
            assert(t =~= seq![low@[0], low@[1], low@[2]]);
        }
        b
    } else {
        false
    }
}

/// What a character of feed text becomes in a name.
pub open spec fn name_char(c: char) -> char {
    if illegal(c) || control(c) {
        ' '
    } else {
        c
    }
}

/// Feed text with the characters that cannot stand in a name blanked out and
/// every run of white space made one space, so that what was replaced leaves no
/// gaps. `after_space` says that a space has just been written.
pub open spec fn blanked(s: Seq<char>, after_space: bool) -> Seq<char>
    decreases s.len(),
{
    if s.len() == 0 {
        Seq::empty()
    } else {
        let c = name_char(s[0]);
        if white(c) {
            (if after_space {
                Seq::empty()
            } else {
                seq![' ']
            }) + blanked(s.skip(1), true)
        } else {
            seq![c] + blanked(s.skip(1), false)
        }
    }
}

/// What no name begins or ends with: trailing dots and spaces are dropped by
/// Windows, and a leading dot hides the file on Unix.
pub open spec fn padding(c: char) -> bool {
    white(c) || c == '.'
}

/// A name without the dots and spaces in front.
pub open spec fn unpadded_start(s: Seq<char>) -> Seq<char>
    decreases s.len(),
{
    if s.len() > 0 && padding(s[0]) {
        unpadded_start(s.drop_first())
    } else {
        s
    }
}

/// A name without the dots and spaces behind.
pub open spec fn unpadded_end(s: Seq<char>) -> Seq<char>
    decreases s.len(),
{
    if s.len() > 0 && padding(s.last()) {
        unpadded_end(s.drop_last())
    } else {
        s
    }
}

/// Feed text as a name, without the dots and spaces around it.
pub open spec fn bare_name(s: Seq<char>) -> Seq<char> {
    unpadded_end(unpadded_start(blanked(s, false)))
}

/// A name that is no device: one that would be gets an underscore before its
/// first dot, which keeps the word readable rather than replacing it outright.
pub open spec fn marked(name: Seq<char>) -> Seq<char> {
    if windows_reserved(name) {
        stem(name) + seq!['_'] + name.skip(stem(name).len() as int)
    } else {
        name
    }
}

/// A name cut to at most `max` characters, with no dot or space left at the cut.
pub open spec fn cut_name(s: Seq<char>, max: int) -> Seq<char> {
    if s.len() <= max {
        s
    } else {
        unpadded_end(s.take(max))
    }
}

/// The path component made of feed text: never empty, and never a device. Cut to
/// leave room for a date prefix, an extension and a `.part` suffix inside the
/// usual 255-byte limit; should the cut leave a device's name, that is marked
/// too.
pub open spec fn sanitized(s: Seq<char>) -> Seq<char> {
    if bare_name(s).len() == 0 {
        "untitled"@
    } else {
        marked(cut_name(marked(bare_name(s)), 150))
    }
}

/// Whether a character is one that no name begins or ends with.
fn is_padding(c: char) -> (b: bool)
    ensures
        b == padding(c),
{
    is_white(c) || c == '.'
}

/// The part of a name that [`unpadded_start`] keeps.
fn without_padding_start(cs: &[char]) -> (r: &[char])
    ensures
        r@ == unpadded_start(cs@),
{
    let mut i: usize = 0;
    assert(cs@.skip(0) =~= cs@);
    while i < cs.len() && is_padding(cs[i])
        invariant
            i <= cs@.len(),
            unpadded_start(cs@) == unpadded_start(cs@.skip(i as int)),
        decreases cs@.len() - i,
    {
        assert(cs@.skip(i as int).drop_first() =~= cs@.skip(i + 1));
        i += 1;
    }
    slice_subrange(cs, i, cs.len())
}

/// The part of a name that [`unpadded_end`] keeps.
fn without_padding_end(cs: &[char]) -> (r: &[char])
    ensures
        r@ == unpadded_end(cs@),
{
    let mut n: usize = cs.len();
    assert(cs@.take(n as int) =~= cs@);
    while n > 0 && is_padding(cs[n - 1])
        invariant
            n <= cs@.len(),
            unpadded_end(cs@) == unpadded_end(cs@.take(n as int)),
        decreases n,
    {
        assert(cs@.take(n as int).drop_last() =~= cs@.take(n - 1));
        n -= 1;
    }
    slice_subrange(cs, 0, n)
}

/// Marks a name that would be a device.
fn mark(cs: &[char]) -> (r: Vec<char>)
    ensures
        r@ == marked(cs@),
{
    if !is_windows_reserved(cs) {
        let r = copy_of(cs, cs.len());
        assert(r@ =~= cs@);
        return r;
    }
    let dot: [char; 1] = ['.'];
    let n = find_of(cs, dot.as_slice());
    assert(dot@ =~= seq!['.']);
    let mut r = copy_of(cs, n);
    r.push('_');
    let mut i: usize = n;
    assert(r@ =~= cs@.take(n as int) + seq!['_'] + cs@.subrange(n as int, n as int));
    while i < cs.len()
        invariant
            n <= i <= cs@.len(),
            r@ == cs@.take(n as int) + seq!['_'] + cs@.subrange(n as int, i as int),
        decreases cs@.len() - i,
    {
        let ghost before = r@;
        r.push(cs[i]);
        assert(cs@.subrange(n as int, i + 1) =~= cs@.subrange(n as int, i as int).push(
            cs@[i as int],
        ));
        assert(r@ =~= cs@.take(n as int) + seq!['_'] + cs@.subrange(n as int, i + 1));
        i += 1;
    }
    assert(cs@.subrange(n as int, i as int) =~= cs@.skip(n as int));
    r
}

/// Cuts on a character boundary, not a byte boundary.
fn cut(cs: &[char], max: usize) -> (r: &[char])
    ensures
        r@ == cut_name(cs@, max as int),
{
    if cs.len() <= max {
        cs
    } else {
        without_padding_end(slice_subrange(cs, 0, max))
    }
}

/// Turn arbitrary feed text into something safe to use as a single path
/// component. Never returns an empty string.
pub fn sanitize(name: &str) -> (r: String)
    ensures
        r@ == sanitized(name@),
{
    let cs = chars_of(name);
    let mut out: Vec<char> = Vec::new();
    let mut last_was_space = false;
    let mut i: usize = 0;
    assert(cs@.skip(0) =~= cs@);
    while i < cs.len()
        invariant
            i <= cs@.len(),
            blanked(cs@, false) == out@ + blanked(cs@.skip(i as int), last_was_space),
        decreases cs@.len() - i,
    {
        let ch = cs[i];
        let mapped = if is_illegal(ch) || is_control(ch) {
            ' '
        } else {
            ch
        };
        let ghost before = out@;
        let ghost was_space = last_was_space;
        assert(cs@.skip(i as int).skip(1) =~= cs@.skip(i + 1));
        if is_white(mapped) {
            if !last_was_space {
                out.push(' ');
            }
            last_was_space = true;
        } else {
            out.push(mapped);
            last_was_space = false;
        }
        proof {
            let rest = blanked(cs@.skip(i + 1), last_was_space);
            assert(out@ + rest =~= before + blanked(cs@.skip(i as int), was_space));
        }
        i += 1;
    }
    assert(out@ + blanked(cs@.skip(i as int), last_was_space) =~= out@);

    let bare = without_padding_end(without_padding_start(out.as_slice()));
    if bare.len() == 0 {
        return owned("untitled");
    }
    let whole = mark(bare);
    let name = mark(cut(whole.as_slice(), 150));
    string_of(name.as_slice())
}

/// No two white characters stand side by side.
pub open spec fn single_spaced(s: Seq<char>) -> bool {
    forall|i: int| 0 <= i < s.len() - 1 && white(#[trigger] s[i]) ==> !white(s[i + 1])
}

/// Nothing that a file name may not hold, and no white space but the space.
spec fn name_chars(s: Seq<char>) -> bool {
    forall|i: int|
        0 <= i < s.len() ==> {
            let c = #[trigger] s[i];
            !illegal(c) && !control(c) && (white(c) ==> c == ' ')
        }
}

proof fn lemma_blanked(s: Seq<char>, after_space: bool)
    ensures
        name_chars(blanked(s, after_space)),
        single_spaced(blanked(s, after_space)),
        after_space && blanked(s, after_space).len() > 0 ==> !white(blanked(s, after_space)[0]),
    decreases s.len(),
{
    if s.len() > 0 {
        let c = name_char(s[0]);
        let r = blanked(s, after_space);
        let tail = blanked(s.skip(1), white(c));
        lemma_blanked(s.skip(1), white(c));
        if white(c) && after_space {
            assert(r =~= tail);
        } else {
            let d = if white(c) { ' ' } else { c };
            assert(r =~= seq![d] + tail);
            assert forall|i: int| 0 <= i < r.len() - 1 && white(#[trigger] r[i]) implies !white(
                r[i + 1],
            ) by {
                assert(r[i + 1] == tail[i]);
                if i > 0 {
                    assert(r[i] == tail[i - 1]);
                }
            }
        }
    }
}

proof fn lemma_unpadded_start(s: Seq<char>)
    ensures
        unpadded_start(s).len() <= s.len(),
        unpadded_start(s) == s.skip(s.len() - unpadded_start(s).len()),
        unpadded_start(s).len() > 0 ==> !padding(unpadded_start(s)[0]),
    decreases s.len(),
{
    if s.len() > 0 && padding(s[0]) {
        lemma_unpadded_start(s.drop_first());
        assert(unpadded_start(s) =~= s.skip(s.len() - unpadded_start(s).len()));
    } else {
        assert(s.skip(0) =~= s);
    }
}

proof fn lemma_unpadded_end(s: Seq<char>)
    ensures
        unpadded_end(s).len() <= s.len(),
        unpadded_end(s) == s.take(unpadded_end(s).len() as int),
        unpadded_end(s).len() > 0 ==> !padding(unpadded_end(s).last()),
        forall|i: int| unpadded_end(s).len() <= i < s.len() ==> padding(#[trigger] s[i]),
    decreases s.len(),
{
    if s.len() > 0 && padding(s.last()) {
        lemma_unpadded_end(s.drop_last());
        assert(unpadded_end(s) =~= s.take(unpadded_end(s).len() as int));
        assert forall|i: int| unpadded_end(s).len() <= i < s.len() implies padding(
            #[trigger] s[i],
        ) by {
            if i < s.len() - 1 {
                assert(s.drop_last()[i] == s[i]);
            }
        }
    } else {
        assert(s.take(s.len() as int) =~= s);
    }
}

/// What every name on the way is: nothing that may not stand in one, and no
/// padding at either end.
spec fn fit(s: Seq<char>) -> bool {
    &&& name_chars(s)
    &&& single_spaced(s)
    &&& s.len() > 0 ==> !padding(s[0]) && !padding(s.last())
}

proof fn lemma_bare_name(s: Seq<char>)
    ensures
        fit(bare_name(s)),
{
    let b = blanked(s, false);
    lemma_blanked(s, false);
    let t = unpadded_start(b);
    lemma_unpadded_start(b);
    lemma_unpadded_end(t);
    let r = bare_name(s);
    let from = b.len() - t.len();
    assert forall|i: int| 0 <= i < r.len() implies #[trigger] r[i] == b[from + i] by {
        assert(t[i] == b[from + i]);
    }
    assert forall|i: int| 0 <= i < r.len() - 1 && white(#[trigger] r[i]) implies !white(
        r[i + 1],
    ) by {
        assert(white(b[from + i]));
        assert(r[i + 1] == b[from + (i + 1)]);
    }
    if r.len() > 0 {
        assert(r[0] == t[0]);
    }
}

proof fn lemma_stem(name: Seq<char>)
    ensures
        stem(name).len() <= name.len(),
        stem(name) == name.take(stem(name).len() as int),
        stem(name).len() < name.len() ==> name[stem(name).len() as int] == '.',
        forall|i: int| 0 <= i < stem(name).len() ==> #[trigger] name[i] != '.',
{
    lemma_first_of(name, seq!['.']);
    let n = first_of(name, seq!['.']);
    assert(stem(name).len() == n);
    if n < name.len() {
        assert(seq!['.'].contains(name[n]));
    }
    assert forall|i: int| 0 <= i < n implies #[trigger] name[i] != '.' by {
        assert(!seq!['.'].contains(name[i]));
        assert(seq!['.'][0] == '.');
    }
}

/// The stem of a name is told by where its first dot stands.
proof fn lemma_stem_is(name: Seq<char>, n: int)
    requires
        0 <= n <= name.len(),
        n < name.len() ==> name[n] == '.',
        forall|i: int| 0 <= i < n ==> #[trigger] name[i] != '.',
    ensures
        stem(name) == name.take(n),
{
    lemma_stem(name);
    let k = stem(name).len() as int;
    if k < n {
        assert(name[k] == '.');
    }
    if n < k {
        assert(name[n] == '.');
    }
}

proof fn lemma_device_len(name: Seq<char>)
    requires
        windows_reserved(name),
    ensures
        3 <= stem(name).len() <= 4,
{
    assert(lower(stem(name)).len() == stem(name).len());
}

/// Marking leaves no device, and a fit name fit.
proof fn lemma_marked(s: Seq<char>)
    requires
        fit(s),
        s.len() > 0,
    ensures
        fit(marked(s)),
        s.len() <= marked(s).len() <= s.len() + 1,
        !windows_reserved(marked(s)),
{
    if windows_reserved(s) {
        lemma_stem(s);
        lemma_device_len(s);
        let n = stem(s).len() as int;
        let r = marked(s);
        assert forall|i: int| 0 <= i < r.len() implies #[trigger] r[i] == (if i < n {
            s[i]
        } else if i == n {
            '_'
        } else {
            s[i - 1]
        }) by {
            if i < n {
                assert(stem(s)[i] == s[i]);
            }
        }
        assert forall|i: int| 0 <= i < r.len() - 1 && white(#[trigger] r[i]) implies !white(
            r[i + 1],
        ) by {
            if i < n - 1 {
                assert(white(s[i]));
                assert(r[i + 1] == s[i + 1]);
            } else if i > n {
                assert(white(s[i - 1]));
                assert(r[i + 1] == s[(i - 1) + 1]);
            }
        }
        assert(name_chars(r)) by {
            assert forall|i: int| 0 <= i < r.len() implies {
                let c = #[trigger] r[i];
                !illegal(c) && !control(c) && (white(c) ==> c == ' ')
            } by {
                if i < n {
                    assert(r[i] == s[i]);
                } else if i > n {
                    assert(r[i] == s[i - 1]);
                }
            }
        }
        assert(r.last() == (if n == s.len() { '_' } else { s.last() }));
        lemma_stem_is(r, n + 1);
        let t = stem(r);
        assert(t[n] == '_');
        assert(lower(t)[n] == '_');
        assert(lower(t).len() == n + 1);
    }
}

/// Cutting keeps a fit name fit, and something of it.
proof fn lemma_cut(u: Seq<char>, max: int)
    requires
        fit(u),
        u.len() > 0,
        max > 0,
    ensures
        fit(cut_name(u, max)),
        0 < cut_name(u, max).len() <= max,
        cut_name(u, max).len() <= u.len(),
        cut_name(u, max) == u.take(cut_name(u, max).len() as int),
{
    let r = cut_name(u, max);
    if u.len() > max {
        lemma_unpadded_end(u.take(max));
        if r.len() == 0 {
            assert(padding(u.take(max)[0]));
        }
        assert(r =~= u.take(r.len() as int));
        assert forall|i: int| 0 <= i < r.len() implies #[trigger] r[i] == u[i] by {}
        assert forall|i: int| 0 <= i < r.len() - 1 && white(#[trigger] r[i]) implies !white(
            r[i + 1],
        ) by {
            assert(white(u[i]));
            assert(r[i + 1] == u[i + 1]);
        }
    } else {
        assert(u.take(u.len() as int) =~= u);
    }
}

/// A cut can only leave a device's name where it leaves nothing after it.
proof fn lemma_cut_device(u: Seq<char>, max: int)
    requires
        fit(u),
        u.len() > 0,
        max > 0,
        !windows_reserved(u),
        windows_reserved(cut_name(u, max)),
    ensures
        cut_name(u, max).len() <= 4,
{
    lemma_cut(u, max);
    let r = cut_name(u, max);
    lemma_stem(r);
    lemma_device_len(r);
    let n = stem(r).len() as int;
    if n < r.len() {
        assert forall|i: int| 0 <= i < r.len() implies #[trigger] r[i] == u[i] by {}
        assert(u[n] == '.');
        assert forall|i: int| 0 <= i < n implies #[trigger] u[i] != '.' by {
            assert(r[i] != '.');
        }
        lemma_stem_is(u, n);
        assert(stem(u) =~= stem(r));
    }
}

proof fn lemma_untitled()
    ensures
        "untitled"@.len() == 8,
        fit("untitled"@),
        !windows_reserved("untitled"@),
{
    reveal_strlit("untitled");
    let u = "untitled"@;
    assert forall|i: int| 0 <= i < u.len() implies !white(#[trigger] u[i]) && !illegal(u[i])
        && !control(u[i]) && u[i] != '.' by {}
    lemma_stem_is(u, 8);
    if windows_reserved(u) {
        lemma_device_len(u);
    }
}

/// A name fit to be a path component: it is never empty, fits the length set
/// aside for it, holds no separator, no character Windows refuses and no
/// control character, keeps no white space but the space and no two of those
/// together, and begins and ends with neither a dot nor white space.
pub proof fn law_sanitized_names_are_safe(s: Seq<char>)
    ensures
        0 < sanitized(s).len() <= 150,
        forall|i: int|
            0 <= i < sanitized(s).len() ==> {
                let c = #[trigger] sanitized(s)[i];
                !illegal(c) && !control(c) && (white(c) ==> c == ' ')
            },
        single_spaced(sanitized(s)),
        !padding(sanitized(s)[0]),
        !padding(sanitized(s).last()),
{
    lemma_sanitized(s);
}

/// No name is a device on Windows, whatever its case and even with an extension
/// after it.
pub proof fn law_sanitized_names_are_not_devices(s: Seq<char>)
    ensures
        !windows_reserved(sanitized(s)),
{
    lemma_sanitized(s);
}

proof fn lemma_sanitized(s: Seq<char>)
    ensures
        0 < sanitized(s).len() <= 150,
        fit(sanitized(s)),
        !windows_reserved(sanitized(s)),
{
    let bare = bare_name(s);
    lemma_bare_name(s);
    lemma_untitled();
    if bare.len() > 0 {
        let u = marked(bare);
        lemma_marked(bare);
        let r = cut_name(u, 150);
        lemma_cut(u, 150);
        lemma_marked(r);
        if windows_reserved(r) {
            lemma_cut_device(u, 150);
        }
    }
}

/// Extensions accepted from a URL. An allowlist rather than a shape test,
/// because plenty of enclosure URLs end in something that merely looks like an
/// extension — a redirector ending in `/example.com` would otherwise write
/// every episode of that show as a `.com` file.
pub open spec fn media_extension(e: Seq<char>) -> bool {
    ||| e == "mp3"@
    ||| e == "m4a"@
    ||| e == "m4b"@
    ||| e == "aac"@
    ||| e == "ogg"@
    ||| e == "oga"@
    ||| e == "opus"@
    ||| e == "wav"@
    ||| e == "flac"@
    ||| e == "aif"@
    ||| e == "aiff"@
    ||| e == "wma"@
    ||| e == "caf"@
    ||| e == "mp4"@
    ||| e == "m4v"@
    ||| e == "mov"@
    ||| e == "webm"@
    ||| e == "mkv"@
    ||| e == "avi"@
}

/// Whether `e` is on the list of media extensions.
fn is_media_extension(e: &[char]) -> (b: bool)
    ensures
        b == media_extension(e@),
{
    is_text(e, "mp3") || is_text(e, "m4a") || is_text(e, "m4b") || is_text(e, "aac") || is_text(
        e,
        "ogg",
    ) || is_text(e, "oga") || is_text(e, "opus") || is_text(e, "wav") || is_text(e, "flac")
        || is_text(e, "aif") || is_text(e, "aiff") || is_text(e, "wma") || is_text(e, "caf")
        || is_text(e, "mp4") || is_text(e, "m4v") || is_text(e, "mov") || is_text(e, "webm")
        || is_text(e, "mkv") || is_text(e, "avi")
}

/// The extension a URL ends in, in small letters: what follows the last dot of
/// the last path segment, the query and the fragment left aside.
pub open spec fn url_extension(url: Seq<char>) -> Option<Seq<char>> {
    let file = after_last(url.take(first_of(url, seq!['?', '#'])), '/');
    if last_of(file, '.') < 0 {
        None
    } else {
        Some(lower(trim(after_last(file, '.'))))
    }
}

/// The extension that goes with a MIME type, parameters left aside. Anything
/// unrecognised is taken to be an MP3.
pub open spec fn mime_extension(mime: Seq<char>) -> Seq<char> {
    let m = lower(trim(mime.take(first_of(mime, seq![';']))));
    if m == "audio/mpeg"@ || m == "audio/mp3"@ {
        "mp3"@
    } else if m == "audio/mp4"@ || m == "audio/x-m4a"@ || m == "audio/m4a"@ {
        "m4a"@
    } else if m == "audio/aac"@ {
        "aac"@
    } else if m == "audio/ogg"@ || m == "application/ogg"@ {
        "ogg"@
    } else if m == "audio/opus"@ {
        "opus"@
    } else if m == "audio/wav"@ || m == "audio/x-wav"@ {
        "wav"@
    } else if m == "audio/flac"@ || m == "audio/x-flac"@ {
        "flac"@
    } else if m == "video/mp4"@ {
        "mp4"@
    } else if m == "video/quicktime"@ {
        "mov"@
    } else if m == "video/x-m4v"@ {
        "m4v"@
    } else {
        "mp3"@
    }
}

/// The extension an episode's file gets.
pub open spec fn chosen_extension(url: Seq<char>, mime: Option<Seq<char>>) -> Seq<char> {
    match url_extension(url) {
        Some(e) if media_extension(e) => e,
        _ => match mime {
            Some(m) => mime_extension(m),
            None => "mp3"@,
        },
    }
}

/// The text behind an optional slice.
pub open spec fn text_of(s: Option<&str>) -> Option<Seq<char>> {
    match s {
        Some(t) => Some(t@),
        None => None,
    }
}

/// Pull a file extension out of an enclosure URL, falling back to the MIME type.
/// Many feeds hand out tracking URLs with no extension at all.
pub fn extension_for(url: &str, mime: Option<&str>) -> (r: String)
    ensures
        r@ == chosen_extension(url@, text_of(mime)),
{
    let cs = chars_of(url);
    let marks: [char; 2] = ['?', '#'];
    assert(marks@ =~= seq!['?', '#']);
    let n = find_of(cs.as_slice(), marks.as_slice());
    let path = slice_subrange(cs.as_slice(), 0, n);
    let at = find_after_last(path, '/');
    let file = slice_subrange(path, at, path.len());
    assert(file@ =~= after_last(path@, '/'));
    let dot = find_after_last(file, '.');
    if dot > 0 {
        let tail = slice_subrange(file, dot, file.len());
        assert(tail@ =~= after_last(file@, '.'));
        let ext = to_lower(trimmed(tail));
        if is_media_extension(ext.as_slice()) {
            return string_of(ext.as_slice());
        }
    }
    match mime {
        Some(m) => extension_for_mime(m),
        None => owned("mp3"),
    }
}

/// The extension that goes with a MIME type.
fn extension_for_mime(mime: &str) -> (r: String)
    ensures
        r@ == mime_extension(mime@),
{
    let cs = chars_of(mime);
    let marks: [char; 1] = [';'];
    assert(marks@ =~= seq![';']);
    let n = find_of(cs.as_slice(), marks.as_slice());
    let m = to_lower(trimmed(slice_subrange(cs.as_slice(), 0, n)));
    let m = m.as_slice();
    owned(
        if is_text(m, "audio/mpeg") || is_text(m, "audio/mp3") {
            "mp3"
        } else if is_text(m, "audio/mp4") || is_text(m, "audio/x-m4a") || is_text(m, "audio/m4a") {
            "m4a"
        } else if is_text(m, "audio/aac") {
            "aac"
        } else if is_text(m, "audio/ogg") || is_text(m, "application/ogg") {
            "ogg"
        } else if is_text(m, "audio/opus") {
            "opus"
        } else if is_text(m, "audio/wav") || is_text(m, "audio/x-wav") {
            "wav"
        } else if is_text(m, "audio/flac") || is_text(m, "audio/x-flac") {
            "flac"
        } else if is_text(m, "video/mp4") {
            "mp4"
        } else if is_text(m, "video/quicktime") {
            "mov"
        } else if is_text(m, "video/x-m4v") {
            "m4v"
        } else {
            "mp3"
        },
    )
}

/// An episode's file always gets an extension from the list of media
/// extensions, whatever the feed says.
pub proof fn law_extensions_are_media(url: Seq<char>, mime: Option<Seq<char>>)
    ensures
        media_extension(chosen_extension(url, mime)),
{
}

/// The two schemes a feed or an episode may be fetched over.
pub open spec fn http_url(url: Seq<char>) -> bool {
    starts_with(lower(url), "http://"@) || starts_with(lower(url), "https://"@)
}

/// Whether a URL is one that may be fetched: `http` or `https`, whatever the
/// case, and nothing else. A subscription list and a feed are files from
/// outside, and neither gets to name a `file://`.
pub fn looks_like_http(url: &str) -> (b: bool)
    ensures
        b == http_url(url@),
{
    let cs = chars_of(url);
    is_http(cs.as_slice())
}

/// Whether a URL is one that may be fetched.
pub fn is_http(url: &[char]) -> (b: bool)
    ensures
        b == http_url(url@),
{
    let low = to_lower(url);
    let plain = chars_of("http://");
    let secure = chars_of("https://");
    has_prefix(low.as_slice(), plain.as_slice()) || has_prefix(low.as_slice(), secure.as_slice())
}

/// The extension of a file name: what follows its last dot, as long as
/// something stands before that dot.
pub open spec fn file_extension(name: Seq<char>) -> Option<Seq<char>> {
    if last_of(name, '.') <= 0 {
        None
    } else {
        Some(after_last(name, '.'))
    }
}

/// Whether a file name has one of the media extensions.
pub open spec fn media_file(name: Seq<char>) -> bool {
    match file_extension(name) {
        Some(e) => media_extension(lower(e)),
        None => false,
    }
}

/// Whether a file is audio or video, going by its name.
pub fn is_media(name: &str) -> (b: bool)
    ensures
        b == media_file(name@),
{
    let cs = chars_of(name);
    let dot = find_after_last(cs.as_slice(), '.');
    if dot <= 1 {
        return false;
    }
    let ext = slice_subrange(cs.as_slice(), dot, cs.len());
    assert(ext@ =~= after_last(cs@, '.'));
    let low = to_lower(ext);
    is_media_extension(low.as_slice())
}

/// When an episode was published, in UTC and to the minute.
#[derive(Debug, Clone, Copy, PartialEq, Eq, PartialOrd, Ord, Structural)]
pub struct Published {
    pub year: i32,
    pub month: u32,
    pub day: u32,
    pub hour: u32,
    pub minute: u32,
}

impl Published {
    /// Minutes since the start of 1970.
    pub open spec fn instant(self) -> int {
        civil_days(self.year as int, self.month as int, self.day as int) * 1440 + self.hour * 60
            + self.minute
    }

    /// A date the calendar has, and a time the clock has.
    pub open spec fn genuine(self) -> bool {
        valid_date(self.year as int, self.month as int, self.day as int) && self.hour < 24
            && self.minute < 60
    }

    /// The moment a number of minutes since the start of 1970. A year outside
    /// 32 bits keeps its low bits.
    pub open spec fn at(total: int) -> Published {
        let d = date_of(total / 1440);
        Published {
            year: wrap32(d.0) as i32,
            month: d.1 as u32,
            day: d.2 as u32,
            hour: (total % 1440 / 60) as u32,
            minute: (total % 60) as u32,
        }
    }

    /// The name an episode published then gets: `ddmmyy-hhmm`.
    pub open spec fn name(self) -> Seq<char> {
        padded(self.day as int, 2) + padded(self.month as int, 2) + padded(
            self.year as int % 100,
            2,
        ) + seq!['-'] + padded(self.hour as int, 2) + padded(self.minute as int, 2)
    }

    /// The file name an episode gets: `ddmmyy-hhmm`.
    pub fn stamp(&self) -> (r: String)
        ensures
            r@ == self.name(),
    {
        let mut s = String::new();
        push_padded(&mut s, self.day as u64, 2);
        push_padded(&mut s, self.month as u64, 2);
        push_padded(&mut s, year_of_century(self.year), 2);
        s.push('-');
        push_padded(&mut s, self.hour as u64, 2);
        push_padded(&mut s, self.minute as u64, 2);
        assert(s@ =~= self.name());
        s
    }

    /// The same instant `minutes` earlier or later, rolling over days, months
    /// and years as it needs to. Used to take a feed's zone offset back off.
    pub fn shifted(self, minutes: i64) -> (r: Self)
        requires
            1 <= self.month <= 12,
            i64::MIN <= self.instant() + minutes <= i64::MAX,
        ensures
            r == Published::at(self.instant() + minutes),
    {
        let start: i64 = minutes_of(self);
        let total: i64 = start + minutes;
        let day_count: i64 = floor_div(total, 1440);
        proof {
            lemma_within_day(total as int);
        }
        let time: i64 = if total >= 0 {
            total - day_count * 1440
        } else {
            total - (day_count + 1) * 1440 + 1440
        };
        let (year, month, day) = civil_from_days(day_count);
        let minute = minute_of_day(time);
        Published { year, month, day, hour: (time / 60) as u32, minute }
    }
}

/// Minutes since the start of 1970.
fn minutes_of(p: Published) -> (r: i64)
    requires
        1 <= p.month <= 12,
    ensures
        r == p.instant(),
{
    let days = days_from_civil(p.year, p.month, p.day);
    days * 1440 + p.hour as i64 * 60 + p.minute as i64
}

/// The minute a number of minutes into a day is at.
fn minute_of_day(time: i64) -> (r: u32)
    requires
        0 <= time < 1440,
    ensures
        r == time as int % 60,
{
    (time % 60) as u32
}

proof fn lemma_within_day(total: int)
    ensures
        0 <= total - (total / 1440) * 1440 < 1440,
        total - (total / 1440) * 1440 == total % 1440,
        total % 60 == (total % 1440) % 60,
        total / 1440 <= total || total < 0,
        i64::MIN <= total <= i64::MAX ==> -10_000_000_000_000_000 < total / 1440
            < 10_000_000_000_000_000,
{
    vstd::arithmetic::div_mod::lemma_fundamental_div_mod(total, 1440);
    vstd::arithmetic::div_mod::lemma_fundamental_div_mod_converse(
        total,
        60,
        (total / 1440) * 24 + (total % 1440) / 60,
        (total % 1440) % 60,
    );
}

/// The last two digits of a year.
fn year_of_century(year: i32) -> (r: u64)
    ensures
        r == year as int % 100,
{
    if year >= 0 {
        (year % 100) as u64
    } else {
        let back: i64 = -1 - (year as i64);
        (99 - back % 100) as u64
    }
}

proof fn lemma_two_digits(n: int)
    requires
        0 <= n < 100,
    ensures
        padded(n, 2).len() == 2,
        all_digits(padded(n, 2)),
        padded(n, 2)[0] == digit(n / 10),
        padded(n, 2)[1] == digit(n % 10),
{
    reveal_with_fuel(decimal, 3);
    if n < 10 {
        assert(zeros(1) =~= seq!['0']);
        assert(padded(n, 2) =~= seq!['0', digit(n)]);
    } else {
        assert(padded(n, 2) =~= seq![digit(n / 10), digit(n % 10)]);
    }
}

/// Every stamp of a real moment is the same width, and holds nothing but digits
/// and the one dash.
pub proof fn law_stamps_are_one_width(p: Published)
    requires
        p.genuine(),
    ensures
        p.name().len() == 11,
        p.name()[6] == '-',
        all_digits(p.name().take(6)),
        all_digits(p.name().skip(7)),
{
    let y = p.year as int % 100;
    lemma_two_digits(p.day as int);
    lemma_two_digits(p.month as int);
    lemma_two_digits(y);
    lemma_two_digits(p.hour as int);
    lemma_two_digits(p.minute as int);
    assert(p.name().take(6) =~= padded(p.day as int, 2) + padded(p.month as int, 2) + padded(y, 2));
    assert(p.name().skip(7) =~= padded(p.hour as int, 2) + padded(p.minute as int, 2));
}

/// Two real moments of one century get the same stamp only when they are the
/// same minute.
pub proof fn law_stamps_tell_moments_apart(p: Published, q: Published)
    requires
        p.genuine(),
        q.genuine(),
        p.year as int / 100 == q.year as int / 100,
        p.name() == q.name(),
    ensures
        p == q,
{
    let py = p.year as int % 100;
    let qy = q.year as int % 100;
    lemma_two_digits(p.day as int);
    lemma_two_digits(p.month as int);
    lemma_two_digits(py);
    lemma_two_digits(p.hour as int);
    lemma_two_digits(p.minute as int);
    lemma_two_digits(q.day as int);
    lemma_two_digits(q.month as int);
    lemma_two_digits(qy);
    lemma_two_digits(q.hour as int);
    lemma_two_digits(q.minute as int);
    let a = p.name();
    let b = q.name();
    assert(a[0] == b[0] && a[1] == b[1] && a[2] == b[2] && a[3] == b[3] && a[4] == b[4] && a[5]
        == b[5]);
    assert(a[7] == b[7] && a[8] == b[8] && a[9] == b[9] && a[10] == b[10]);
}

/// Moving a moment gives the moment that many minutes away, a real one, for as
/// long as its year fits its type.
#[verifier::spinoff_prover]
pub proof fn law_shifting_keeps_the_instant(total: int)
    requires
        i32::MIN <= date_of(total / 1440).0 <= i32::MAX,
    ensures
        Published::at(total).genuine(),
        Published::at(total).instant() == total,
{
    let days = total / 1440;
    let date = date_of(days);
    let p = Published::at(total);
    lemma_clock_parts(total);
    assert(valid_date(date.0, date.1, date.2) && civil_days(date.0, date.1, date.2) == days) by {
        law_dates_and_days_are_inverse(days);
    }
    lemma_wrap_fits(date.0);
    assert(p.year == date.0 && p.month == date.1 && p.day == date.2);
    assert(p.hour == total % 1440 / 60 && p.minute == total % 60);
}

/// A number of minutes is its days, the hours left and the minutes left.
proof fn lemma_clock_parts(total: int)
    ensures
        total == total / 1440 * 1440 + total % 1440 / 60 * 60 + total % 60,
        0 <= total % 1440 / 60 < 24,
        0 <= total % 60 < 60,
        total % 1440 % 60 == total % 60,
{
    let days = total / 1440;
    let time = total % 1440;
    let hour = time / 60;
    let minute = time % 60;
    vstd::arithmetic::div_mod::lemma_fundamental_div_mod(total, 1440);
    vstd::arithmetic::div_mod::lemma_mod_bound(total, 1440);
    lemma_hour(time);
    assert(total == days * 1440 + hour * 60 + minute);
    lemma_clock(days, hour, minute, total);
}

proof fn lemma_hour(time: int)
    requires
        0 <= time < 1440,
    ensures
        time == time / 60 * 60 + time % 60,
        0 <= time / 60 < 24,
        0 <= time % 60 < 60,
{
}

proof fn lemma_wrap_fits(n: int)
    requires
        i32::MIN <= n <= i32::MAX,
    ensures
        wrap32(n) == n,
{
    vstd::arithmetic::div_mod::lemma_small_mod((n + 0x8000_0000) as nat, 0x1_0000_0000);
}

/// A real moment is the one its own instant names, so two real moments of the
/// same instant are equal, and so are the names made of them.
pub proof fn law_one_instant_one_moment(p: Published, q: Published)
    requires
        p.genuine(),
        q.genuine(),
        p.instant() == q.instant(),
    ensures
        p == Published::at(p.instant()),
        p == q,
        p.name() == q.name(),
{
    lemma_real_moment(p);
    lemma_real_moment(q);
}

proof fn lemma_real_moment(p: Published)
    requires
        p.genuine(),
    ensures
        p == Published::at(p.instant()),
{
    let days = civil_days(p.year as int, p.month as int, p.day as int);
    lemma_clock(days, p.hour as int, p.minute as int, p.instant());
    assert(date_of(days) == (p.year as int, p.month as int, p.day as int)) by {
        law_dates_and_days_are_inverse(days);
        assert(valid_date(p.year as int, p.month as int, p.day as int));
    }
    lemma_wrap_fits(p.year as int);
}

proof fn lemma_clock(days: int, hour: int, minute: int, total: int)
    requires
        total == days * 1440 + hour * 60 + minute,
        0 <= hour < 24,
        0 <= minute < 60,
    ensures
        total / 1440 == days,
        total % 1440 / 60 == hour,
        total % 60 == minute,
{
    let time = hour * 60 + minute;
    vstd::arithmetic::div_mod::lemma_fundamental_div_mod_converse(total, 1440, days, time);
    vstd::arithmetic::div_mod::lemma_fundamental_div_mod_converse(time, 60, hour, minute);
    vstd::arithmetic::div_mod::lemma_fundamental_div_mod_converse(
        total,
        60,
        days * 24 + hour,
        minute,
    );
}

/// A number with zeros in front up to `width` characters, the sign included.
pub open spec fn signed_padded(n: int, width: int) -> Seq<char> {
    if n < 0 {
        seq!['-'] + padded(-n, width - 1)
    } else {
        padded(n, width)
    }
}

/// A moment written for a log line, `secs` seconds and `millis` milliseconds
/// after the start of 1970.
pub open spec fn log_stamp(secs: int, millis: int) -> Seq<char> {
    let d = date_of(secs / 86_400);
    let time = secs % 86_400;
    signed_padded(wrap32(d.0), 4) + "-"@ + padded(d.1, 2) + "-"@ + padded(d.2, 2) + " "@ + padded(
        time / 3600,
        2,
    ) + ":"@ + padded(time % 3600 / 60, 2) + ":"@ + padded(time % 60, 2) + "."@ + padded(millis, 3)
        + "Z"@
}

/// A year in at least four characters, the sign included.
fn year_text(year: i32) -> (r: String)
    ensures
        r@ == signed_padded(year as int, 4),
{
    let mut s = String::new();
    if year < 0 {
        s.push('-');
        push_padded(&mut s, (-(year as i64)) as u64, 3);
    } else {
        push_padded(&mut s, year as u64, 4);
    }
    assert(s@ =~= signed_padded(year as int, 4));
    s
}

/// A moment written for a log line: `2026-08-16 14:03:22.123Z`.
///
/// UTC, and marked as UTC. Finding the local zone offset portably needs either
/// a calendar library or a call into libc that isn't sound to make once threads
/// are running, and a log timestamped an hour out is worse than an honest `Z`.
pub fn utc_stamp(secs: u64, millis: u32) -> (r: String)
    requires
        secs <= i64::MAX,
    ensures
        r@ == log_stamp(secs as int, millis as int),
{
    let days = secs / 86_400;
    let time = secs % 86_400;
    let (year, month, day) = civil_from_days(days as i64);
    let mut s = year_text(year);
    s.push_str("-");
    push_padded(&mut s, month as u64, 2);
    s.push_str("-");
    push_padded(&mut s, day as u64, 2);
    s.push_str(" ");
    push_padded(&mut s, time / 3600, 2);
    s.push_str(":");
    push_padded(&mut s, time % 3600 / 60, 2);
    s.push_str(":");
    push_padded(&mut s, time % 60, 2);
    s.push_str(".");
    push_padded(&mut s, millis as u64, 3);
    s.push_str("Z");
    s
}

/// The month that a three-letter English name means.
pub open spec fn month_number(name: Seq<char>) -> Option<int> {
    let m = lower(name);
    if m == "jan"@ {
        Some(1)
    } else if m == "feb"@ {
        Some(2)
    } else if m == "mar"@ {
        Some(3)
    } else if m == "apr"@ {
        Some(4)
    } else if m == "may"@ {
        Some(5)
    } else if m == "jun"@ {
        Some(6)
    } else if m == "jul"@ {
        Some(7)
    } else if m == "aug"@ {
        Some(8)
    } else if m == "sep"@ {
        Some(9)
    } else if m == "oct"@ {
        Some(10)
    } else if m == "nov"@ {
        Some(11)
    } else if m == "dec"@ {
        Some(12)
    } else {
        None
    }
}

/// Reads the name of a month.
fn month_from_name(name: &[char]) -> (r: Option<u32>)
    ensures
        match month_number(name@) {
            Some(n) => r == Some(n as u32) && 1 <= n <= 12,
            None => r is None,
        },
{
    let low = to_lower(name);
    let m = low.as_slice();
    if is_text(m, "jan") {
        Some(1)
    } else if is_text(m, "feb") {
        Some(2)
    } else if is_text(m, "mar") {
        Some(3)
    } else if is_text(m, "apr") {
        Some(4)
    } else if is_text(m, "may") {
        Some(5)
    } else if is_text(m, "jun") {
        Some(6)
    } else if is_text(m, "jul") {
        Some(7)
    } else if is_text(m, "aug") {
        Some(8)
    } else if is_text(m, "sep") {
        Some(9)
    } else if is_text(m, "oct") {
        Some(10)
    } else if is_text(m, "nov") {
        Some(11)
    } else if is_text(m, "dec") {
        Some(12)
    } else {
        None
    }
}

/// The hour and minute that `hh:mm` or `hh:mm:ss` names, the seconds thrown
/// away — a name to the minute is as fine-grained as anyone wants to read.
pub open spec fn clock_time(text: Seq<char>) -> Option<(int, int)> {
    let parts = pieces(trim(text), ':');
    if parts.len() < 2 {
        None
    } else {
        match (
            unsigned_number(parts[0], u32::MAX as int),
            unsigned_number(trim(parts[1]), u32::MAX as int),
        ) {
            (Some(h), Some(m)) if h < 24 && m < 60 => Some((h, m)),
            _ => None,
        }
    }
}

/// Reads a time of day.
fn clock(text: &[char]) -> (r: Option<(u32, u32)>)
    ensures
        match clock_time(text@) {
            Some(t) => r == Some((t.0 as u32, t.1 as u32)) && 0 <= t.0 < 24 && 0 <= t.1 < 60,
            None => r is None,
        },
{
    let parts = split_on(trimmed(text), ':');
    let ghost ps = views(parts@);
    if parts.len() < 2 {
        return None;
    }
    assert(ps[0] == parts@[0]@ && ps[1] == parts@[1]@);
    let hour = parse_unsigned(parts[0].as_slice(), u32::MAX as u64);
    let minute = parse_unsigned(trimmed(parts[1].as_slice()), u32::MAX as u64);
    match (hour, minute) {
        (Some(h), Some(m)) => {
            if h < 24 && m < 60 {
                Some((h as u32, m as u32))
            } else {
                None
            }
        },
        _ => None,
    }
}

/// The ASCII digits of a text, the rest left out.
pub open spec fn digits_of(s: Seq<char>) -> Seq<char>
    decreases s.len(),
{
    if s.len() == 0 {
        Seq::empty()
    } else if '0' <= s[0] <= '9' {
        seq![s[0]] + digits_of(s.skip(1))
    } else {
        digits_of(s.skip(1))
    }
}

/// Keeps the ASCII digits of a text.
fn keep_digits(cs: &[char]) -> (r: Vec<char>)
    ensures
        r@ == digits_of(cs@),
{
    let mut r: Vec<char> = Vec::new();
    let mut i: usize = 0;
    assert(cs@.skip(0) =~= cs@);
    while i < cs.len()
        invariant
            i <= cs@.len(),
            digits_of(cs@) == r@ + digits_of(cs@.skip(i as int)),
        decreases cs@.len() - i,
    {
        let ghost before = r@;
        assert(cs@.skip(i as int).skip(1) =~= cs@.skip(i + 1));
        if '0' <= cs[i] && cs[i] <= '9' {
            r.push(cs[i]);
        }
        assert(r@ + digits_of(cs@.skip(i + 1)) =~= before + digits_of(cs@.skip(i as int)));
        i += 1;
    }
    assert(r@ + digits_of(cs@.skip(i as int)) =~= r@);
    r
}

/// The minutes that the digits of a numeric zone stand for: two digits are
/// hours, four are hours and minutes, and anything else says nothing.
pub open spec fn offset_digits(d: Seq<char>) -> int {
    let h = if d.len() == 2 { d } else { d.take(2) };
    let m = if d.len() == 2 { Seq::empty() } else { d.skip(2) };
    if (d.len() == 2 || d.len() == 4) && digits_value(h) < 24 && digits_value(m) < 60 {
        (digits_value(h) * 60 + digits_value(m)) as int
    } else {
        0
    }
}

/// Minutes east of UTC of a zone: `+0100`, `-04:00`, `+01`, or one of the names
/// that plenty of feeds still use. Anything else counts as UTC.
pub open spec fn zone_minutes(zone: Option<Seq<char>>) -> int {
    match zone {
        None => 0,
        Some(text) => {
            let z = trim(text);
            let n = lower(z);
            if z.len() == 0 {
                0
            } else if z[0] == '+' {
                offset_digits(digits_of(z.skip(1)))
            } else if z[0] == '-' {
                -offset_digits(digits_of(z.skip(1)))
            } else if n == "edt"@ {
                -240
            } else if n == "est"@ || n == "cdt"@ {
                -300
            } else if n == "cst"@ || n == "mdt"@ {
                -360
            } else if n == "mst"@ || n == "pdt"@ {
                -420
            } else if n == "pst"@ {
                -480
            } else {
                0
            }
        },
    }
}

proof fn lemma_digits_of(s: Seq<char>)
    ensures
        all_digits(digits_of(s)),
    decreases s.len(),
{
    if s.len() > 0 {
        lemma_digits_of(s.skip(1));
    }
}

proof fn lemma_short_value(s: Seq<char>)
    requires
        all_digits(s),
        s.len() <= 2,
    ensures
        digits_value(s) < 100,
{
    reveal_with_fuel(digits_value, 3);
    if s.len() == 2 {
        assert(s.drop_last()[0] == s[0]);
        assert(s.drop_last().drop_last().len() == 0);
    }
}

/// The text behind an optional list of characters.
pub open spec fn slice_text(s: Option<&[char]>) -> Option<Seq<char>> {
    match s {
        Some(t) => Some(t@),
        None => None,
    }
}

/// Minutes east of UTC. An unreadable or absent zone counts as UTC, which is
/// what the timestamp then gets taken as saying.
fn zone_offset(zone: Option<&[char]>) -> (r: i64)
    ensures
        r == zone_minutes(slice_text(zone)),
        -1440 < r < 1440,
{
    let z = match zone {
        Some(t) => trimmed(t),
        None => return 0,
    };
    if z.len() == 0 {
        return 0;
    }
    if z[0] == '+' || z[0] == '-' {
        let digits = keep_digits(slice_subrange(z, 1, z.len()));
        proof {
            lemma_digits_of(z@.skip(1));
            assert(z@.subrange(1, z@.len() as int) =~= z@.skip(1));
        }
        let n: usize = digits.len();
        if n != 2 && n != 4 {
            return 0;
        }
        let d = digits.as_slice();
        let hours = slice_subrange(d, 0, 2);
        let minutes = slice_subrange(d, 2, n);
        proof {
            assert(n == 2 ==> hours@ =~= d@);
            assert(n == 2 ==> minutes@ =~= Seq::<char>::empty());
            assert(n == 4 ==> hours@ =~= d@.take(2));
            assert(n == 4 ==> minutes@ =~= d@.skip(2));
            assert forall|i: int| 0 <= i < hours@.len() implies '0' <= #[trigger] hours@[i]
                <= '9' by {
                assert(hours@[i] == d@[i]);
            }
            assert forall|i: int| 0 <= i < minutes@.len() implies '0' <= #[trigger] minutes@[i]
                <= '9' by {
                assert(minutes@[i] == d@[i + 2]);
            }
            lemma_short_value(hours@);
            lemma_short_value(minutes@);
        }
        let h: u64 = match parse_number(hours, 99) {
            Some(h) => h,
            None => 99,
        };
        let m: u64 = if n == 2 {
            0
        } else {
            match parse_number(minutes, 99) {
                Some(m) => m,
                None => 99,
            }
        };
        if h >= 24 || m >= 60 {
            return 0;
        }
        let total: i64 = (h * 60 + m) as i64;
        return if z[0] == '+' {
            total
        } else {
            -total
        };
    }
    let low = to_lower(z);
    let name = low.as_slice();
    if is_text(name, "edt") {
        -240
    } else if is_text(name, "est") || is_text(name, "cdt") {
        -300
    } else if is_text(name, "cst") || is_text(name, "mdt") {
        -360
    } else if is_text(name, "mst") || is_text(name, "pdt") {
        -420
    } else if is_text(name, "pst") {
        -480
    } else {
        0
    }
}

/// A year written with two digits is one of the last or the present century.
pub open spec fn full_year(year: int) -> int {
    if 0 <= year <= 49 {
        2000 + year
    } else if 50 <= year <= 99 {
        1900 + year
    } else {
        year
    }
}

/// A date with its time and zone: the moment it names in UTC, or nothing when
/// the time cannot be read.
pub open spec fn zoned(
    year: int,
    month: int,
    day: int,
    time: Option<Seq<char>>,
    zone: Option<Seq<char>>,
) -> Option<Published> {
    let local = match time {
        Some(t) => clock_time(t),
        None => Some((0int, 0int)),
    };
    match local {
        Some((hour, minute)) => Some(
            Published::at(
                civil_days(year, month, day) * 1440 + hour * 60 + minute - zone_minutes(zone),
            ),
        ),
        None => None,
    }
}

/// The part of a timestamp after its optional `Tue, ` prefix.
pub open spec fn without_weekday(input: Seq<char>) -> Seq<char> {
    let s = trim(input);
    let n = first_of(s, seq![',']);
    if n < s.len() {
        trim(s.skip(n + 1))
    } else {
        s
    }
}

/// The word at `i`, when there is one.
pub open spec fn nth(ws: Seq<Seq<char>>, i: int) -> Option<Seq<char>> {
    if 0 <= i < ws.len() {
        Some(ws[i])
    } else {
        None
    }
}

/// The moment an RFC 2822 timestamp names: day, month, year, and then the time
/// and the zone, both of them optional. A bare date is midnight.
pub open spec fn rss_date(input: Seq<char>) -> Option<Published> {
    let ws = words(without_weekday(input));
    if ws.len() < 3 {
        None
    } else {
        match (
            unsigned_number(ws[0], u32::MAX as int),
            month_number(ws[1]),
            signed_number(ws[2]),
        ) {
            (Some(day), Some(month), Some(year)) if 1 <= day <= 31 => zoned(
                full_year(year),
                month,
                day,
                nth(ws, 3),
                nth(ws, 4),
            ),
            _ => None,
        }
    }
}

/// Parse an RFC 2822 timestamp — the format RSS `pubDate` uses. Returns `None`
/// for anything we don't recognise; a feed that won't say when an episode came
/// out doesn't get a timestamped name.
pub fn rfc2822(input: &str) -> (r: Option<Published>)
    ensures
        r == rss_date(input@),
{
    let cs = chars_of(input);
    let s = trimmed(cs.as_slice());
    // Optional "Tue, " day-of-week prefix.
    let comma: [char; 1] = [','];
    assert(comma@ =~= seq![',']);
    let n = find_of(s, comma.as_slice());
    let s = if n < s.len() {
        let rest = slice_subrange(s, n + 1, s.len());
        assert(rest@ =~= s@.skip(n + 1));
        trimmed(rest)
    } else {
        s
    };

    let parts = split_words(s);
    let ghost ws = views(parts@);
    assert(ws == words(without_weekday(input@)));
    assert forall|i: int| 0 <= i < parts@.len() implies ws[i] == #[trigger] parts@[i]@ by {}
    if parts.len() < 3 {
        return None;
    }
    let day: u32 = match parse_unsigned(parts[0].as_slice(), u32::MAX as u64) {
        Some(d) => d as u32,
        None => return None,
    };
    let month: u32 = match month_from_name(parts[1].as_slice()) {
        Some(m) => m,
        None => return None,
    };
    let year_raw: i32 = match parse_signed(parts[2].as_slice()) {
        Some(y) => y,
        None => return None,
    };
    // RFC 822 allowed two-digit years and some feeds still emit them.
    let year: i32 = if 0 <= year_raw && year_raw <= 49 {
        2000 + year_raw
    } else if 50 <= year_raw && year_raw <= 99 {
        1900 + year_raw
    } else {
        year_raw
    };

    if day < 1 || day > 31 {
        return None;
    }
    // A time is optional in RFC 822 and missing from the odd feed; midnight is
    // the conventional reading of a bare date.
    let (hour, minute): (u32, u32) = if parts.len() > 3 {
        match clock(parts[3].as_slice()) {
            Some(t) => t,
            None => return None,
        }
    } else {
        (0, 0)
    };

    let zone = if parts.len() > 4 {
        zone_offset(Some(parts[4].as_slice()))
    } else {
        zone_offset(None)
    };
    let published = Published { year, month, day, hour, minute };
    proof {
        lemma_days_fit(published.year, published.month, published.day);
    }
    Some(published.shifted(-zone))
}

/// Where the zone of an ISO 8601 time starts: at the first `Z` or plus sign,
/// else at the first minus sign, else at the end.
pub open spec fn zone_start(rest: Seq<char>) -> int {
    let n = first_of(rest, seq!['Z', 'z', '+']);
    if n < rest.len() {
        n
    } else {
        first_of(rest, seq!['-'])
    }
}

/// The moment an ISO 8601 timestamp names. A bare date is midnight.
pub open spec fn atom_date(input: Seq<char>) -> Option<Published> {
    let s = trim(input);
    let n = first_of(s, seq!['T', 't', ' ']);
    let fields = pieces(s.take(n), '-');
    if fields.len() < 3 {
        None
    } else {
        match (
            signed_number(fields[0]),
            unsigned_number(fields[1], u32::MAX as int),
            unsigned_number(fields[2], u32::MAX as int),
        ) {
            (Some(year), Some(month), Some(day)) if 1 <= month <= 12 && 1 <= day <= 31 => {
                if n >= s.len() {
                    Some(
                        Published {
                            year: year as i32,
                            month: month as u32,
                            day: day as u32,
                            hour: 0,
                            minute: 0,
                        },
                    )
                } else {
                    let rest = s.skip(n + 1);
                    let at = zone_start(rest);
                    zoned(
                        year,
                        month,
                        day,
                        Some(rest.take(at)),
                        if at < rest.len() {
                            Some(rest.skip(at))
                        } else {
                            None
                        },
                    )
                }
            },
            _ => None,
        }
    }
}

/// Accept an ISO 8601 / RFC 3339 timestamp, which is what Atom's `published`
/// and `updated` carry.
pub fn iso8601(input: &str) -> (r: Option<Published>)
    ensures
        r == atom_date(input@),
{
    let cs = chars_of(input);
    let s = trimmed(cs.as_slice());
    let gap: [char; 3] = ['T', 't', ' '];
    assert(gap@ =~= seq!['T', 't', ' ']);
    let n = find_of(s, gap.as_slice());
    let fields = split_on(slice_subrange(s, 0, n), '-');
    let ghost fs = views(fields@);
    assert(s@.subrange(0, n as int) =~= s@.take(n as int));
    assert forall|i: int| 0 <= i < fields@.len() implies fs[i] == #[trigger] fields@[i]@ by {}
    if fields.len() < 3 {
        return None;
    }
    let year: i32 = match parse_signed(fields[0].as_slice()) {
        Some(y) => y,
        None => return None,
    };
    let month: u32 = match parse_unsigned(fields[1].as_slice(), u32::MAX as u64) {
        Some(m) => m as u32,
        None => return None,
    };
    let day: u32 = match parse_unsigned(fields[2].as_slice(), u32::MAX as u64) {
        Some(d) => d as u32,
        None => return None,
    };
    if month < 1 || month > 12 || day < 1 || day > 31 {
        return None;
    }
    if n == s.len() {
        return Some(Published { year, month, day, hour: 0, minute: 0 });
    }
    let rest = slice_subrange(s, n + 1, s.len());
    assert(rest@ =~= s@.skip(n + 1));

    // Split the time from its zone, which is `Z`, `+hh:mm` or `-hh:mm`.
    let marks: [char; 3] = ['Z', 'z', '+'];
    assert(marks@ =~= seq!['Z', 'z', '+']);
    let mut at: usize = find_of(rest, marks.as_slice());
    if at == rest.len() {
        // A minus can only be the zone here; the date is already off the front.
        let minus: [char; 1] = ['-'];
        assert(minus@ =~= seq!['-']);
        at = find_of(rest, minus.as_slice());
    }
    let time = slice_subrange(rest, 0, at);
    assert(time@ =~= rest@.take(at as int));
    let zone = if at < rest.len() {
        let z = slice_subrange(rest, at, rest.len());
        assert(z@ =~= rest@.skip(at as int));
        zone_offset(Some(z))
    } else {
        zone_offset(None)
    };
    match clock(time) {
        Some((hour, minute)) => {
            let published = Published { year, month, day, hour, minute };
            proof {
                lemma_days_fit(published.year, published.month, published.day);
            }
            Some(published.shifted(-zone))
        },
        None => None,
    }
}

/// One instant, one name: however a feed writes a moment, two timestamps that
/// mean the same minute come out as the same moment and so as the same name.
pub proof fn law_zones_do_not_change_the_name(
    a: (int, int, int),
    time_a: Seq<char>,
    zone_a: Option<Seq<char>>,
    b: (int, int, int),
    time_b: Seq<char>,
    zone_b: Option<Seq<char>>,
)
    requires
        clock_time(time_a) is Some,
        clock_time(time_b) is Some,
        civil_days(a.0, a.1, a.2) * 1440 + (clock_time(time_a)->0).0 * 60 + (clock_time(time_a)->0).1
            - zone_minutes(zone_a) == civil_days(b.0, b.1, b.2) * 1440 + (clock_time(time_b)->0).0
            * 60 + (clock_time(time_b)->0).1 - zone_minutes(zone_b),
    ensures
        zoned(a.0, a.1, a.2, Some(time_a), zone_a) == zoned(b.0, b.1, b.2, Some(time_b), zone_b),
{
}

/// Whether the text starts with something shaped like a tag. A blurb reading
/// "Is 3 < 5?" is prose, and its `<` opens nothing.
pub open spec fn opens_tag(s: Seq<char>) -> bool {
    s.len() >= 2 && s[0] == '<' && ('a' <= s[1] <= 'z' || 'A' <= s[1] <= 'Z' || s[1] == '/' || s[1]
        == '!' || s[1] == '?')
}

/// A text with a space in place of each tag. A tag that never closes takes the
/// rest with it.
pub open spec fn untagged(s: Seq<char>) -> Seq<char>
    decreases s.len(),
    via untagged_decreases
{
    if s.len() == 0 {
        Seq::empty()
    } else if opens_tag(s) {
        let end = first_of(s, seq!['>']);
        if end < s.len() {
            seq![' '] + untagged(s.skip(end + 1))
        } else {
            Seq::empty()
        }
    } else {
        seq![s[0]] + untagged(s.skip(1))
    }
}

#[via_fn]
proof fn untagged_decreases(s: Seq<char>) {
    lemma_first_of(s, seq!['>']);
}

/// A text with the handful of entities that survive an XML parser put back. The
/// ampersand comes last, or `&amp;lt;` would turn into a bracket.
pub open spec fn unescaped(s: Seq<char>) -> Seq<char> {
    let s = replace(s, "&nbsp;"@, " "@);
    let s = replace(s, "&#39;"@, "'"@);
    let s = replace(s, "&apos;"@, "'"@);
    let s = replace(s, "&quot;"@, "\""@);
    let s = replace(s, "&lt;"@, "<"@);
    let s = replace(s, "&gt;"@, ">"@);
    replace(s, "&amp;"@, "&"@)
}

/// The plain text of a description.
pub open spec fn stripped(s: Seq<char>) -> Seq<char> {
    join(words(unescaped(untagged(s))), seq![' '])
}

/// Takes the tags out of a text.
fn untag(cs: &[char]) -> (r: Vec<char>)
    ensures
        r@ == untagged(cs@),
{
    let close: [char; 1] = ['>'];
    assert(close@ =~= seq!['>']);
    let mut text: Vec<char> = Vec::new();
    let mut i: usize = 0;
    assert(cs@.skip(0) =~= cs@);
    while i < cs.len()
        invariant
            i <= cs@.len(),
            close@ == seq!['>'],
            untagged(cs@) == text@ + untagged(cs@.skip(i as int)),
        decreases cs@.len() - i,
    {
        let rest = slice_subrange(cs, i, cs.len());
        assert(rest@ =~= cs@.skip(i as int));
        let opens_a_tag = rest.len() >= 2 && rest[0] == '<' && (('a' <= rest[1] && rest[1] <= 'z')
            || ('A' <= rest[1] && rest[1] <= 'Z') || rest[1] == '/' || rest[1] == '!' || rest[1]
            == '?');
        let ghost before = text@;
        if !opens_a_tag {
            text.push(cs[i]);
            i += 1;
            assert(rest@.skip(1) =~= cs@.skip(i as int));
            assert(text@ + untagged(cs@.skip(i as int)) =~= before + untagged(rest@));
            continue;
        }
        let end = find_of(rest, close.as_slice());
        if end == rest.len() {
            // Markup left unclosed — truncated show notes usually. Everything
            // from here on is inside a tag that never ends.
            assert(text@ + untagged(rest@) =~= text@);
            return text;
        }
        // A tag stood between two words; keep them apart.
        text.push(' ');
        i = i + end + 1;
        assert(rest@.skip(end + 1) =~= cs@.skip(i as int));
        assert(text@ + untagged(cs@.skip(i as int)) =~= before + untagged(rest@));
    }
    assert(text@ + untagged(cs@.skip(i as int)) =~= text@);
    text
}

/// Feed descriptions are routinely HTML, and an ID3 tag is plain text. Strip
/// the markup, put the handful of entities that survive it back, and collapse
/// the whitespace the markup was holding apart.
pub fn strip_html(input: &str) -> (r: String)
    ensures
        r@ == stripped(input@),
{
    let cs = chars_of(input);
    let text = untag(cs.as_slice());
    proof {
        reveal_strlit("&nbsp;");
        reveal_strlit("&#39;");
        reveal_strlit("&apos;");
        reveal_strlit("&quot;");
        reveal_strlit("&lt;");
        reveal_strlit("&gt;");
        reveal_strlit("&amp;");
    }
    let text = replaced(text.as_slice(), "&nbsp;", " ");
    let text = replaced(text.as_slice(), "&#39;", "'");
    let text = replaced(text.as_slice(), "&apos;", "'");
    let text = replaced(text.as_slice(), "&quot;", "\"");
    let text = replaced(text.as_slice(), "&lt;", "<");
    let text = replaced(text.as_slice(), "&gt;", ">");
    let text = replaced(text.as_slice(), "&amp;", "&");
    let parts = split_words(text.as_slice());
    let joined = join_words(&parts);
    string_of(joined.as_slice())
}

/// The whole number nearest to `n / d`, the even one where two are as near.
pub open spec fn nearest_even(n: int, d: int) -> int {
    let q = n / d;
    let r = n % d;
    if 2 * r < d || (2 * r == d && q % 2 == 0) {
        q
    } else {
        q + 1
    }
}

/// The step between the numbers that 53 significant bits can tell apart, at the
/// size of `n`.
pub open spec fn step(n: int) -> int
    decreases n,
{
    if n < 0x20_0000_0000_0000 {
        1
    } else {
        2 * step(n / 2)
    }
}

/// A byte count to 53 significant bits, which is as much of it as gets shown.
pub open spec fn rounded_bytes(n: int) -> int {
    nearest_even(n, step(n)) * step(n)
}

/// A size in `unit`s, to one decimal place.
pub open spec fn in_units(value: int, unit: int, name: Seq<char>) -> Seq<char> {
    let tenths = nearest_even(value * 10, unit);
    decimal(tenths / 10) + seq!['.', digit(tenths % 10), ' '] + name
}

/// A byte count the way it is shown: whole bytes below a kilobyte, and above
/// that one decimal place of the largest unit it fills.
pub open spec fn bytes_text(bytes: int) -> Seq<char> {
    let value = rounded_bytes(bytes);
    if value < 0x400 {
        decimal(bytes) + seq![' ', 'B']
    } else if value < 0x10_0000 {
        in_units(value, 0x400, seq!['K', 'B'])
    } else if value < 0x4000_0000 {
        in_units(value, 0x10_0000, seq!['M', 'B'])
    } else if value < 0x100_0000_0000 {
        in_units(value, 0x4000_0000, seq!['G', 'B'])
    } else {
        in_units(value, 0x100_0000_0000, seq!['T', 'B'])
    }
}

/// Divides to the nearest whole number, ties to even.
fn divide_nearest(n: u128, d: u128) -> (r: u128)
    requires
        0 < d < 0x1_0000_0000_0000_0000,
        n < 0x100_0000_0000_0000_0000,
    ensures
        r == nearest_even(n as int, d as int),
        r <= n + 1,
{
    let q: u128 = n / d;
    let m: u128 = n % d;
    proof {
        assert(q <= n) by (nonlinear_arith)
            requires
                q == n as int / d as int,
                d > 0,
                n >= 0,
        ;
    }
    if 2 * m < d || (2 * m == d && q % 2 == 0) {
        q
    } else {
        q + 1
    }
}

/// A byte count to 53 significant bits.
fn round_bytes(bytes: u64) -> (r: u128)
    ensures
        r == rounded_bytes(bytes as int),
        r <= 0x1_0000_0000_0000_0000,
        bytes < 0x20_0000_0000_0000 ==> r == bytes,
{
    let mut m: u64 = bytes;
    let mut s: u128 = 1;
    while m >= 0x20_0000_0000_0000
        invariant
            step(bytes as int) == s * step(m as int),
            1 <= s <= 0x800,
            s == 1 && m <= u64::MAX || s == 2 && m <= u64::MAX / 2 || s == 4 && m <= u64::MAX / 4
                || s == 8 && m <= u64::MAX / 8 || s == 16 && m <= u64::MAX / 16 || s == 32 && m
                <= u64::MAX / 32 || s == 64 && m <= u64::MAX / 64 || s == 128 && m <= u64::MAX / 128
                || s == 256 && m <= u64::MAX / 256 || s == 512 && m <= u64::MAX / 512 || s == 1024
                && m <= u64::MAX / 1024 || s == 2048 && m <= u64::MAX / 2048,
            m == bytes as int / s as int,
        decreases m,
    {
        proof {
            let h = m as int / 2;
            assert(s * (2 * step(h)) == (2 * s) * step(h)) by (nonlinear_arith);
            vstd::arithmetic::div_mod::lemma_div_denominator(bytes as int, s as int, 2);
        }
        m = m / 2;
        s = s * 2;
    }
    let q = divide_nearest(bytes as u128, s);
    proof {
        assert(s * step(m as int) == s);
        let b = bytes as int;
        assert(q <= 0x20_0000_0000_0000);
        assert(q * s <= 0x1_0000_0000_0000_0000) by (nonlinear_arith)
            requires
                q <= 0x20_0000_0000_0000,
                s <= 0x800,
        ;
        if s == 1 {
            assert(b / 1 == b && b % 1 == 0);
        }
    }
    q * s
}

/// Writes a size in one unit.
fn write_units(value: u128, unit: u128, name: &str) -> (r: String)
    requires
        0 < unit <= 0x100_0000_0000,
        value <= 0x1_0000_0000_0000_0000,
        value as int / unit as int <= 0x100_0000,
    ensures
        r@ == in_units(value as int, unit as int, name@),
{
    let tenths = divide_nearest(value * 10, unit);
    proof {
        let v = value as int;
        let u = unit as int;
        assert(v * 10 / u <= 10 * (v / u) + 10) by (nonlinear_arith)
            requires
                v >= 0,
                u > 0,
        ;
    }
    let t: u64 = tenths as u64;
    let mut s = String::new();
    push_decimal(&mut s, t / 10);
    s.push('.');
    push_decimal(&mut s, t % 10);
    s.push(' ');
    s.push_str(name);
    assert(decimal(t as int % 10) =~= seq![digit(t as int % 10)]);
    assert(s@ =~= in_units(value as int, unit as int, name@));
    s
}

/// Human-readable byte count, e.g. `4.2 MB`.
pub fn human_bytes(bytes: u64) -> (r: String)
    ensures
        r@ == bytes_text(bytes as int),
{
    let value = round_bytes(bytes);
    proof {
        reveal_strlit("KB");
        reveal_strlit("MB");
        reveal_strlit("GB");
        reveal_strlit("TB");
        assert("KB"@ =~= seq!['K', 'B']);
        assert("MB"@ =~= seq!['M', 'B']);
        assert("GB"@ =~= seq!['G', 'B']);
        assert("TB"@ =~= seq!['T', 'B']);
    }
    if value < 0x400 {
        let mut s = String::new();
        push_decimal(&mut s, bytes);
        s.push(' ');
        s.push('B');
        assert(s@ =~= bytes_text(bytes as int));
        s
    } else if value < 0x10_0000 {
        write_units(value, 0x400, "KB")
    } else if value < 0x4000_0000 {
        write_units(value, 0x10_0000, "MB")
    } else if value < 0x100_0000_0000 {
        write_units(value, 0x4000_0000, "GB")
    } else {
        write_units(value, 0x100_0000_0000, "TB")
    }
}

/// The ending of a noun counted `n` times.
pub open spec fn plural_text(n: int) -> Seq<char> {
    if n == 1 {
        Seq::empty()
    } else {
        seq!['s']
    }
}

/// A count with its noun: `1 minute`, `2 minutes`.
pub open spec fn counted_text(n: int, noun: Seq<char>) -> Seq<char> {
    decimal(n) + seq![' '] + noun + plural_text(n)
}

/// Writes a count with its noun.
pub fn push_counted(s: &mut String, n: u64, noun: &str)
    ensures
        final(s)@ == old(s)@ + counted_text(n as int, noun@),
{
    push_decimal(s, n);
    s.push(' ');
    s.push_str(noun);
    if n != 1 {
        s.push('s');
    }
    assert(s@ =~= old(s)@ + counted_text(n as int, noun@));
}

/// A length of time as someone waiting for it would say it, given in whole
/// seconds; `None` is a wait that is no length of time.
pub open spec fn duration_text(seconds: Option<u64>) -> Seq<char> {
    match seconds {
        None => "no time at all"@,
        Some(total) => {
            let minutes = (total + 30) / 60;
            if total == 0 {
                "no time at all"@
            } else if total < 60 {
                "less than a minute"@
            } else if minutes < 90 {
                counted_text(minutes, "minute"@)
            } else if minutes % 60 == 0 {
                counted_text(minutes / 60, "hour"@)
            } else {
                counted_text(minutes / 60, "hour"@) + seq![' '] + counted_text(
                    minutes % 60,
                    "minute"@,
                )
            }
        },
    }
}

/// A length of time written the way someone waiting for it would say it.
///
/// Deliberately coarse. This is only ever used for an estimate built on a
/// guessed connection speed, and "about 23 minutes" claims exactly as much
/// precision as that guess can support — "23m 41s" would claim far more.
///
/// The seconds are whole ones; `None` stands for an estimate that is no length
/// of time, such as an infinite or a negative one.
pub fn human_duration(seconds: Option<u64>) -> (r: String)
    ensures
        r@ == duration_text(seconds),
{
    let total: u64 = match seconds {
        Some(t) => t,
        None => return owned("no time at all"),
    };
    if total == 0 {
        return owned("no time at all");
    }
    if total < 60 {
        return owned("less than a minute");
    }
    let minutes: u64 = total / 60 + if total % 60 >= 30 {
        1
    } else {
        0
    };
    assert(minutes == (total + 30) / 60);
    let mut s = String::new();
    if minutes < 90 {
        push_counted(&mut s, minutes, "minute");
        assert(s@ =~= duration_text(seconds));
        return s;
    }
    let hours: u64 = minutes / 60;
    let rest: u64 = minutes % 60;
    push_counted(&mut s, hours, "hour");
    if rest != 0 {
        s.push(' ');
        push_counted(&mut s, rest, "minute");
    }
    assert(s@ =~= duration_text(seconds));
    s
}

/// A rate in bytes per second, as it is shown.
pub open spec fn rate_text(bytes_per_second: int) -> Seq<char> {
    bytes_text(bytes_per_second) + seq!['/', 's']
}

/// Bytes per second as a rate someone can read, e.g. `2.4 MB/s`.
pub fn human_rate(bytes_per_second: u64) -> (r: String)
    ensures
        r@ == rate_text(bytes_per_second as int),
{
    let mut s = human_bytes(bytes_per_second);
    s.push('/');
    s.push('s');
    assert(s@ =~= rate_text(bytes_per_second as int));
    s
}

/// A stretch of transfer, and what it says about the line: how many bytes, in
/// how many microseconds.
#[derive(Debug, Clone, Copy, PartialEq, Eq, Structural)]
pub struct Rate {
    pub bytes: u64,
    pub micros: u64,
}

/// The most that fits 64 bits.
pub open spec fn capped(n: int) -> u64 {
    if n > u64::MAX {
        u64::MAX
    } else {
        n as u64
    }
}

impl Rate {
    /// Whether there is anything to divide by: some bytes, in some time.
    pub open spec fn usable(self) -> bool {
        self.bytes > 0 && self.micros > 0
    }

    /// Whole bytes per second, none for a stretch without time in it.
    pub open spec fn speed(self) -> u64 {
        if self.micros == 0 {
            0
        } else {
            capped(self.bytes as int * 1_000_000 / self.micros as int)
        }
    }

    /// Whole bytes per second.
    pub fn per_second(self) -> (r: u64)
        ensures
            r == self.speed(),
    {
        if self.micros == 0 {
            return 0;
        }
        let n: u128 = self.bytes as u128 * 1_000_000 / self.micros as u128;
        if n > u64::MAX as u128 {
            u64::MAX
        } else {
            n as u64
        }
    }
}

/// How long something takes: to the nearest second, but never nothing where
/// there is any wait at all, and whether it is short of a minute before that
/// rounding.
#[derive(Debug, Clone, Copy, PartialEq, Eq, Structural)]
pub struct Wait {
    pub seconds: u64,
    pub under_a_minute: bool,
}

/// The whole number nearest to `n / d`, the larger where two are as near.
pub open spec fn nearest(n: int, d: int) -> int {
    let q = n / d;
    if 2 * (n % d) >= d {
        q + 1
    } else {
        q
    }
}

/// How long `bytes` take at a rate, when there is one.
pub open spec fn transfer_wait(bytes: u64, rate: Rate) -> Option<Wait> {
    if !rate.usable() {
        None
    } else {
        let part = bytes as int * rate.micros as int;
        let second = rate.bytes as int * 1_000_000;
        Some(
            Wait {
                seconds: if part > 0 && nearest(part, second) == 0 {
                    1
                } else {
                    capped(nearest(part, second))
                },
                under_a_minute: part < 60 * second,
            },
        )
    }
}

/// How long `bytes` will take at a rate.
///
/// `None` when there is no usable rate to divide by, which is the honest answer
/// rather than a number made up to fill the space.
pub fn transfer_seconds(bytes: u64, rate: Rate) -> (r: Option<Wait>)
    ensures
        r == transfer_wait(bytes, rate),
{
    if rate.bytes == 0 || rate.micros == 0 {
        return None;
    }
    proof {
        assert(bytes as int * rate.micros as int <= 0xffff_ffff_ffff_ffff * 0xffff_ffff_ffff_ffff)
            by (nonlinear_arith)
            requires
                0 <= bytes <= 0xffff_ffff_ffff_ffff,
                0 <= rate.micros <= 0xffff_ffff_ffff_ffff,
        ;
    }
    let part: u128 = bytes as u128 * rate.micros as u128;
    let second: u128 = rate.bytes as u128 * 1_000_000;
    let q: u128 = part / second;
    let m: u128 = part % second;
    proof {
        assert(q <= part) by (nonlinear_arith)
            requires
                q == part as int / second as int,
                second >= 1,
                part >= 0,
        ;
    }
    let whole: u128 = if 2 * m >= second {
        q + 1
    } else {
        q
    };
    let seconds: u64 = if part > 0 && whole == 0 {
        1
    } else if whole > u64::MAX as u128 {
        u64::MAX
    } else {
        whole as u64
    };
    Some(Wait { seconds, under_a_minute: part < 60 * second })
}

} // verus!
