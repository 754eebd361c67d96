//! Characters and text.
//!
//! Text is reasoned about as a sequence of characters. The functions here are
//! the handful of string operations everything else is built from, each with
//! the sequence it produces spelled out.

use vstd::prelude::*;
use vstd::slice::slice_subrange;

verus! {

/// `String::push` puts one character on the end of the string.
pub assume_specification[ String::push ](s: &mut String, ch: char)
    ensures
        final(s)@ == old(s)@.push(ch),
;

/// `String::push_str` puts a whole slice on the end of the string.
pub assume_specification[ String::push_str ](s: &mut String, string: &str)
    ensures
        final(s)@ == old(s)@ + string@,
;

/// The characters of a string, one by one.
pub fn chars_of(s: &str) -> (v: Vec<char>)
    ensures
        v@ == s@,
{
    let mut v: Vec<char> = Vec::new();
    for c in it: s.chars()
        invariant
            it.seq() == s@,
            v@ == it.seq().take(it.index() as int),
    {
        v.push(c);
    }
    v
}

/// The string made of the characters from `from` up to `to`.
pub fn string_between(cs: &[char], from: usize, to: usize) -> (s: String)
    requires
        from <= to <= cs@.len(),
    ensures
        s@ == cs@.subrange(from as int, to as int),
{
    let mut s = String::new();
    let mut i: usize = from;
    while i < to
        invariant
            from <= i <= to <= cs@.len(),
            s@ == cs@.subrange(from as int, i as int),
        decreases to - i,
    {
        s.push(cs[i]);
        i += 1;
    }
    s
}

/// The string made of all the characters.
pub fn string_of(cs: &[char]) -> (s: String)
    ensures
        s@ == cs@,
{
    string_between(cs, 0, cs.len())
}

/// Characters that Unicode counts as white space.
pub open spec fn white(c: char) -> bool {
    ||| '\u{9}' <= c <= '\u{d}'
    ||| c == ' '
    ||| c == '\u{85}'
    ||| c == '\u{a0}'
    ||| c == '\u{1680}'
    ||| '\u{2000}' <= c <= '\u{200a}'
    ||| c == '\u{2028}'
    ||| c == '\u{2029}'
    ||| c == '\u{202f}'
    ||| c == '\u{205f}'
    ||| c == '\u{3000}'
}

/// Whether `c` is white space.
pub fn is_white(c: char) -> (b: bool)
    ensures
        b == white(c),
{
    ('\u{9}' <= c && c <= '\u{d}') || c == ' ' || c == '\u{85}' || c == '\u{a0}' || c
        == '\u{1680}' || ('\u{2000}' <= c && c <= '\u{200a}') || c == '\u{2028}' || c == '\u{2029}'
        || c == '\u{202f}' || c == '\u{205f}' || c == '\u{3000}'
}

/// Control characters: the C0 and C1 blocks and delete.
pub open spec fn control(c: char) -> bool {
    c <= '\u{1f}' || '\u{7f}' <= c <= '\u{9f}'
}

/// Whether `c` is a control character.
pub fn is_control(c: char) -> (b: bool)
    ensures
        b == control(c),
{
    c <= '\u{1f}' || ('\u{7f}' <= c && c <= '\u{9f}')
}

/// The lower case of an ASCII capital; anything else unchanged.
pub open spec fn lower_char(c: char) -> char {
    if 'A' <= c <= 'Z' {
        (c as u32 + 32) as char
    } else {
        c
    }
}

/// A whole text with its ASCII capitals made small.
pub open spec fn lower(s: Seq<char>) -> Seq<char> {
    Seq::new(s.len(), |i: int| lower_char(s[i]))
}

/// Lower-cases one ASCII character.
pub fn to_lower_char(c: char) -> (r: char)
    ensures
        r == lower_char(c),
{
    if 'A' <= c && c <= 'Z' {
        ((c as u8) + 32u8) as char
    } else {
        c
    }
}

/// Lower-cases the ASCII letters of a text.
pub fn to_lower(cs: &[char]) -> (r: Vec<char>)
    ensures
        r@ == lower(cs@),
{
    let mut r: Vec<char> = Vec::new();
    let mut i: usize = 0;
    while i < cs.len()
        invariant
            i <= cs@.len(),
            r@ == lower(cs@).take(i as int),
        decreases cs@.len() - i,
    {
        r.push(to_lower_char(cs[i]));
        i += 1;
    }
    r
}

/// Whether two texts are the same, letter for letter.
pub fn same(a: &[char], b: &[char]) -> (r: bool)
    ensures
        r == (a@ == b@),
{
    if a.len() != b.len() {
        return false;
    }
    let mut i: usize = 0;
    while i < a.len()
        invariant
            i <= a@.len() == b@.len(),
            a@.take(i as int) == b@.take(i as int),
        decreases a@.len() - i,
    {
        if a[i] != b[i] {
            assert(a@[i as int] != b@[i as int]);
            return false;
        }
        assert(a@.take(i + 1) =~= a@.take(i as int).push(a@[i as int]));
        assert(b@.take(i + 1) =~= b@.take(i as int).push(b@[i as int]));
        i += 1;
    }
    assert(a@.take(i as int) =~= a@);
    assert(b@.take(i as int) =~= b@);
    true
}

/// Whether a text is exactly the one written in the program.
pub fn is_text(cs: &[char], t: &str) -> (r: bool)
    ensures
        r == (cs@ == t@),
{
    let other = chars_of(t);
    same(cs, other.as_slice())
}

/// Whether two strings are the same.
pub fn same_str(a: &str, b: &str) -> (r: bool)
    ensures
        r == (a@ == b@),
{
    let cs = chars_of(a);
    is_text(cs.as_slice(), b)
}

/// An owned copy of a string slice.
pub fn owned(s: &str) -> (r: String)
    ensures
        r@ == s@,
{
    s.to_owned()
}

/// Whether two texts differ at most in the case of their ASCII letters.
pub fn same_ignoring_case(a: &[char], b: &[char]) -> (r: bool)
    ensures
        r == (lower(a@) == lower(b@)),
{
    let x = to_lower(a);
    let y = to_lower(b);
    same(x.as_slice(), y.as_slice())
}

/// A text without the white space in front.
pub open spec fn trim_start(s: Seq<char>) -> Seq<char>
    decreases s.len(),
{
    if s.len() > 0 && white(s[0]) {
        trim_start(s.drop_first())
    } else {
        s
    }
}

/// A text without the white space behind.
pub open spec fn trim_end(s: Seq<char>) -> Seq<char>
    decreases s.len(),
{
    if s.len() > 0 && white(s.last()) {
        trim_end(s.drop_last())
    } else {
        s
    }
}

/// A text without the white space around it.
pub open spec fn trim(s: Seq<char>) -> Seq<char> {
    trim_end(trim_start(s))
}

/// The part of a text that [`trim_start`] keeps.
pub fn trimmed_start(cs: &[char]) -> (r: &[char])
    ensures
        r@ == trim_start(cs@),
{
    let mut i: usize = 0;
    assert(cs@.skip(0) =~= cs@);
    while i < cs.len() && is_white(cs[i])
        invariant
            i <= cs@.len(),
            trim_start(cs@) == trim_start(cs@.skip(i as int)),
        decreases cs@.len() - i,
    {
        assert(cs@.skip(i as int).drop_first() =~= cs@.skip(i + 1));
        i += 1;
    }
    slice_subrange(cs, i, cs.len())
}

/// The part of a text that [`trim_end`] keeps.
pub fn trimmed_end(cs: &[char]) -> (r: &[char])
    ensures
        r@ == trim_end(cs@),
{
    let mut n: usize = cs.len();
    assert(cs@.take(n as int) =~= cs@);
    while n > 0 && is_white(cs[n - 1])
        invariant
            n <= cs@.len(),
            trim_end(cs@) == trim_end(cs@.take(n as int)),
        decreases n,
    {
        assert(cs@.take(n as int).drop_last() =~= cs@.take(n - 1));
        n -= 1;
    }
    slice_subrange(cs, 0, n)
}

/// The part of a text that [`trim`] keeps.
pub fn trimmed(cs: &[char]) -> (r: &[char])
    ensures
        r@ == trim(cs@),
{
    trimmed_end(trimmed_start(cs))
}

/// A text without the run of `c` in front.
pub open spec fn strip_start(s: Seq<char>, c: char) -> Seq<char>
    decreases s.len(),
{
    if s.len() > 0 && s[0] == c {
        strip_start(s.drop_first(), c)
    } else {
        s
    }
}

/// A text without the run of `c` behind.
pub open spec fn strip_end(s: Seq<char>, c: char) -> Seq<char>
    decreases s.len(),
{
    if s.len() > 0 && s.last() == c {
        strip_end(s.drop_last(), c)
    } else {
        s
    }
}

/// The part of a text that [`strip_start`] keeps.
pub fn stripped_start(cs: &[char], c: char) -> (r: &[char])
    ensures
        r@ == strip_start(cs@, c),
{
    let mut i: usize = 0;
    assert(cs@.skip(0) =~= cs@);
    while i < cs.len() && cs[i] == c
        invariant
            i <= cs@.len(),
            strip_start(cs@, c) == strip_start(cs@.skip(i as int), c),
        decreases cs@.len() - i,
    {
        assert(cs@.skip(i as int).drop_first() =~= cs@.skip(i + 1));
        i += 1;
    }
    slice_subrange(cs, i, cs.len())
}

/// The part of a text that [`strip_end`] keeps.
pub fn stripped_end(cs: &[char], c: char) -> (r: &[char])
    ensures
        r@ == strip_end(cs@, c),
{
    let mut n: usize = cs.len();
    assert(cs@.take(n as int) =~= cs@);
    while n > 0 && cs[n - 1] == c
        invariant
            n <= cs@.len(),
            strip_end(cs@, c) == strip_end(cs@.take(n as int), c),
        decreases n,
    {
        assert(cs@.take(n as int).drop_last() =~= cs@.take(n - 1));
        n -= 1;
    }
    slice_subrange(cs, 0, n)
}

/// Where the first of the characters in `set` stands, or the length when none
/// of them occurs.
pub open spec fn first_of(s: Seq<char>, set: Seq<char>) -> int
    decreases s.len(),
{
    if s.len() == 0 || set.contains(s[0]) {
        0
    } else {
        1 + first_of(s.drop_first(), set)
    }
}

/// [`first_of`] points at the first character of the set: nothing before it
/// belongs to the set, and what it points at does.
pub proof fn lemma_first_of(s: Seq<char>, set: Seq<char>)
    ensures
        0 <= first_of(s, set) <= s.len(),
        forall|i: int| 0 <= i < first_of(s, set) ==> !set.contains(#[trigger] s[i]),
        first_of(s, set) < s.len() ==> set.contains(s[first_of(s, set)]),
    decreases s.len(),
{
    if s.len() > 0 && !set.contains(s[0]) {
        let t = s.drop_first();
        lemma_first_of(t, set);
        assert forall|i: int| 0 <= i < first_of(s, set) implies !set.contains(#[trigger] s[i]) by {
            if i > 0 {
                assert(t[i - 1] == s[i]);
            }
        }
    }
}

/// Whether `c` is one of the characters in `set`.
pub fn is_one_of(c: char, set: &[char]) -> (r: bool)
    ensures
        r == set@.contains(c),
{
    let mut i: usize = 0;
    while i < set.len()
        invariant
            i <= set@.len(),
            forall|j: int| 0 <= j < i ==> set@[j] != c,
        decreases set@.len() - i,
    {
        if set[i] == c {
            assert(set@[i as int] == c);
            return true;
        }
        i += 1;
    }
    false
}

/// The place [`first_of`] names.
pub fn find_of(cs: &[char], set: &[char]) -> (n: usize)
    ensures
        n == first_of(cs@, set@),
        n <= cs@.len(),
{
    let mut i: usize = 0;
    assert(cs@.skip(0) =~= cs@);
    while i < cs.len() && !is_one_of(cs[i], set)
        invariant
            i <= cs@.len(),
            first_of(cs@, set@) == i + first_of(cs@.skip(i as int), set@),
        decreases cs@.len() - i,
    {
        assert(cs@.skip(i as int).drop_first() =~= cs@.skip(i + 1));
        i += 1;
    }
    i
}

/// Where the last `c` stands, or -1 when there is none.
pub open spec fn last_of(s: Seq<char>, c: char) -> int
    decreases s.len(),
{
    if s.len() == 0 {
        -1
    } else if s.last() == c {
        s.len() - 1
    } else {
        last_of(s.drop_last(), c)
    }
}

/// What follows the last `c`, or the whole text when there is none.
pub open spec fn after_last(s: Seq<char>, c: char) -> Seq<char> {
    s.skip(last_of(s, c) + 1)
}

/// The place just after the last `c`, or the front when there is none.
pub fn find_after_last(cs: &[char], c: char) -> (n: usize)
    ensures
        n == last_of(cs@, c) + 1,
        n <= cs@.len(),
{
    let mut n: usize = cs.len();
    assert(cs@.take(n as int) =~= cs@);
    while n > 0 && cs[n - 1] != c
        invariant
            n <= cs@.len(),
            last_of(cs@, c) == last_of(cs@.take(n as int), c),
        decreases n,
    {
        assert(cs@.take(n as int).drop_last() =~= cs@.take(n - 1));
        n -= 1;
    }
    n
}

/// The views of a list of strings.
pub open spec fn texts(v: Seq<String>) -> Seq<Seq<char>> {
    v.map_values(|s: String| s@)
}

/// The views of a list of character lists.
pub open spec fn views(v: Seq<Vec<char>>) -> Seq<Seq<char>> {
    v.map_values(|s: Vec<char>| s@)
}

/// The length of the first word of a text that starts with one.
pub open spec fn word_len(s: Seq<char>) -> int
    decreases s.len(),
{
    if s.len() == 0 || white(s[0]) {
        0
    } else {
        1 + word_len(s.drop_first())
    }
}

/// [`word_len`] counts characters of the text, none of them white space.
pub proof fn lemma_word_len(s: Seq<char>)
    ensures
        0 <= word_len(s) <= s.len(),
        forall|i: int| 0 <= i < word_len(s) ==> !white(#[trigger] s[i]),
        word_len(s) < s.len() ==> white(s[word_len(s)]),
    decreases s.len(),
{
    if s.len() > 0 && !white(s[0]) {
        let t = s.drop_first();
        lemma_word_len(t);
        assert forall|i: int| 0 <= i < word_len(s) implies !white(#[trigger] s[i]) by {
            if i > 0 {
                assert(t[i - 1] == s[i]);
            }
        }
    }
}

/// [`trim_start`] takes characters off the front and nothing else.
pub proof fn lemma_trim_start(s: Seq<char>)
    ensures
        trim_start(s).len() <= s.len(),
        trim_start(s) == s.skip(s.len() - trim_start(s).len()),
        trim_start(s).len() > 0 ==> !white(trim_start(s)[0]),
        forall|i: int| 0 <= i < s.len() - trim_start(s).len() ==> white(#[trigger] s[i]),
    decreases s.len(),
{
    if s.len() > 0 && white(s[0]) {
        let t = s.drop_first();
        lemma_trim_start(t);
        assert(trim_start(s) =~= s.skip(s.len() - trim_start(s).len()));
        assert forall|i: int| 0 <= i < s.len() - trim_start(s).len() implies white(
            #[trigger] s[i],
        ) by {
            if i > 0 {
                assert(t[i - 1] == s[i]);
            }
        }
    } else {
        assert(s.skip(0) =~= s);
    }
}

/// [`trim_end`] takes characters off the end and nothing else.
pub proof fn lemma_trim_end(s: Seq<char>)
    ensures
        trim_end(s).len() <= s.len(),
        trim_end(s) == s.take(trim_end(s).len() as int),
        trim_end(s).len() > 0 ==> !white(trim_end(s).last()),
    decreases s.len(),
{
    if s.len() > 0 && white(s.last()) {
        lemma_trim_end(s.drop_last());
        assert(trim_end(s) =~= s.take(trim_end(s).len() as int));
    } else {
        assert(s.take(s.len() as int) =~= s);
    }
}

/// The words of a text: the runs of characters between white space.
pub open spec fn words(s: Seq<char>) -> Seq<Seq<char>>
    decreases s.len(),
    via words_decreases
{
    let t = trim_start(s);
    if t.len() == 0 {
        Seq::empty()
    } else {
        seq![t.take(word_len(t))] + words(t.skip(word_len(t)))
    }
}

#[via_fn]
proof fn words_decreases(s: Seq<char>) {
    lemma_trim_start(s);
    lemma_word_len(trim_start(s));
}

/// The [`words`] of a text, each on its own.
pub fn split_words(cs: &[char]) -> (r: Vec<Vec<char>>)
    ensures
        views(r@) == words(cs@),
{
    let mut r: Vec<Vec<char>> = Vec::new();
    let mut i: usize = 0;
    assert(cs@.skip(0) =~= cs@);
    assert(views(r@) + words(cs@) =~= words(cs@));
    loop
        invariant
            i <= cs@.len(),
            words(cs@) == views(r@) + words(cs@.skip(i as int)),
        ensures
            views(r@) == words(cs@),
        decreases cs@.len() - i,
    {
        let rest = slice_subrange(cs, i, cs.len());
        let t = trimmed_start(rest);
        proof {
            lemma_trim_start(rest@);
            lemma_word_len(t@);
        }
        if t.len() == 0 {
            assert(views(r@) + Seq::<Seq<char>>::empty() =~= views(r@));
            break;
        }
        let mut n: usize = 0;
        assert(t@.skip(0) =~= t@);
        while n < t.len() && !is_white(t[n])
            invariant
                n <= t@.len(),
                word_len(t@) == n + word_len(t@.skip(n as int)),
            decreases t@.len() - n,
        {
            assert(t@.skip(n as int).drop_first() =~= t@.skip(n + 1));
            n += 1;
        }
        assert(n == word_len(t@));
        let w = copy_of(t, n);
        let ghost before = r@;
        r.push(w);
        assert(views(r@) =~= views(before).push(t@.take(n as int)));
        i = i + (rest.len() - t.len()) + n;
        assert(t@.skip(n as int) =~= cs@.skip(i as int));
        assert(views(r@) + words(cs@.skip(i as int)) =~= views(before) + (seq![t@.take(n as int)]
            + words(t@.skip(n as int))));
    }
    r
}

/// Texts put one after another with `sep` between them.
pub open spec fn join(parts: Seq<Seq<char>>, sep: Seq<char>) -> Seq<char>
    decreases parts.len(),
{
    if parts.len() == 0 {
        Seq::empty()
    } else if parts.len() == 1 {
        parts[0]
    } else {
        join(parts.drop_last(), sep) + sep + parts.last()
    }
}

/// Puts texts one after another with a space between them.
pub fn join_words(parts: &Vec<Vec<char>>) -> (r: Vec<char>)
    ensures
        r@ == join(views(parts@), seq![' ']),
{
    let mut r: Vec<char> = Vec::new();
    let mut i: usize = 0;
    while i < parts.len()
        invariant
            i <= parts@.len(),
            r@ == join(views(parts@).take(i as int), seq![' ']),
        decreases parts@.len() - i,
    {
        let ghost before = r@;
        if i > 0 {
            r.push(' ');
        }
        let ghost started = r@;
        let mut j: usize = 0;
        while j < parts[i].len()
            invariant
                i < parts@.len(),
                j <= parts@[i as int]@.len(),
                r@ == started + parts@[i as int]@.take(j as int),
            decreases parts@[i as int]@.len() - j,
        {
            r.push(parts[i][j]);
            j += 1;
        }
        assert(parts@[i as int]@.take(j as int) =~= parts@[i as int]@);
        let ghost upto = views(parts@).take(i + 1);
        assert(upto.drop_last() =~= views(parts@).take(i as int));
        assert(upto.last() == parts@[i as int]@);
        if i == 0 {
            assert(r@ =~= parts@[0]@);
        } else {
            assert(started =~= before + seq![' ']);
        }
        i += 1;
    }
    assert(views(parts@).take(i as int) =~= views(parts@));
    r
}

/// The parts of a text between the occurrences of `c`: always at least one.
pub open spec fn pieces(s: Seq<char>, c: char) -> Seq<Seq<char>>
    decreases s.len(),
    via pieces_decreases
{
    let n = first_of(s, seq![c]);
    if n >= s.len() {
        seq![s]
    } else {
        seq![s.take(n)] + pieces(s.skip(n + 1), c)
    }
}

#[via_fn]
proof fn pieces_decreases(s: Seq<char>, c: char) {
    lemma_first_of(s, seq![c]);
}

/// The [`pieces`] of a text.
pub fn split_on(cs: &[char], c: char) -> (r: Vec<Vec<char>>)
    ensures
        views(r@) == pieces(cs@, c),
        r@.len() > 0,
{
    let mut r: Vec<Vec<char>> = Vec::new();
    let mut i: usize = 0;
    assert(cs@.skip(0) =~= cs@);
    assert(views(r@) + pieces(cs@, c) =~= pieces(cs@, c));
    let set: Vec<char> = vec![c];
    assert(set@ =~= seq![c]);
    loop
        invariant_except_break
            i <= cs@.len(),
            set@ == seq![c],
            pieces(cs@, c) == views(r@) + pieces(cs@.skip(i as int), c),
        ensures
            views(r@) == pieces(cs@, c),
            r@.len() > 0,
        decreases cs@.len() - i,
    {
        let rest = slice_subrange(cs, i, cs.len());
        let n = find_of(rest, set.as_slice());
        let w = copy_of(rest, n);
        let ghost before = r@;
        r.push(w);
        assert(views(r@) =~= views(before).push(rest@.take(n as int)));
        if n == rest.len() {
            assert(rest@.take(n as int) =~= rest@);
            assert(views(r@) =~= views(before) + seq![rest@]);
            break;
        }
        i = i + n + 1;
        assert(rest@.skip(n + 1) =~= cs@.skip(i as int));
        assert(views(r@) + pieces(cs@.skip(i as int), c) =~= views(before) + (seq![
            rest@.take(n as int),
        ] + pieces(rest@.skip(n + 1), c)));
    }
    r
}

/// Whether `s` begins with `p`.
pub open spec fn starts_with(s: Seq<char>, p: Seq<char>) -> bool {
    p.len() <= s.len() && s.take(p.len() as int) == p
}

/// Whether a text begins with another.
pub fn has_prefix(cs: &[char], p: &[char]) -> (r: bool)
    ensures
        r == starts_with(cs@, p@),
{
    if cs.len() < p.len() {
        return false;
    }
    same(slice_subrange(cs, 0, p.len()), p)
}

/// A text with every occurrence of `from` replaced, left to right and without
/// overlaps.
pub open spec fn replace(s: Seq<char>, from: Seq<char>, to: Seq<char>) -> Seq<char>
    decreases s.len(),
{
    if s.len() == 0 || from.len() == 0 {
        s
    } else if starts_with(s, from) {
        to + replace(s.skip(from.len() as int), from, to)
    } else {
        seq![s[0]] + replace(s.skip(1), from, to)
    }
}

/// Replaces every occurrence of `from`.
pub fn replaced(cs: &[char], from: &str, to: &str) -> (r: Vec<char>)
    requires
        from@.len() > 0,
    ensures
        r@ == replace(cs@, from@, to@),
{
    let pattern = chars_of(from);
    let with = chars_of(to);
    let mut r: Vec<char> = Vec::new();
    let mut i: usize = 0;
    assert(cs@.skip(0) =~= cs@);
    while i < cs.len()
        invariant
            i <= cs@.len(),
            pattern@ == from@,
            with@ == to@,
            from@.len() > 0,
            replace(cs@, from@, to@) == r@ + replace(cs@.skip(i as int), from@, to@),
        decreases cs@.len() - i,
    {
        let rest = slice_subrange(cs, i, cs.len());
        let ghost before = r@;
        if has_prefix(rest, pattern.as_slice()) {
            let mut j: usize = 0;
            while j < with.len()
                invariant
                    j <= with@.len(),
                    r@ == before + with@.take(j as int),
                decreases with@.len() - j,
            {
                r.push(with[j]);
                j += 1;
            }
            assert(with@.take(j as int) =~= with@);
            i = i + pattern.len();
            assert(rest@.skip(pattern@.len() as int) =~= cs@.skip(i as int));
            assert(r@ + replace(cs@.skip(i as int), from@, to@) =~= before + (to@ + replace(
                cs@.skip(i as int),
                from@,
                to@,
            )));
        } else {
            r.push(cs[i]);
            i = i + 1;
            assert(rest@.skip(1) =~= cs@.skip(i as int));
            assert(r@ + replace(cs@.skip(i as int), from@, to@) =~= before + (seq![rest@[0]]
                + replace(cs@.skip(i as int), from@, to@)));
        }
    }
    assert(r@ + replace(cs@.skip(i as int), from@, to@) =~= r@);
    r
}

/// The digit that writes `d`.
pub open spec fn digit(d: int) -> char {
    (48 + d) as char
}

/// A number in decimal, without leading zeros.
pub open spec fn decimal(n: int) -> Seq<char>
    decreases n,
{
    if n < 10 {
        seq![digit(n)]
    } else {
        decimal(n / 10).push(digit(n % 10))
    }
}

/// `n` zeros.
pub open spec fn zeros(n: int) -> Seq<char> {
    Seq::new(n as nat, |i: int| '0')
}

/// A number in decimal, with zeros in front up to `width` digits.
pub open spec fn padded(n: int, width: int) -> Seq<char> {
    if decimal(n).len() < width {
        zeros(width - decimal(n).len()) + decimal(n)
    } else {
        decimal(n)
    }
}

/// A number in decimal, with a minus sign when it is negative.
pub open spec fn signed_decimal(n: int) -> Seq<char> {
    if n < 0 {
        seq!['-'] + decimal(-n)
    } else {
        decimal(n)
    }
}

/// The character that writes a digit.
pub fn digit_char(d: u8) -> (c: char)
    requires
        d < 10,
    ensures
        c == digit(d as int),
{
    (48u8 + d) as char
}

/// Writes a number in decimal at the end of a text.
pub fn push_wide(s: &mut String, n: u128)
    ensures
        final(s)@ == old(s)@ + decimal(n as int),
    decreases n,
{
    if n >= 10 {
        push_wide(s, n / 10);
    }
    s.push(digit_char((n % 10) as u8));
    assert(s@ =~= old(s)@ + decimal(n as int));
}

/// Writes a number in decimal at the end of a text.
pub fn push_decimal(s: &mut String, n: u64)
    ensures
        final(s)@ == old(s)@ + decimal(n as int),
{
    push_wide(s, n as u128);
}

/// The digits of a number in decimal.
pub fn decimal_chars(n: u64) -> (r: Vec<char>)
    ensures
        r@ == decimal(n as int),
    decreases n,
{
    let mut r: Vec<char> = if n >= 10 {
        decimal_chars(n / 10)
    } else {
        Vec::new()
    };
    r.push(digit_char((n % 10) as u8));
    assert(r@ =~= decimal(n as int));
    r
}

/// Writes a number in decimal with zeros in front up to `width` digits.
pub fn push_padded(s: &mut String, n: u64, width: usize)
    ensures
        final(s)@ == old(s)@ + padded(n as int, width as int),
{
    let k: usize = decimal_chars(n).len();
    let mut i: usize = k;
    let ghost start = s@;
    while i < width
        invariant
            k <= i,
            i <= width || i == k,
            s@ == start + zeros(i - k),
        decreases width - i,
    {
        s.push('0');
        i += 1;
        assert(s@ =~= start + zeros(i - k));
    }
    push_decimal(s, n);
    assert(s@ =~= start + padded(n as int, width as int));
}

/// Writes a number in decimal, sign included.
pub fn push_signed(s: &mut String, n: i64)
    ensures
        final(s)@ == old(s)@ + signed_decimal(n as int),
{
    if n < 0 {
        s.push('-');
        push_wide(s, (-(n as i128)) as u128);
        assert(s@ =~= old(s)@ + signed_decimal(n as int));
    } else {
        push_decimal(s, n as u64);
    }
}

/// Whether every character is an ASCII digit.
pub open spec fn all_digits(s: Seq<char>) -> bool {
    forall|i: int| 0 <= i < s.len() ==> '0' <= #[trigger] s[i] <= '9'
}

/// Whether every character is a digit.
pub fn only_digits(cs: &[char]) -> (b: bool)
    ensures
        b == all_digits(cs@),
{
    let mut i: usize = 0;
    while i < cs.len()
        invariant
            i <= cs@.len(),
            forall|k: int| 0 <= k < i ==> '0' <= #[trigger] cs@[k] <= '9',
        decreases cs@.len() - i,
    {
        if cs[i] < '0' || cs[i] > '9' {
            assert(!('0' <= cs@[i as int] <= '9'));
            return false;
        }
        i += 1;
    }
    true
}

/// The number that a run of digits writes.
pub open spec fn digits_value(s: Seq<char>) -> nat
    decreases s.len(),
{
    if s.len() == 0 {
        0
    } else {
        digits_value(s.drop_last()) * 10 + (s.last() as nat - 48) as nat
    }
}

/// A run of digits that writes a number up to `max`; nothing else is a number.
pub open spec fn number(s: Seq<char>, max: int) -> Option<int> {
    if s.len() > 0 && all_digits(s) && digits_value(s) <= max {
        Some(digits_value(s) as int)
    } else {
        None
    }
}

/// A number up to `max`, with a plus sign allowed in front.
pub open spec fn unsigned_number(s: Seq<char>, max: int) -> Option<int> {
    if s.len() > 0 && s[0] == '+' {
        number(s.skip(1), max)
    } else {
        number(s, max)
    }
}

/// A number within 32 bits, with either sign allowed in front.
pub open spec fn signed_number(s: Seq<char>) -> Option<int> {
    if s.len() > 0 && s[0] == '-' {
        match number(s.skip(1), 0x8000_0000) {
            Some(n) => Some(-n),
            None => None,
        }
    } else {
        unsigned_number(s, 0x7fff_ffff)
    }
}

/// More digits never make a smaller number.
proof fn lemma_digits_grow(s: Seq<char>, n: int)
    requires
        0 <= n <= s.len(),
        all_digits(s),
    ensures
        digits_value(s.take(n)) <= digits_value(s),
    decreases s.len() - n,
{
    if n < s.len() {
        let t = s.take(n + 1);
        assert(t.drop_last() =~= s.take(n));
        lemma_digits_grow(s, n + 1);
    } else {
        assert(s.take(n) =~= s);
    }
}

/// Reads a run of digits as a number up to `max`.
pub fn parse_number(cs: &[char], max: u64) -> (r: Option<u64>)
    ensures
        match number(cs@, max as int) {
            Some(n) => r == Some(n as u64) && n <= u64::MAX,
            None => r is None,
        },
{
    if cs.len() == 0 {
        return None;
    }
    let mut value: u64 = 0;
    let mut i: usize = 0;
    while i < cs.len()
        invariant
            i <= cs@.len(),
            all_digits(cs@.take(i as int)),
            value == digits_value(cs@.take(i as int)),
            value <= max,
        decreases cs@.len() - i,
    {
        let c = cs[i];
        if c < '0' || c > '9' {
            assert(!all_digits(cs@)) by {
                assert(cs@[i as int] == c);
            }
            return None;
        }
        let d = (c as u32 - 48) as u64;
        assert(cs@.take(i + 1).drop_last() =~= cs@.take(i as int));
        assert(all_digits(cs@.take(i + 1))) by {
            assert forall|j: int| 0 <= j < i + 1 implies '0' <= #[trigger] cs@.take(i + 1)[j]
                <= '9' by {
                if j < i {
                    assert(cs@.take(i as int)[j] == cs@[j]);
                }
            }
        }
        if value > (max - d.min(max)) / 10 || d > max {
            proof {
                if all_digits(cs@) {
                    lemma_digits_grow(cs@, i + 1);
                }
            }
            return None;
        }
        value = value * 10 + d;
        i += 1;
    }
    assert(cs@.take(i as int) =~= cs@);
    Some(value)
}

/// Reads a number up to `max`, with a plus sign allowed in front.
pub fn parse_unsigned(cs: &[char], max: u64) -> (r: Option<u64>)
    ensures
        match unsigned_number(cs@, max as int) {
            Some(n) => r == Some(n as u64) && 0 <= n <= max,
            None => r is None,
        },
{
    if cs.len() > 0 && cs[0] == '+' {
        parse_number(slice_subrange(cs, 1, cs.len()), max)
    } else {
        parse_number(cs, max)
    }
}

/// Reads a number within 32 bits, with either sign allowed in front.
pub fn parse_signed(cs: &[char]) -> (r: Option<i32>)
    ensures
        match signed_number(cs@) {
            Some(n) => r == Some(n as i32) && i32::MIN <= n <= i32::MAX,
            None => r is None,
        },
{
    if cs.len() > 0 && cs[0] == '-' {
        match parse_number(slice_subrange(cs, 1, cs.len()), 0x8000_0000) {
            Some(n) => Some((-(n as i64)) as i32),
            None => None,
        }
    } else {
        match parse_unsigned(cs, 0x7fff_ffff) {
            Some(n) => Some(n as i32),
            None => None,
        }
    }
}

/// A line without the carriage return that a line feed took the rest of.
pub open spec fn without_return(s: Seq<char>) -> Seq<char> {
    if s.len() > 0 && s.last() == '\r' {
        s.drop_last()
    } else {
        s
    }
}

/// The lines of a text, without their ends. A text that ends in a line feed has
/// no further, empty line after it.
pub open spec fn lines(s: Seq<char>) -> Seq<Seq<char>>
    decreases s.len(),
    via lines_decreases
{
    let n = first_of(s, seq!['\n']);
    if s.len() == 0 {
        Seq::empty()
    } else if n >= s.len() {
        seq![s]
    } else {
        seq![without_return(s.take(n))] + lines(s.skip(n + 1))
    }
}

#[via_fn]
proof fn lines_decreases(s: Seq<char>) {
    lemma_first_of(s, seq!['\n']);
}

/// A copy of the first `n` characters.
pub fn copy_of(cs: &[char], n: usize) -> (r: Vec<char>)
    requires
        n <= cs@.len(),
    ensures
        r@ == cs@.take(n as int),
{
    let mut r: Vec<char> = Vec::new();
    let mut j: usize = 0;
    while j < n
        invariant
            j <= n <= cs@.len(),
            r@ == cs@.take(j as int),
        decreases n - j,
    {
        r.push(cs[j]);
        j += 1;
    }
    r
}

/// The [`lines`] of a text.
pub fn split_lines(cs: &[char]) -> (r: Vec<Vec<char>>)
    ensures
        views(r@) == lines(cs@),
{
    let mut r: Vec<Vec<char>> = Vec::new();
    let mut i: usize = 0;
    assert(cs@.skip(0) =~= cs@);
    assert(views(r@) + lines(cs@) =~= lines(cs@));
    let feed: Vec<char> = vec!['\n'];
    assert(feed@ =~= seq!['\n']);
    while i < cs.len()
        invariant
            i <= cs@.len(),
            feed@ == seq!['\n'],
            lines(cs@) == views(r@) + lines(cs@.skip(i as int)),
        decreases cs@.len() - i,
    {
        let rest = slice_subrange(cs, i, cs.len());
        let n = find_of(rest, feed.as_slice());
        let ghost before = r@;
        if n == rest.len() {
            let line = copy_of(rest, n);
            assert(rest@.take(n as int) =~= rest@);
            r.push(line);
            assert(views(r@) =~= views(before) + seq![rest@]);
            return r;
        }
        let m: usize = if n > 0 && rest[n - 1] == '\r' {
            n - 1
        } else {
            n
        };
        let line = copy_of(rest, m);
        assert(line@ =~= without_return(rest@.take(n as int)));
        r.push(line);
        i = i + n + 1;
        assert(rest@.skip(n + 1) =~= cs@.skip(i as int));
        assert(views(r@) + lines(cs@.skip(i as int)) =~= views(before) + (seq![
            without_return(rest@.take(n as int)),
        ] + lines(cs@.skip(i as int))));
    }
    assert(views(r@) + lines(cs@.skip(i as int)) =~= views(r@));
    r
}

} // verus!
