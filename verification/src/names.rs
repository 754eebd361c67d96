//! What names keep of the texts they are made from.

use crate::text::first_of;
use crate::text::last_of;
use crate::text::lower;
use crate::text::lower_char;
use crate::text::starts_with;
use crate::text::after_last;
use crate::text::trim;
use crate::text::white;
use crate::timestamps::lemma_first_is;
use crate::timestamps::lemma_untrimmed;
use crate::util::bare_name;
use crate::util::blanked;
use crate::util::chosen_extension;
use crate::util::cut_name;
use crate::util::http_url;
use crate::util::law_sanitized_names_are_not_devices;
use crate::util::law_sanitized_names_are_safe;
use crate::util::marked;
use crate::util::media_extension;
use crate::util::media_file;
use crate::util::mime_extension;
use crate::util::name_char;
use crate::util::padding;
use crate::util::sanitized;
use crate::util::stem;
use crate::util::unpadded_end;
use crate::util::unpadded_start;
use crate::util::url_extension;
use crate::util::windows_reserved;
use vstd::prelude::*;

verus! {

// ---- Path components ------------------------------------------------------

/// Whether a character can stand in a name anywhere: no separator, nothing that
/// Windows refuses, and nothing that is not printed.
pub open spec fn name_letter(c: char) -> bool {
    &&& c != '/' && c != '\\' && c != ':' && c != '*' && c != '?' && c != '"' && c != '<' && c
        != '>' && c != '|'
    &&& !(c <= '\u{1f}') && !('\u{7f}' <= c <= '\u{9f}')
    &&& !white(c)
}

/// Whether a text is a name already: no longer than names may be, made of what
/// can stand in one with single spaces between, with no dot or space at either
/// end, and no device of Windows.
pub open spec fn proper_name(s: Seq<char>) -> bool {
    &&& 0 < s.len() <= 150
    &&& forall|i: int| 0 <= i < s.len() ==> name_letter(#[trigger] s[i]) || s[i] == ' '
    &&& forall|i: int| 0 <= i < s.len() - 1 ==> !(#[trigger] s[i] == ' ' && s[i + 1] == ' ')
    &&& s[0] != '.' && s[0] != ' '
    &&& s.last() != '.' && s.last() != ' '
    &&& no_device(s)
}

/// Whether Windows takes no device for a name: what stands before its first dot
/// is not `con`, `prn`, `aux`, `nul`, `com1` to `com9` or `lpt1` to `lpt9`.
pub open spec fn no_device(s: Seq<char>) -> bool {
    forall|n: int|
        #![trigger s.take(n)]
        0 <= n <= s.len() && (n == s.len() || s[n] == '.') && !s.take(n).contains('.') ==> {
            let w = lower(s.take(n));
            &&& w != seq!['c', 'o', 'n'] && w != seq!['p', 'r', 'n'] && w != seq!['a', 'u', 'x']
            &&& w != seq!['n', 'u', 'l']
            &&& forall|d: char|
                '1' <= d <= '9' ==> w != #[trigger] seq!['c', 'o', 'm', d] && w != seq![
                    'l',
                    'p',
                    't',
                    d,
                ]
        }
}

proof fn lemma_device(s: Seq<char>)
    ensures
        no_device(s) <==> !windows_reserved(s),
{
    crate::text::lemma_first_of(s, seq!['.']);
    let k = first_of(s, seq!['.']);
    let w = lower(stem(s));
    assert(seq!['.'].contains('.')) by {
        assert(seq!['.'][0] == '.');
    }
    assert(!s.take(k).contains('.')) by {
        assert forall|i: int| 0 <= i < k implies #[trigger] s.take(k)[i] != '.' by {
            assert(s.take(k)[i] == s[i]);
            assert(!seq!['.'].contains(s[i]));
        }
    }
    if k < s.len() {
        assert(s[k] == '.');
    }
    if windows_reserved(s) {
        if w.len() == 4 {
            assert(w =~= w.take(3).push(w[3]));
            if w.take(3) == seq!['c', 'o', 'm'] {
                assert(w =~= seq!['c', 'o', 'm', w[3]]);
            } else {
                assert(w =~= seq!['l', 'p', 't', w[3]]);
            }
            let d = w[3];
            assert('1' <= d <= '9');
            assert(seq!['c', 'o', 'm', d].len() == 4);
        }
        assert(!no_device(s));
    } else {
        assert forall|n: int|
            #![trigger s.take(n)]
            0 <= n <= s.len() && (n == s.len() || s[n] == '.') && !s.take(n).contains('.')
                implies n == k by {
            if n < k {
                assert(!seq!['.'].contains(s[n]));
            }
            if n > k {
                assert(s.take(n)[k] == '.');
            }
        }
        assert forall|d: char| '1' <= d <= '9' implies w != #[trigger] seq!['c', 'o', 'm', d] && w
            != seq!['l', 'p', 't', d] by {
            if w == seq!['c', 'o', 'm', d] {
                assert(w.take(3) =~= seq!['c', 'o', 'm']);
            }
            if w == seq!['l', 'p', 't', d] {
                assert(w.take(3) =~= seq!['l', 'p', 't']);
            }
        }
        assert(no_device(s));
    }
}

/// Whatever a feed calls a thing, the name made of it is a proper one.
pub proof fn law_names_are_proper(s: Seq<char>)
    ensures
        proper_name(sanitized(s)),
{
    law_sanitized_names_are_safe(s);
    law_sanitized_names_are_not_devices(s);
    lemma_device(sanitized(s));
    let r = sanitized(s);
    assert forall|i: int| 0 <= i < r.len() - 1 implies !(#[trigger] r[i] == ' ' && r[i + 1]
        == ' ') by {
        assert(white(r[i]) ==> !white(r[i + 1]));
    }
}

/// A proper name is kept as it is.
pub proof fn law_proper_names_are_kept(s: Seq<char>)
    requires
        proper_name(s),
    ensures
        sanitized(s) == s,
{
    lemma_blanked_keeps(s, false);
    assert(!padding(s[0]) && !padding(s.last())) by {
        assert(name_letter(s[0]) || s[0] == ' ');
        assert(name_letter(s.last()) || s.last() == ' ');
    }
    assert(unpadded_start(s) == s);
    assert(unpadded_end(s) == s);
    assert(bare_name(s) == s);
    lemma_device(s);
    assert(marked(s) == s);
    assert(cut_name(s, 150) == s);
}

proof fn lemma_blanked_keeps(s: Seq<char>, after_space: bool)
    requires
        forall|i: int| 0 <= i < s.len() ==> name_letter(#[trigger] s[i]) || s[i] == ' ',
        forall|i: int| 0 <= i < s.len() - 1 ==> !(#[trigger] s[i] == ' ' && s[i + 1] == ' '),
        after_space && s.len() > 0 ==> s[0] != ' ',
    ensures
        blanked(s, after_space) == s,
    decreases s.len(),
{
    if s.len() > 0 {
        assert(name_letter(s[0]) || s[0] == ' ');
        let t = s.skip(1);
        assert forall|i: int| 0 <= i < t.len() implies name_letter(#[trigger] t[i]) || t[i]
            == ' ' by {
            assert(t[i] == s[i + 1]);
        }
        assert forall|i: int| 0 <= i < t.len() - 1 implies !(#[trigger] t[i] == ' ' && t[i + 1]
            == ' ') by {
            assert(t[i] == s[i + 1] && t[i + 1] == s[i + 2]);
        }
        if t.len() > 0 {
            assert(t[0] == s[1]);
        }
        lemma_blanked_keeps(t, s[0] == ' ');
        assert(blanked(s, after_space) =~= seq![s[0]] + t);
        assert(seq![s[0]] + t =~= s);
    } else {
        assert(blanked(s, after_space) =~= s);
    }
}

/// Making a name of a name changes nothing.
pub proof fn law_naming_twice_is_naming_once(s: Seq<char>)
    ensures
        sanitized(sanitized(s)) == sanitized(s),
{
    law_names_are_proper(s);
    law_proper_names_are_kept(sanitized(s));
}

/// The characters of a text that every name keeps: those that can stand in one
/// anywhere, the dot aside, which cannot stand at an end.
pub open spec fn letters(s: Seq<char>) -> Seq<char>
    decreases s.len(),
{
    if s.len() == 0 {
        Seq::empty()
    } else if name_letter(s.last()) && s.last() != '.' {
        letters(s.drop_last()).push(s.last())
    } else {
        letters(s.drop_last())
    }
}

proof fn lemma_letters_front(s: Seq<char>)
    requires
        s.len() > 0,
    ensures
        letters(s) == (if name_letter(s[0]) && s[0] != '.' {
            seq![s[0]]
        } else {
            Seq::empty()
        }) + letters(s.skip(1)),
    decreases s.len(),
{
    let head = if name_letter(s[0]) && s[0] != '.' {
        seq![s[0]]
    } else {
        Seq::empty()
    };
    if s.len() == 1 {
        assert(s.drop_last() =~= Seq::empty());
        assert(s.skip(1) =~= Seq::empty());
        assert(letters(s) =~= head + letters(s.skip(1)));
    } else {
        lemma_letters_front(s.drop_last());
        assert(s.drop_last().skip(1) =~= s.skip(1).drop_last());
        assert(s.skip(1).last() == s.last());
        assert(letters(s) =~= head + letters(s.skip(1)));
    }
}

proof fn lemma_letters_blanked(s: Seq<char>, after_space: bool)
    ensures
        letters(blanked(s, after_space)) == letters(s),
    decreases s.len(),
{
    let r = blanked(s, after_space);
    if s.len() == 0 {
        assert(r =~= s);
    } else {
        let c = name_char(s[0]);
        lemma_letters_front(s);
        lemma_letters_blanked(s.skip(1), white(c));
        let tail = blanked(s.skip(1), white(c));
        if white(c) && after_space {
            assert(r =~= tail);
            assert(letters(r) =~= letters(s));
        } else {
            lemma_letters_front(r);
            assert(r.skip(1) =~= tail);
            assert(letters(r) =~= letters(s));
        }
    }
}

proof fn lemma_letters_unpadded(s: Seq<char>)
    ensures
        letters(unpadded_start(s)) == letters(s),
        letters(unpadded_end(s)) == letters(s),
    decreases s.len(),
{
    if s.len() > 0 {
        lemma_letters_front(s);
        assert(s.drop_first() =~= s.skip(1));
        if padding(s[0]) {
            lemma_letters_unpadded(s.drop_first());
            assert(letters(unpadded_start(s)) =~= letters(s));
        }
        if padding(s.last()) {
            lemma_letters_unpadded(s.drop_last());
        }
    }
}

/// A name loses no letter of the text it is made from, unless it has to be cut
/// or would be a device.
pub proof fn law_names_keep_their_letters(s: Seq<char>)
    requires
        0 < bare_name(s).len() <= 150,
        no_device(bare_name(s)),
    ensures
        letters(sanitized(s)) == letters(s),
{
    lemma_letters_blanked(s, false);
    lemma_letters_unpadded(blanked(s, false));
    lemma_letters_unpadded(unpadded_start(blanked(s, false)));
    lemma_device(bare_name(s));
}

/// A text with a letter in it is never called untitled for want of one.
pub proof fn law_only_the_nameless_are_untitled(s: Seq<char>)
    ensures
        letters(s).len() == 0 ==> sanitized(s) == "untitled"@ || letters(bare_name(s)).len() == 0,
        letters(s).len() > 0 ==> bare_name(s).len() > 0,
{
    lemma_letters_blanked(s, false);
    lemma_letters_unpadded(blanked(s, false));
    lemma_letters_unpadded(unpadded_start(blanked(s, false)));
    if bare_name(s).len() == 0 {
        assert(letters(bare_name(s)).len() == 0);
    }
}

// ---- Extensions -----------------------------------------------------------

proof fn lemma_last_is(s: Seq<char>, c: char, n: int)
    requires
        -1 <= n < s.len(),
        n >= 0 ==> s[n] == c,
        forall|i: int| n < i < s.len() ==> #[trigger] s[i] != c,
    ensures
        last_of(s, c) == n,
    decreases s.len(),
{
    if s.len() > 0 && s.last() != c {
        assert(s.drop_last().len() == s.len() - 1);
        lemma_last_is(s.drop_last(), c, n);
    }
}

/// The extension of a URL's path decides what a file is called, whatever the
/// feed says of its kind and whatever query or fragment follows.
pub proof fn law_the_url_names_the_extension(
    front: Seq<char>,
    ext: Seq<char>,
    tail: Seq<char>,
    mime: Option<Seq<char>>,
)
    requires
        forall|i: int| 0 <= i < front.len() ==> #[trigger] front[i] != '?' && front[i] != '#',
        forall|i: int|
            0 <= i < ext.len() ==> #[trigger] ext[i] != '?' && ext[i] != '#' && ext[i] != '/'
                && ext[i] != '.' && !white(ext[i]),
        ext.len() > 0,
        media_extension(lower(ext)),
        tail.len() > 0 ==> tail[0] == '?' || tail[0] == '#',
    ensures
        chosen_extension(front + seq!['.'] + ext + tail, mime) == lower(ext),
{
    let url = front + seq!['.'] + ext + tail;
    let path = front + seq!['.'] + ext;
    let marks = seq!['?', '#'];
    let n = path.len() as int;
    assert(marks[0] == '?' && marks[1] == '#');
    assert forall|i: int| 0 <= i < n implies !marks.contains(#[trigger] url[i]) by {
        if i < front.len() {
            assert(url[i] == front[i]);
        } else if i > front.len() {
            assert(url[i] == ext[i - front.len() - 1]);
        }
    }
    if n < url.len() {
        assert(url[n] == tail[0]);
        assert(marks.contains(url[n]));
    }
    lemma_first_is(url, marks, n);
    assert(url.take(n) =~= path);
    let k = last_of(path, '/');
    let file = after_last(path, '/');
    lemma_last_bounds(path, '/');
    let dot = front.len() as int;
    assert(k < dot) by {
        if k >= dot {
            assert(path[k] == '/');
            if k > dot {
                assert(path[k] == ext[k - dot - 1]);
            }
        }
    }
    let at = dot - k - 1;
    assert(file[at] == '.');
    assert forall|i: int| at < i < file.len() implies #[trigger] file[i] != '.' by {
        assert(file[i] == path[k + 1 + i]);
        assert(path[k + 1 + i] == ext[i - at - 1]);
    }
    lemma_last_is(file, '.', at);
    assert(after_last(file, '.') =~= ext);
    assert(ext[0] != '.' && !white(ext[0]));
    assert(!white(ext[ext.len() - 1]));
    lemma_untrimmed(ext);
}

proof fn lemma_last_bounds(s: Seq<char>, c: char)
    ensures
        -1 <= last_of(s, c) < s.len(),
        last_of(s, c) >= 0 ==> s[last_of(s, c)] == c,
    decreases s.len(),
{
    if s.len() > 0 && s.last() != c {
        lemma_last_bounds(s.drop_last(), c);
    }
}

/// Where the URL names no extension a media file has, the kind decides, and its
/// parameters and the case of its letters do not.
pub proof fn law_the_kind_decides_otherwise(url: Seq<char>, kind: Seq<char>, rest: Seq<char>)
    requires
        !(url_extension(url) matches Some(e) && media_extension(e)),
        forall|i: int| 0 <= i < kind.len() ==> #[trigger] kind[i] != ';',
    ensures
        chosen_extension(url, Some(kind + seq![';'] + rest)) == chosen_extension(url, Some(kind)),
        chosen_extension(url, Some(lower(kind))) == chosen_extension(url, Some(kind)) || trim(
            lower(kind),
        ) != lower(trim(kind)),
{
    let m = kind + seq![';'] + rest;
    let semi = seq![';'];
    let n = kind.len() as int;
    assert(semi[0] == ';');
    assert forall|i: int| 0 <= i < n implies !semi.contains(#[trigger] m[i]) by {
        assert(m[i] == kind[i]);
    }
    assert(semi.contains(m[n]));
    lemma_first_is(m, semi, n);
    assert(m.take(n) =~= kind);
    assert forall|i: int| 0 <= i < n implies !semi.contains(#[trigger] kind[i]) by {}
    lemma_first_is(kind, semi, n);
    assert(kind.take(n) =~= kind);
    let low = lower(kind);
    assert forall|i: int| 0 <= i < n implies !semi.contains(#[trigger] low[i]) by {
        assert(low[i] == lower_char(kind[i]));
    }
    lemma_first_is(low, semi, n);
    assert(low.take(n) =~= low);
    assert(lower(lower(trim(kind))) =~= lower(trim(kind)));
}

/// The kinds that are named after an extension get it.
pub proof fn law_kinds_are_named_after_their_extension(ext: Seq<char>)
    ensures
        ext == "mp3"@ || ext == "m4a"@ || ext == "aac"@ || ext == "ogg"@ || ext == "opus"@ || ext
            == "wav"@ || ext == "flac"@ ==> mime_extension("audio/"@ + ext) == ext,
        ext == "m4a"@ || ext == "wav"@ || ext == "flac"@ ==> mime_extension("audio/x-"@ + ext)
            == ext,
{
    reveal_strlit("audio/");
    reveal_strlit("audio/x-");
    reveal_strlit("mp3");
    reveal_strlit("m4a");
    reveal_strlit("aac");
    reveal_strlit("ogg");
    reveal_strlit("opus");
    reveal_strlit("wav");
    reveal_strlit("flac");
    if ext == "mp3"@ || ext == "m4a"@ || ext == "aac"@ || ext == "ogg"@ || ext == "opus"@ || ext
        == "wav"@ || ext == "flac"@ {
        lemma_plain_kind("audio/"@ + ext);
        lemma_plain_kind("audio/x-"@ + ext);
        lemma_kinds();
    }
}

proof fn lemma_kinds()
    ensures
        "audio/"@ + "mp3"@ == "audio/mp3"@,
        "audio/"@ + "m4a"@ == "audio/m4a"@,
        "audio/"@ + "aac"@ == "audio/aac"@,
        "audio/"@ + "ogg"@ == "audio/ogg"@,
        "audio/"@ + "opus"@ == "audio/opus"@,
        "audio/"@ + "wav"@ == "audio/wav"@,
        "audio/"@ + "flac"@ == "audio/flac"@,
        "audio/x-"@ + "m4a"@ == "audio/x-m4a"@,
        "audio/x-"@ + "wav"@ == "audio/x-wav"@,
        "audio/x-"@ + "flac"@ == "audio/x-flac"@,
        "audio/mpeg"@[6] == 'm' && "audio/mp3"@[6] == 'm' && "audio/mp4"@[6] == 'm'
            && "audio/m4a"@[6] == 'm',
        "audio/mp3"@[7] == 'p' && "audio/mp4"@[7] == 'p' && "audio/mpeg"@[7] == 'p'
            && "audio/m4a"@[7] == '4',
        "audio/mp3"@[8] == '3' && "audio/mp4"@[8] == '4' && "audio/mpeg"@[8] == 'e',
        "audio/aac"@[6] == 'a' && "audio/flac"@[6] == 'f' && "audio/wav"@[6] == 'w',
        "audio/ogg"@[6] == 'o' && "audio/opus"@[6] == 'o' && "audio/ogg"@[7] == 'g'
            && "audio/opus"@[7] == 'p',
        "audio/x-m4a"@[6] == 'x' && "audio/x-wav"@[6] == 'x' && "audio/x-flac"@[6] == 'x',
        "audio/x-m4a"@[8] == 'm' && "audio/x-wav"@[8] == 'w' && "audio/x-flac"@[8] == 'f',
        "application/ogg"@[7] == 't' && "audio/wav"@[7] == 'a' && "audio/flac"@[7] == 'l' && "audio/x-wav"@[7]
            == '-' && "audio/x-flac"@[7] == '-',
{
    reveal_strlit("audio/");
    reveal_strlit("audio/x-");
    reveal_strlit("mp3");
    reveal_strlit("m4a");
    reveal_strlit("aac");
    reveal_strlit("ogg");
    reveal_strlit("opus");
    reveal_strlit("wav");
    reveal_strlit("flac");
    reveal_strlit("audio/mpeg");
    reveal_strlit("audio/mp4");
    reveal_strlit("audio/mp3");
    reveal_strlit("audio/m4a");
    reveal_strlit("audio/aac");
    reveal_strlit("audio/ogg");
    reveal_strlit("audio/opus");
    reveal_strlit("audio/wav");
    reveal_strlit("audio/flac");
    reveal_strlit("audio/x-m4a");
    reveal_strlit("audio/x-wav");
    reveal_strlit("audio/x-flac");
    reveal_strlit("application/ogg");
    assert("audio/"@ + "mp3"@ =~= "audio/mp3"@);
    assert("audio/"@ + "m4a"@ =~= "audio/m4a"@);
    assert("audio/"@ + "aac"@ =~= "audio/aac"@);
    assert("audio/"@ + "ogg"@ =~= "audio/ogg"@);
    assert("audio/"@ + "opus"@ =~= "audio/opus"@);
    assert("audio/"@ + "wav"@ =~= "audio/wav"@);
    assert("audio/"@ + "flac"@ =~= "audio/flac"@);
    assert("audio/x-"@ + "m4a"@ =~= "audio/x-m4a"@);
    assert("audio/x-"@ + "wav"@ =~= "audio/x-wav"@);
    assert("audio/x-"@ + "flac"@ =~= "audio/x-flac"@);
}

proof fn lemma_plain_kind(m: Seq<char>)
    requires
        m.len() > 0,
        forall|i: int|
            0 <= i < m.len() ==> {
                let c = #[trigger] m[i];
                'a' <= c <= 'z' || '0' <= c <= '9' || c == '/' || c == '-'
            },
    ensures
        lower(trim(m.take(first_of(m, seq![';'])))) == m,
{
    let semi = seq![';'];
    assert forall|i: int| 0 <= i < m.len() implies !semi.contains(#[trigger] m[i]) by {}
    lemma_first_is(m, semi, m.len() as int);
    assert(m.take(m.len() as int) =~= m);
    assert(!white(m[0]) && !white(m.last()));
    lemma_untrimmed(m);
    assert(lower(m) =~= m);
}

// ---- Schemes --------------------------------------------------------------

/// A URL may be fetched when its scheme is `http` or `https`, whatever the case,
/// and under no other.
pub proof fn law_only_web_addresses_are_fetched(scheme: Seq<char>, rest: Seq<char>)
    requires
        !scheme.contains(':'),
    ensures
        http_url(scheme + seq![':', '/', '/'] + rest) <==> lower(scheme) == "http"@ || lower(scheme)
            == "https"@,
        !http_url(scheme),
{
    reveal_strlit("http");
    reveal_strlit("https");
    reveal_strlit("http://");
    reveal_strlit("https://");
    let url = scheme + seq![':', '/', '/'] + rest;
    let low = lower(url);
    let n = scheme.len() as int;
    assert(lower(scheme).len() == n);
    assert forall|i: int| 0 <= i < n implies #[trigger] lower(scheme)[i] != ':' by {
        assert(scheme[i] != ':');
        assert(lower(scheme)[i] == lower_char(scheme[i]));
    }
    assert(forall|i: int| 0 <= i < n ==> low[i] == #[trigger] lower(scheme)[i]);
    assert(low[n] == ':' && low[n + 1] == '/' && low[n + 2] == '/');
    assert("http://"@[4] == ':' && "https://"@[5] == ':');
    if starts_with(low, "http://"@) {
        assert(low[4] == low.take(7)[4]);
        assert(n <= 4) by {
            if n > 4 {
                assert(low[4] == lower(scheme)[4]);
            }
        }
        assert forall|i: int| 0 <= i < n implies #[trigger] lower(scheme)[i] == "http://"@[i] by {
            assert(low.take(7)[i] == low[i]);
        }
        if n < 4 {
            assert(low.take(7)[n] == low[n]);
            assert("http://"@[n] != ':');
        }
        assert(lower(scheme) =~= "http"@);
    }
    if starts_with(low, "https://"@) {
        assert(low[5] == low.take(8)[5]);
        assert(n <= 5) by {
            if n > 5 {
                assert(low[5] == lower(scheme)[5]);
            }
        }
        assert forall|i: int| 0 <= i < n implies #[trigger] lower(scheme)[i] == "https://"@[i] by {
            assert(low.take(8)[i] == low[i]);
        }
        if n < 5 {
            assert(low.take(8)[n] == low[n]);
            assert("https://"@[n] != ':');
        }
        assert(lower(scheme) =~= "https"@);
    }
    if lower(scheme) == "http"@ {
        assert forall|i: int| 0 <= i < 7 implies #[trigger] low.take(7)[i] == "http://"@[i] by {
            if i < 4 {
                assert(low[i] == lower(scheme)[i] && lower(scheme)[i] == "http"@[i]);
            }
        }
        assert(low.take(7) =~= "http://"@);
    }
    if lower(scheme) == "https"@ {
        assert forall|i: int| 0 <= i < 8 implies #[trigger] low.take(8)[i] == "https://"@[i] by {
            if i < 5 {
                assert(low[i] == lower(scheme)[i] && lower(scheme)[i] == "https"@[i]);
            }
        }
        assert(low.take(8) =~= "https://"@);
    }
    let s = lower(scheme);
    if starts_with(s, "http://"@) {
        assert(s.take(7)[4] == s[4]);
    }
    if starts_with(s, "https://"@) {
        assert(s.take(8)[5] == s[5]);
    }
}

/// Every extension of audio and video that podcasts come in is known.
pub proof fn law_podcast_extensions_are_known(e: Seq<char>)
    requires
        e == "mp3"@ || e == "m4a"@ || e == "m4b"@ || e == "aac"@ || e == "ogg"@ || e == "oga"@ || e
            == "opus"@ || e == "wav"@ || e == "flac"@ || e == "aif"@ || e == "aiff"@ || e == "wma"@
            || e == "caf"@ || e == "mp4"@ || e == "m4v"@ || e == "mov"@ || e == "webm"@ || e
            == "mkv"@ || e == "avi"@,
    ensures
        media_extension(e),
{
}

/// A file is media when its name has an extension podcasts come in, in any case
/// of letters, with something before the dot; a name that is nothing but an
/// extension is not.
pub proof fn law_media_goes_by_its_extension(stem: Seq<char>, ext: Seq<char>)
    requires
        !ext.contains('.'),
    ensures
        stem.len() > 0 ==> (media_file(stem + seq!['.'] + ext) <==> media_extension(lower(ext))),
        !media_file(seq!['.'] + ext),
        !media_file(ext),
{
    let name = stem + seq!['.'] + ext;
    let n = stem.len() as int;
    assert(name[n] == '.');
    assert forall|i: int| n < i < name.len() implies #[trigger] name[i] != '.' by {
        assert(name[i] == ext[i - n - 1]);
        assert(ext.contains(ext[i - n - 1]));
    }
    lemma_last_is(name, '.', n);
    assert(after_last(name, '.') =~= ext);
    let bare = seq!['.'] + ext;
    assert forall|i: int| 0 < i < bare.len() implies #[trigger] bare[i] != '.' by {
        assert(bare[i] == ext[i - 1]);
        assert(ext.contains(ext[i - 1]));
    }
    lemma_last_is(bare, '.', 0);
    assert forall|i: int| -1 < i < ext.len() implies #[trigger] ext[i] != '.' by {
        assert(ext.contains(ext[i]));
    }
    lemma_last_is(ext, '.', -1);
}

} // verus!
