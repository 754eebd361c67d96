//! What a reader of the PDF sees.
//!
//! A page is a list of drawing instructions. What is said here is how a reader
//! carries them out, so that what was written can be held against where each
//! line ends up on the paper.

use crate::document::columns_for;
use crate::document::content_object;
use crate::document::kid;
use crate::document::kids;
use crate::document::leading;
use crate::document::page_object;
use crate::document::page_objects;
use crate::document::page_stream;
use crate::document::paged;
use crate::document::pdf_char;
use crate::document::pdf_objects;
use crate::document::pdf_pages;
use crate::document::pdf_text;
use crate::document::law_pdf_text_is_seven_bit;
use crate::document::rows_for;
use crate::document::shown_lines;
use crate::document::wrapped_line;
use crate::document::wrapped_lines;
use crate::document::Style;
use crate::text::decimal;
use crate::text::digits_value;
use crate::text::first_of;
use crate::text::lemma_first_of;
use crate::text::lines;
use crate::text::pieces;
use crate::text::signed_decimal;
use crate::timestamps::lemma_decimal;
use crate::timestamps::lemma_first_is;
use crate::timestamps::lemma_pieces;
use vstd::prelude::*;
use vstd::utf8::encode_utf8;

verus! {

// ---- Letters --------------------------------------------------------------

/// The place of a character in WinAnsi, for the ones a page can show: a question
/// mark stands for the rest.
pub open spec fn win_ansi(c: char) -> int {
    if ' ' <= c <= '~' {
        c as int
    } else if c == '\u{2026}' {
        0x85
    } else if c == '\u{2018}' {
        0x91
    } else if c == '\u{2019}' {
        0x92
    } else if c == '\u{201C}' {
        0x93
    } else if c == '\u{201D}' {
        0x94
    } else if c == '\u{2013}' {
        0x96
    } else if c == '\u{2014}' {
        0x97
    } else if c == '\u{00A3}' {
        0xA3
    } else if c == '\u{00E9}' {
        0xE9
    } else {
        0x3F
    }
}

/// A line in WinAnsi.
pub open spec fn in_win_ansi(s: Seq<char>) -> Seq<int> {
    s.map_values(|c: char| win_ansi(c))
}

/// What an octal digit is worth.
pub open spec fn octal(c: char) -> int {
    c as int - 48
}

/// The characters of a literal, up to the parenthesis that ends it, and what
/// follows them. A backslash takes three octal digits as a place in the font, and
/// anything else as itself.
pub open spec fn literal(s: Seq<char>) -> (Seq<int>, Seq<char>)
    decreases s.len(),
{
    if s.len() == 0 || s[0] == '(' || s[0] == ')' {
        (Seq::empty(), s)
    } else if s[0] == '\\' && s.len() >= 4 && '0' <= s[1] <= '7' {
        let rest = literal(s.skip(4));
        (seq![octal(s[1]) * 64 + octal(s[2]) * 8 + octal(s[3])] + rest.0, rest.1)
    } else if s[0] == '\\' && s.len() >= 2 {
        let rest = literal(s.skip(2));
        (seq![s[1] as int] + rest.0, rest.1)
    } else {
        let rest = literal(s.skip(1));
        (seq![s[0] as int] + rest.0, rest.1)
    }
}

proof fn lemma_literal_char(c: char, rest: Seq<char>)
    ensures
        literal(pdf_char(c) + rest) == (seq![win_ansi(c)] + literal(rest).0, literal(rest).1),
{
    reveal_strlit("\\\\");
    reveal_strlit("\\(");
    reveal_strlit("\\)");
    reveal_strlit("\\221");
    reveal_strlit("\\222");
    reveal_strlit("\\223");
    reveal_strlit("\\224");
    reveal_strlit("\\226");
    reveal_strlit("\\227");
    reveal_strlit("\\205");
    reveal_strlit("\\243");
    reveal_strlit("\\351");
    let s = pdf_char(c) + rest;
    let n = pdf_char(c).len() as int;
    assert(n == 1 || n == 2 || n == 4);
    assert(s.skip(n) =~= rest);
    assert(s[0] == pdf_char(c)[0]);
    if n > 1 {
        assert(s[1] == pdf_char(c)[1]);
    }
    if n == 4 {
        assert(s[2] == pdf_char(c)[2] && s[3] == pdf_char(c)[3]);
    }
}

proof fn lemma_pdf_text_front(s: Seq<char>)
    requires
        s.len() > 0,
    ensures
        pdf_text(s) == pdf_char(s[0]) + pdf_text(s.skip(1)),
    decreases s.len(),
{
    if s.len() == 1 {
        assert(s.drop_last() =~= Seq::empty());
        assert(s.skip(1) =~= Seq::empty());
        assert(pdf_text(s) =~= pdf_char(s[0]) + pdf_text(s.skip(1)));
    } else {
        lemma_pdf_text_front(s.drop_last());
        assert(s.drop_last().skip(1) =~= s.skip(1).drop_last());
        assert(s.skip(1).last() == s.last());
        assert(pdf_text(s) =~= pdf_char(s[0]) + pdf_text(s.skip(1)));
    }
}

/// Whatever a line says, the literal it is written as says the same in WinAnsi,
/// and ends where it is meant to: no parenthesis of the line closes it early.
pub proof fn law_literals_read_back(s: Seq<char>, rest: Seq<char>)
    requires
        rest.len() > 0,
        rest[0] == ')',
    ensures
        literal(pdf_text(s) + rest) == (in_win_ansi(s), rest),
    decreases s.len(),
{
    if s.len() == 0 {
        assert(pdf_text(s) + rest =~= rest);
        assert(in_win_ansi(s) =~= Seq::empty());
    } else {
        lemma_pdf_text_front(s);
        law_literals_read_back(s.skip(1), rest);
        lemma_literal_char(s[0], pdf_text(s.skip(1)) + rest);
        assert(pdf_text(s) + rest =~= pdf_char(s[0]) + (pdf_text(s.skip(1)) + rest));
        assert(seq![win_ansi(s[0])] + in_win_ansi(s.skip(1)) =~= in_win_ansi(s));
    }
}

// ---- Instructions ---------------------------------------------------------

/// Something shown on a page: where its baseline starts, in tenths of a point
/// from the left edge and points from the bottom, and what it says.
pub struct Mark {
    pub x: int,
    pub y: int,
    pub text: Seq<int>,
}

/// Where a reader is in carrying out the instructions of a page.
pub struct Pen {
    pub size: int,
    pub leading: int,
    /// Where lines start, in tenths of a point.
    pub left: int,
    pub x: int,
    pub y: int,
    pub marks: Seq<Mark>,
}

/// A number with its sign.
pub open spec fn signed(s: Seq<char>) -> int {
    if s.len() > 0 && s[0] == '-' {
        -digits_value(s.skip(1))
    } else {
        digits_value(s) as int
    }
}

/// Carries one instruction out. `Tf` sets the size of the type, `TL` the distance
/// between lines; `Td` moves the start of the line; `Tj` shows a literal and goes
/// on to its end, every glyph six tenths of the size wide; `T*` goes to the start
/// of the next line.
pub open spec fn drawn(pen: Pen, line: Seq<char>) -> Pen {
    let ws = pieces(line, ' ');
    if line.len() > 0 && line[0] == '(' {
        let (text, rest) = literal(line.skip(1));
        if rest == ") Tj"@ {
            Pen {
                x: pen.x + 6 * pen.size * text.len(),
                marks: pen.marks.push(Mark { x: pen.x, y: pen.y, text }),
                ..pen
            }
        } else {
            pen
        }
    } else if line == "BT"@ {
        Pen { left: 0, x: 0, y: 0, ..pen }
    } else if line == "T*"@ {
        Pen { x: pen.left, y: pen.y - pen.leading, ..pen }
    } else if ws.len() == 3 && ws[2] == "Tf"@ {
        Pen { size: signed(ws[1]), ..pen }
    } else if ws.len() == 2 && ws[1] == "TL"@ {
        Pen { leading: signed(ws[0]), ..pen }
    } else if ws.len() == 3 && ws[2] == "Td"@ {
        let left = pen.left + 10 * signed(ws[0]);
        Pen { left, x: left, y: pen.y + signed(ws[1]), ..pen }
    } else {
        pen
    }
}

/// Carries out the instructions of a page, one to a line.
pub open spec fn drawn_all(pen: Pen, s: Seq<char>) -> Pen
    decreases s.len(),
    via drawn_all_decreases
{
    let n = first_of(s, seq!['\n']);
    if n >= s.len() {
        drawn(pen, s)
    } else {
        drawn_all(drawn(pen, s.take(n)), s.skip(n + 1))
    }
}

#[via_fn]
proof fn drawn_all_decreases(pen: Pen, s: Seq<char>) {
    lemma_first_of(s, seq!['\n']);
}

/// What is on a page once its instructions have been carried out.
pub open spec fn page_marks(stream: Seq<char>) -> Seq<Mark> {
    drawn_all(
        Pen { size: 0, leading: 0, left: 0, x: 0, y: 0, marks: Seq::empty() },
        stream,
    ).marks
}

proof fn lemma_one_instruction(pen: Pen, line: Seq<char>, rest: Seq<char>)
    requires
        !line.contains('\n'),
    ensures
        drawn_all(pen, line + seq!['\n'] + rest) == drawn_all(drawn(pen, line), rest),
        drawn_all(pen, line) == drawn(pen, line),
{
    let s = line + seq!['\n'] + rest;
    let n = line.len() as int;
    let set = seq!['\n'];
    assert(set.contains('\n')) by {
        assert(set[0] == '\n');
    }
    assert forall|i: int| 0 <= i < n implies !set.contains(#[trigger] s[i]) by {
        assert(s[i] == line[i]);
    }
    lemma_first_is(s, set, n);
    assert(s.take(n) =~= line);
    assert(s.skip(n + 1) =~= rest);
    assert forall|i: int| 0 <= i < n implies !set.contains(#[trigger] line[i]) by {}
    lemma_first_is(line, set, n);
}

/// One line of a page, shown and gone past.
proof fn lemma_line_drawn(pen: Pen, line: Seq<char>, rest: Seq<char>)
    ensures
        drawn_all(pen, (seq!['('] + pdf_text(line) + ") Tj\nT*\n"@) + rest) == drawn_all(
            Pen {
                x: pen.left,
                y: pen.y - pen.leading,
                marks: pen.marks.push(Mark { x: pen.x, y: pen.y, text: in_win_ansi(line) }),
                ..pen
            },
            rest,
        ),
{
    reveal_strlit(") Tj\nT*\n");
    reveal_strlit(") Tj");
    reveal_strlit("T*");
    reveal_strlit("BT");
    let show = seq!['('] + pdf_text(line) + ") Tj"@;
    let next = "T*"@;
    let s = (seq!['('] + pdf_text(line) + ") Tj\nT*\n"@) + rest;
    assert(s =~= show + seq!['\n'] + (next + seq!['\n'] + rest));
    law_pdf_text_is_seven_bit(line);
    assert(!show.contains('\n')) by {
        assert forall|i: int| 0 <= i < show.len() implies #[trigger] show[i] != '\n' by {
            if 1 <= i < 1 + pdf_text(line).len() {
                assert(show[i] == pdf_text(line)[i - 1]);
            }
        }
    }
    lemma_one_instruction(pen, show, next + seq!['\n'] + rest);
    assert(show.skip(1) =~= pdf_text(line) + ") Tj"@);
    law_literals_read_back(line, ") Tj"@);
    let after = drawn(pen, show);
    assert(after.marks == pen.marks.push(Mark { x: pen.x, y: pen.y, text: in_win_ansi(line) }));
    assert(!next.contains('\n'));
    assert(next[0] == 'T' && "BT"@[0] == 'B');
    lemma_one_instruction(after, next, rest);
}

proof fn lemma_shown_front(ls: Seq<Seq<char>>)
    requires
        ls.len() > 0,
    ensures
        shown_lines(ls) == (seq!['('] + pdf_text(ls[0]) + ") Tj\nT*\n"@) + shown_lines(ls.skip(1)),
    decreases ls.len(),
{
    let first = seq!['('] + pdf_text(ls[0]) + ") Tj\nT*\n"@;
    if ls.len() == 1 {
        assert(ls.drop_last() =~= Seq::empty());
        assert(ls.skip(1) =~= Seq::empty());
        assert(shown_lines(ls) =~= first + shown_lines(ls.skip(1)));
    } else {
        lemma_shown_front(ls.drop_last());
        assert(ls.drop_last().skip(1) =~= ls.skip(1).drop_last());
        assert(ls.skip(1).last() == ls.last());
        assert(shown_lines(ls) =~= first + shown_lines(ls.skip(1)));
    }
}

/// The lines of a page, shown one below another.
proof fn lemma_lines_drawn(pen: Pen, ls: Seq<Seq<char>>)
    requires
        pen.x == pen.left,
    ensures
        ({
            let after = drawn_all(pen, shown_lines(ls) + "ET"@);
            &&& after.marks.len() == pen.marks.len() + ls.len()
            &&& forall|k: int|
                0 <= k < pen.marks.len() ==> #[trigger] after.marks[k] == pen.marks[k]
            &&& forall|k: int|
                0 <= k < ls.len() ==> #[trigger] after.marks[pen.marks.len() + k] == (Mark {
                    x: pen.left,
                    y: pen.y - k * pen.leading,
                    text: in_win_ansi(ls[k]),
                })
        }),
    decreases ls.len(),
{
    let s = shown_lines(ls) + "ET"@;
    if ls.len() == 0 {
        reveal_strlit("ET");
        reveal_strlit("BT");
        reveal_strlit("T*");
        assert(s =~= "ET"@);
        assert(!s.contains('\n') && !s.contains(' '));
        assert(s[0] == 'E' && "BT"@[0] == 'B' && "T*"@[0] == 'T');
        lemma_one_instruction(pen, s, s);
        lemma_pieces(s, ' ', s);
    } else {
        lemma_shown_front(ls);
        let first = seq!['('] + pdf_text(ls[0]) + ") Tj\nT*\n"@;
        let rest = shown_lines(ls.skip(1)) + "ET"@;
        assert(s =~= first + rest);
        lemma_line_drawn(pen, ls[0], rest);
        let m = Mark { x: pen.x, y: pen.y, text: in_win_ansi(ls[0]) };
        let next = Pen {
            x: pen.left,
            y: pen.y - pen.leading,
            marks: pen.marks.push(m),
            ..pen
        };
        lemma_lines_drawn(next, ls.skip(1));
        let after = drawn_all(next, rest);
        let n = pen.marks.len() as int;
        assert forall|k: int| 0 <= k < n implies #[trigger] after.marks[k] == pen.marks[k] by {
            assert(after.marks[k] == next.marks[k]);
        }
        assert forall|k: int| 0 <= k < ls.len() implies #[trigger] after.marks[n + k] == (Mark {
            x: pen.left,
            y: pen.y - k * pen.leading,
            text: in_win_ansi(ls[k]),
        }) by {
            if k == 0 {
                assert(after.marks[n] == next.marks[n]);
            } else {
                assert(after.marks[(n + 1) + (k - 1)] == (Mark {
                    x: next.left,
                    y: next.y - (k - 1) * next.leading,
                    text: in_win_ansi(ls.skip(1)[k - 1]),
                }));
                assert(ls.skip(1)[k - 1] == ls[k]);
                assert(pen.y - pen.leading - (k - 1) * pen.leading == pen.y - k * pen.leading)
                    by (nonlinear_arith);
            }
        }
    }
}

proof fn lemma_number(n: int)
    ensures
        signed(signed_decimal(n)) == n,
        0 <= n ==> signed(decimal(n)) == n,
        !signed_decimal(n).contains(' ') && !signed_decimal(n).contains('\n'),
        0 <= n ==> !decimal(n).contains(' ') && !decimal(n).contains('\n'),
        signed_decimal(n).len() > 0 && signed_decimal(n)[0] != '(',
        0 <= n ==> decimal(n).len() > 0 && decimal(n)[0] != '(',
{
    let m = if n < 0 {
        -n
    } else {
        n
    };
    lemma_decimal(m);
    let d = decimal(m);
    assert('0' <= d[0] <= '9');
    assert forall|i: int| 0 <= i < d.len() implies #[trigger] d[i] != ' ' && d[i] != '\n' by {
        assert('0' <= d[i] <= '9');
    }
    if n < 0 {
        let t = signed_decimal(n);
        assert(t =~= seq!['-'] + d);
        assert(t.skip(1) =~= d);
        assert forall|i: int| 0 <= i < t.len() implies #[trigger] t[i] != ' ' && t[i] != '\n' by {
            if i > 0 {
                assert(t[i] == d[i - 1]);
            }
        }
    }
}

/// An instruction with two operands.
proof fn lemma_three_words(a: Seq<char>, b: Seq<char>, c: Seq<char>)
    requires
        !a.contains(' ') && !b.contains(' ') && !c.contains(' '),
        !a.contains('\n') && !b.contains('\n') && !c.contains('\n'),
    ensures
        pieces(a + seq![' '] + (b + seq![' '] + c), ' ') == seq![a, b, c],
        !(a + seq![' '] + (b + seq![' '] + c)).contains('\n'),
        pieces(b + seq![' '] + c, ' ') == seq![b, c],
        !(b + seq![' '] + c).contains('\n'),
{
    lemma_pieces(a, ' ', b + seq![' '] + c);
    lemma_pieces(b, ' ', c);
    lemma_pieces(c, ' ', c);
    assert(pieces(a + seq![' '] + (b + seq![' '] + c), ' ') =~= seq![a, b, c]);
    assert(pieces(b + seq![' '] + c, ' ') =~= seq![b, c]);
    lemma_no_break(b, c);
    lemma_no_break(a, b + seq![' '] + c);
}

proof fn lemma_no_break(a: Seq<char>, b: Seq<char>)
    requires
        !a.contains('\n'),
        !b.contains('\n'),
    ensures
        !(a + seq![' '] + b).contains('\n'),
{
    let s = a + seq![' '] + b;
    assert forall|i: int| 0 <= i < s.len() implies #[trigger] s[i] != '\n' by {
        if i < a.len() {
            assert(s[i] == a[i]);
        } else if i > a.len() {
            assert(s[i] == b[i - a.len() - 1]);
        }
    }
}

proof fn lemma_size_set(pen: Pen, size: int, rest: Seq<char>)
    requires
        0 <= size,
    ensures
        drawn_all(pen, "/F1 "@ + decimal(size) + " Tf\n"@ + rest) == drawn_all(
            Pen { size, ..pen },
            rest,
        ),
{
    reveal_strlit("/F1 ");
    reveal_strlit(" Tf\n");
    reveal_strlit("/F1");
    reveal_strlit("Tf");
    reveal_strlit("BT");
    reveal_strlit("T*");
    lemma_number(size);
    let line = "/F1"@ + seq![' '] + (decimal(size) + seq![' '] + "Tf"@);
    lemma_three_words("/F1"@, decimal(size), "Tf"@);
    assert("/F1 "@ + decimal(size) + " Tf\n"@ + rest =~= line + seq!['\n'] + rest);
    lemma_one_instruction(pen, line, rest);
    assert(line[0] == '/' && "BT"@[0] == 'B' && "T*"@[0] == 'T');
}

proof fn lemma_leading_set(pen: Pen, n: int, rest: Seq<char>)
    requires
        0 <= n,
    ensures
        drawn_all(pen, decimal(n) + " TL\n"@ + rest) == drawn_all(Pen { leading: n, ..pen }, rest),
{
    reveal_strlit(" TL\n");
    reveal_strlit("TL");
    reveal_strlit("BT");
    reveal_strlit("T*");
    lemma_number(n);
    let line = decimal(n) + seq![' '] + "TL"@;
    lemma_three_words(decimal(n), decimal(n), "TL"@);
    assert(decimal(n) + " TL\n"@ + rest =~= line + seq!['\n'] + rest);
    lemma_one_instruction(pen, line, rest);
    lemma_decimal(n);
    assert(line[0] == decimal(n)[0]);
    assert('0' <= decimal(n)[0] <= '9');
    assert("BT"@[0] == 'B' && "T*"@[0] == 'T');
}

proof fn lemma_start_set(pen: Pen, y: int, rest: Seq<char>)
    ensures
        drawn_all(pen, "50 "@ + signed_decimal(y) + " Td\n"@ + rest) == drawn_all(
            Pen { left: pen.left + 500, x: pen.left + 500, y: pen.y + y, ..pen },
            rest,
        ),
{
    reveal_strlit("50 ");
    reveal_strlit(" Td\n");
    reveal_strlit("50");
    reveal_strlit("Td");
    reveal_strlit("Tf");
    reveal_strlit("BT");
    reveal_strlit("T*");
    lemma_number(y);
    let line = "50"@ + seq![' '] + (signed_decimal(y) + seq![' '] + "Td"@);
    lemma_three_words("50"@, signed_decimal(y), "Td"@);
    assert("50 "@ + signed_decimal(y) + " Td\n"@ + rest =~= line + seq!['\n'] + rest);
    lemma_one_instruction(pen, line, rest);
    assert(line[0] == '5' && "BT"@[0] == 'B' && "T*"@[0] == 'T');
    assert("Td"@[1] == 'd' && "Tf"@[1] == 'f');
    assert(signed("50"@) == 50) by {
        reveal_with_fuel(digits_value, 3);
        assert("50"@.drop_last() =~= seq!['5']);
        assert(seq!['5'].drop_last() =~= Seq::empty());
    }
}

proof fn lemma_begun(pen: Pen, rest: Seq<char>)
    requires
        pen.left == 0 && pen.x == 0 && pen.y == 0,
    ensures
        drawn_all(pen, "BT\n"@ + rest) == drawn_all(pen, rest),
{
    reveal_strlit("BT\n");
    reveal_strlit("BT");
    assert("BT\n"@ + rest =~= "BT"@ + seq!['\n'] + rest);
    assert(!"BT"@.contains('\n'));
    lemma_one_instruction(pen, "BT"@, rest);
}

/// Carrying out the instructions of a page puts each of its lines on a line of
/// its own: all start at the left margin, 50 points in; the first stands its own
/// height below the top margin, which is 60 points down from the top of an A4
/// sheet; and each of the others stands 1.35 times the size of the type, rounded,
/// below the one before it. They say what they were given.
pub proof fn law_lines_stand_one_below_another(ls: Seq<Seq<char>>, size: int) -> (spacing: int)
    requires
        0 <= size,
    ensures
        27 * size - 10 < 20 * spacing <= 27 * size + 10,
        page_marks(page_stream(ls, size)).len() == ls.len(),
        forall|k: int|
            0 <= k < ls.len() ==> #[trigger] page_marks(page_stream(ls, size))[k] == (Mark {
                x: 500,
                y: 842 - 60 - size - k * spacing,
                text: in_win_ansi(ls[k]),
            }),
{
    let spacing = leading(size);
    let y = 782 - size;
    reveal_strlit("BT\n/F1 ");
    reveal_strlit("BT\n");
    reveal_strlit("/F1 ");
    reveal_strlit(" TL\n50 ");
    reveal_strlit(" TL\n");
    reveal_strlit("50 ");
    let s0 = shown_lines(ls) + "ET"@;
    let s1 = "50 "@ + signed_decimal(y) + " Td\n"@ + s0;
    let s2 = decimal(spacing) + " TL\n"@ + s1;
    let s3 = "/F1 "@ + decimal(size) + " Tf\n"@ + s2;
    let s4 = "BT\n"@ + s3;
    assert(page_stream(ls, size) =~= s4);
    let p0 = Pen { size: 0, leading: 0, left: 0, x: 0, y: 0, marks: Seq::empty() };
    lemma_begun(p0, s3);
    lemma_size_set(p0, size, s2);
    let p1 = Pen { size, ..p0 };
    lemma_leading_set(p1, spacing, s1);
    let p2 = Pen { leading: spacing, ..p1 };
    lemma_start_set(p2, y, s0);
    let p3 = Pen { left: 500, x: 500, y, ..p2 };
    lemma_lines_drawn(p3, ls);
    let marks = page_marks(page_stream(ls, size));
    assert forall|k: int| 0 <= k < ls.len() implies #[trigger] marks[k] == (Mark {
        x: 500,
        y: 842 - 60 - size - k * spacing,
        text: in_win_ansi(ls[k]),
    }) by {
        assert(marks[p3.marks.len() + k] == (Mark {
            x: p3.left,
            y: p3.y - k * p3.leading,
            text: in_win_ansi(ls[k]),
        }));
    }
    spacing
}

/// Whether something shown keeps clear of the margins of an A4 sheet, 50 points
/// at the sides and 60 at the top and bottom: the whole of its height and all of
/// its width, six tenths of the size to a glyph.
pub open spec fn within_margins(m: Mark, size: int) -> bool {
    &&& 500 <= m.x
    &&& m.x + 6 * size * m.text.len() <= 5950 - 500
    &&& 60 <= m.y
    &&& m.y + size <= 842 - 60
}

/// A page that holds no more lines, and no longer ones, than fit keeps all of
/// them inside the margins. Type so large that not one line or one letter fits
/// is past helping.
pub proof fn law_pages_stay_inside_the_margins(ls: Seq<Seq<char>>, size: int)
    requires
        1 <= size <= 534,
        ls.len() <= rows_for(size),
        forall|k: int| 0 <= k < ls.len() ==> (#[trigger] ls[k]).len() <= columns_for(size),
    ensures
        forall|k: int|
            0 <= k < ls.len() ==> within_margins(
                #[trigger] page_marks(page_stream(ls, size))[k],
                size,
            ),
{
    let marks = page_marks(page_stream(ls, size));
    let spacing = law_lines_stand_one_below_another(ls, size);
    let rows = rows_for(size);
    let columns = columns_for(size);
    assert(leading(size) == spacing);
    assert(size <= spacing <= 721);
    assert(rows * spacing <= 722) by (nonlinear_arith)
        requires
            rows == 722int / spacing,
            1 <= spacing,
    ;
    assert(columns * size <= 825) by (nonlinear_arith)
        requires
            columns == 825int / size,
            1 <= size,
    ;
    assert forall|k: int| 0 <= k < ls.len() implies within_margins(
        #[trigger] marks[k],
        size,
    ) by {
        let n = ls[k].len() as int;
        assert(marks[k].text.len() == n);
        assert(size * n <= columns * size) by (nonlinear_arith)
            requires
                n <= columns,
                1 <= size,
        ;
        assert(6 * size * n == 6 * (size * n)) by (nonlinear_arith);
        assert((k + 1) * spacing <= rows * spacing) by (nonlinear_arith)
            requires
                k + 1 <= rows,
                1 <= spacing,
        ;
        assert((k + 1) * spacing == k * spacing + spacing) by (nonlinear_arith);
        assert(0 <= k * spacing) by (nonlinear_arith)
            requires
                0 <= k,
                1 <= spacing,
        ;
    }
}

/// As many lines and letters go on a page as fit: one more of either would not.
pub proof fn law_pages_are_full(size: int)
    requires
        1 <= size <= 534,
    ensures
        (rows_for(size) + 1) * leading(size) > 842 - 120,
        (columns_for(size) + 1) * 6 * size > 5950 - 1000,
{
    let spacing = leading(size);
    assert((722int / spacing + 1) * spacing > 722) by (nonlinear_arith)
        requires
            1 <= spacing,
    ;
    assert((825int / size + 1) * size > 825) by (nonlinear_arith)
        requires
            1 <= size,
    ;
    let c = columns_for(size) + 1;
    assert(c * 6 * size == 6 * (c * size)) by (nonlinear_arith);
}

// ---- Pages ----------------------------------------------------------------

/// The lines of some pages one after another.
pub open spec fn all_lines(pages: Seq<Seq<Seq<char>>>) -> Seq<Seq<char>>
    decreases pages.len(),
{
    if pages.len() == 0 {
        Seq::empty()
    } else {
        pages[0] + all_lines(pages.skip(1))
    }
}

/// Every line is on some page, in order and once; every page but the last is
/// full, and none holds more than fit.
pub proof fn law_pages_hold_every_line(ls: Seq<Seq<char>>, rows: int)
    requires
        0 < rows,
    ensures
        all_lines(paged(ls, rows)) == ls,
        paged(ls, rows).len() > 0,
        forall|i: int| 0 <= i < paged(ls, rows).len() - 1 ==> (#[trigger] paged(ls, rows)[i]).len()
            == rows,
        paged(ls, rows).last().len() <= rows,
        ls.len() > 0 ==> paged(ls, rows).last().len() > 0,
    decreases ls.len(),
{
    let pages = paged(ls, rows);
    if ls.len() <= rows {
        assert(pages.skip(1) =~= Seq::empty());
        assert(all_lines(pages.skip(1)) =~= Seq::empty());
        assert(pages[0] == ls);
        assert(all_lines(pages) =~= ls);
    } else {
        let rest = ls.skip(rows);
        law_pages_hold_every_line(rest, rows);
        assert(pages.skip(1) =~= paged(rest, rows));
        assert(pages[0] == ls.take(rows));
        assert(all_lines(pages) =~= ls);
        assert forall|i: int| 0 <= i < pages.len() - 1 implies (#[trigger] pages[i]).len()
            == rows by {
            if i > 0 {
                assert(pages[i] == paged(rest, rows)[i - 1]);
            }
        }
        assert(pages.last() == paged(rest, rows).last());
    }
}

// ---- The file -------------------------------------------------------------

proof fn lemma_pieces_joined(x: Seq<char>, c: char, y: Seq<char>)
    ensures
        pieces(x + seq![c] + y, c) == pieces(x, c) + pieces(y, c),
        pieces(x, c).len() > 0,
    decreases x.len(),
{
    let set = seq![c];
    lemma_first_of(x, set);
    let n = first_of(x, set);
    if n >= x.len() {
        assert(!x.contains(c)) by {
            assert(set[0] == c);
            assert forall|i: int| 0 <= i < x.len() implies #[trigger] x[i] != c by {
                assert(!set.contains(x[i]));
            }
        }
        lemma_pieces(x, c, y);
    } else {
        let a = x.take(n);
        let rest = x.skip(n + 1);
        assert(x[n] == c);
        assert(x =~= a + seq![c] + rest);
        assert(!a.contains(c)) by {
            assert(set[0] == c);
            assert forall|i: int| 0 <= i < n implies #[trigger] a[i] != c by {
                assert(!set.contains(x[i]));
            }
        }
        lemma_pieces(a, c, rest);
        lemma_pieces(a, c, rest + seq![c] + y);
        assert(x + seq![c] + y =~= a + seq![c] + (rest + seq![c] + y));
        lemma_pieces_joined(rest, c, y);
        assert(seq![a] + (pieces(rest, c) + pieces(y, c)) =~= (seq![a] + pieces(rest, c)) + pieces(
            y,
            c,
        ));
    }
}

proof fn lemma_kids(n: int, k: int)
    requires
        0 <= k < n,
    ensures
        pieces(kids(n), ' ').len() == 3 * n,
        pieces(kids(n), ' ')[3 * k] == decimal(4 + 2 * k),
    decreases n,
{
    reveal_strlit(" 0 R");
    let d = decimal(4 + 2 * (n - 1));
    lemma_number(4 + 2 * (n - 1));
    let tail = seq!['0'] + seq![' '] + seq!['R'];
    assert(kid(n - 1) =~= d + seq![' '] + tail);
    lemma_pieces(d, ' ', tail);
    lemma_pieces(seq!['0'], ' ', seq!['R']);
    lemma_pieces(seq!['R'], ' ', seq!['R']);
    assert(pieces(kid(n - 1), ' ') =~= seq![d, seq!['0'], seq!['R']]);
    if n > 1 {
        lemma_pieces_joined(kids(n - 1), ' ', kid(n - 1));
        if k < n - 1 {
            lemma_kids(n - 1, k);
        } else {
            lemma_kids(n - 1, 0);
        }
    }
}

proof fn lemma_page_objects(pages: Seq<Seq<Seq<char>>>, n: int, size: int, k: int)
    requires
        0 <= k < n <= pages.len(),
    ensures
        page_objects(pages, n, size).len() == 2 * n,
        page_objects(pages, n, size)[2 * k] == page_object(k),
        page_objects(pages, n, size)[2 * k + 1] == content_object(pages[k], size),
    decreases n,
{
    if n == 1 {
        reveal_with_fuel(page_objects, 2);
    } else if k < n - 1 {
        lemma_page_objects(pages, n - 1, size, k);
    } else {
        lemma_page_objects(pages, n - 1, size, 0);
    }
}

/// The page tree lists every page in order by the number of its object, and says
/// how many there are; a page is an A4 sheet and names by its number the object
/// that holds what is drawn on it; and that says how many bytes it holds, and
/// holds the page.
pub proof fn law_pages_lead_to_what_is_on_them(
    pages: Seq<Seq<Seq<char>>>,
    style: Style,
    k: int,
) -> (r: (int, int))
    requires
        0 <= k < pages.len(),
    ensures
        ({
            let objects = pdf_objects(pages, style);
            let (page, content) = r;
            let n = pages.len() as int;
            let stream = encode_utf8(page_stream(pages[k], style.size as int));
            &&& 0 <= page < objects.len() && 0 <= content < objects.len()
            &&& objects[1] == encode_utf8(
                "<< /Type /Pages /Kids ["@ + kids(n) + "] /Count "@ + decimal(n) + " >>"@,
            )
            &&& pieces(kids(n), ' ').len() == 3 * n
            &&& signed(pieces(kids(n), ' ')[3 * k]) == page + 1
            &&& objects[page] == encode_utf8(
                "<< /Type /Page /Parent 2 0 R /MediaBox [0 0 595 842] /Resources << /Font << /F1 3 0 R >> >> /Contents "@
                    + decimal(content + 1) + " 0 R >>"@,
            )
            &&& objects[content] == encode_utf8(
                "<< /Length "@ + decimal(stream.len() as int) + " >>\nstream\n"@,
            ) + stream + encode_utf8("\nendstream"@)
        }),
{
    let n = pages.len() as int;
    let objects = pdf_objects(pages, style);
    lemma_kids(n, k);
    lemma_number(4 + 2 * k);
    lemma_page_objects(pages, n, style.size as int, k);
    let tail = page_objects(pages, n, style.size as int);
    assert(objects[3 + 2 * k] == tail[2 * k]);
    assert(objects[4 + 2 * k] == tail[2 * k + 1]);
    (3 + 2 * k, 4 + 2 * k)
}

/// The font is the bold one when bold is asked for, and its letters stand where
/// WinAnsi has them.
pub proof fn law_the_font_is_the_one_asked_for(pages: Seq<Seq<Seq<char>>>, style: Style)
    ensures
        pdf_objects(pages, style)[2] == encode_utf8(
            "<< /Type /Font /Subtype /Type1 /BaseFont /"@ + (if style.bold {
                "Courier-Bold"@
            } else {
                "Courier"@
            }) + " /Encoding /WinAnsiEncoding >>"@,
        ),
{
}

/// What is in a PDF is the text: its lines in order, each broken where it has to
/// be to fit, one after another over the pages, and no page holds more than fit.
pub proof fn law_the_pages_hold_the_text(body: Seq<char>, size: int)
    requires
        1 <= size <= 534,
    ensures
        all_lines(pdf_pages(body, size)) == wrapped_lines(lines(body), columns_for(size)),
        forall|i: int|
            0 <= i < pdf_pages(body, size).len() ==> (#[trigger] pdf_pages(body, size)[i]).len()
                <= rows_for(size),
{
    let ls = wrapped_lines(lines(body), columns_for(size));
    let rows = rows_for(size);
    let spacing = leading(size);
    assert(1 <= spacing <= 721);
    assert(722int / spacing >= 1) by (nonlinear_arith)
        requires
            1 <= spacing <= 722,
    ;
    law_pages_hold_every_line(ls, rows);
    let pages = pdf_pages(body, size);
    assert forall|i: int| 0 <= i < pages.len() implies (#[trigger] pages[i]).len() <= rows by {
        if i == pages.len() - 1 {
            assert(pages[i] == pages.last());
        }
    }
}

/// Each line of a text is broken on its own, in order.
pub proof fn law_lines_are_broken_one_by_one(a: Seq<Seq<char>>, line: Seq<char>, columns: int)
    ensures
        wrapped_lines(a.push(line), columns) == wrapped_lines(a, columns) + wrapped_line(
            line,
            columns,
        ),
        wrapped_lines(Seq::empty(), columns) == Seq::<Seq<char>>::empty(),
{
    assert(a.push(line).drop_last() =~= a);
}

} // verus!
