//! What a reader of the Word document sees.
//!
//! A `.docx` is XML. What is said here is how a reader takes the paragraphs out
//! of it, so that what was written can be held against the lines that went in.

use crate::document::document_text;
use crate::document::paragraphs;
use crate::document::styles_text;
use crate::document::xml_char;
use crate::document::xml_text;
use crate::document::Style;
use crate::text::decimal;
use crate::text::digits_value;
use crate::text::first_of;
use crate::text::lemma_first_of;
use crate::text::lines;
use crate::text::starts_with;
use crate::timestamps::lemma_decimal;
use crate::timestamps::lemma_first_is;
use vstd::prelude::*;

verus! {

/// What has been read: the paragraphs so far, and whether text now counts.
pub struct Pages {
    pub paragraphs: Seq<Seq<char>>,
    pub inside: bool,
}

/// What a tag does: `w:p` begins a paragraph, and text counts between `w:t` and
/// its end.
pub open spec fn tag_read(p: Pages, tag: Seq<char>) -> Pages {
    if tag == "w:p"@ {
        Pages { paragraphs: p.paragraphs.push(Seq::empty()), ..p }
    } else if starts_with(tag, "w:t "@) {
        Pages { inside: true, ..p }
    } else if tag == "/w:t"@ {
        Pages { inside: false, ..p }
    } else {
        p
    }
}

/// One more character of the paragraph being read.
pub open spec fn char_read(p: Pages, c: char) -> Pages {
    if p.inside && p.paragraphs.len() > 0 {
        Pages {
            paragraphs: p.paragraphs.drop_last().push(p.paragraphs.last().push(c)),
            ..p
        }
    } else {
        p
    }
}

/// Reads XML: tags between angle brackets, and between tags text, in which the
/// three entities stand for what cannot stand there itself.
pub open spec fn read(p: Pages, s: Seq<char>) -> Pages
    decreases s.len(),
    via read_decreases
{
    let n = first_of(s, seq!['>']);
    if s.len() == 0 {
        p
    } else if s[0] == '<' && n < s.len() {
        read(tag_read(p, s.subrange(1, n)), s.skip(n + 1))
    } else if starts_with(s, "&amp;"@) {
        read(char_read(p, '&'), s.skip(5))
    } else if starts_with(s, "&lt;"@) {
        read(char_read(p, '<'), s.skip(4))
    } else if starts_with(s, "&gt;"@) {
        read(char_read(p, '>'), s.skip(4))
    } else {
        read(char_read(p, s[0]), s.skip(1))
    }
}

#[via_fn]
proof fn read_decreases(p: Pages, s: Seq<char>) {
    lemma_first_of(s, seq!['>']);
    reveal_strlit("&amp;");
    reveal_strlit("&lt;");
    reveal_strlit("&gt;");
}

/// What a character of a line looks like on paper: one that is not printed leaves
/// a space, the tab aside.
pub open spec fn printed(c: char) -> char {
    if c < ' ' && c != '\t' {
        ' '
    } else {
        c
    }
}

/// A line as it looks on paper.
pub open spec fn printed_line(s: Seq<char>) -> Seq<char> {
    s.map_values(|c: char| printed(c))
}

proof fn lemma_tag(p: Pages, tag: Seq<char>, rest: Seq<char>)
    requires
        !tag.contains('>'),
    ensures
        read(p, seq!['<'] + tag + seq!['>'] + rest) == read(tag_read(p, tag), rest),
{
    let s = seq!['<'] + tag + seq!['>'] + rest;
    let n = (tag.len() + 1) as int;
    let set = seq!['>'];
    assert(set.contains('>')) by {
        assert(set[0] == '>');
    }
    assert forall|i: int| 0 <= i < n implies !set.contains(#[trigger] s[i]) by {
        if i > 0 {
            assert(s[i] == tag[i - 1]);
        }
    }
    lemma_first_is(s, set, n);
    assert(s.subrange(1, n) =~= tag);
    assert(s.skip(n + 1) =~= rest);
}

proof fn lemma_char(p: Pages, c: char, rest: Seq<char>)
    ensures
        read(p, xml_char(c) + rest) == read(char_read(p, printed(c)), rest),
{
    reveal_strlit("&amp;");
    reveal_strlit("&lt;");
    reveal_strlit("&gt;");
    let s = xml_char(c) + rest;
    let n = xml_char(c).len() as int;
    assert(s.skip(n) =~= rest);
    assert(s[0] == xml_char(c)[0]);
    if c == '&' {
        assert(s.take(5) =~= "&amp;"@);
    } else if c == '<' {
        assert(s.take(4) =~= "&lt;"@);
        assert(s[1] == 'l' && "&amp;"@[1] == 'a');
        if starts_with(s, "&amp;"@) {
            assert(s.take(5)[1] == s[1]);
        }
    } else if c == '>' {
        assert(s.take(4) =~= "&gt;"@);
        assert(s[1] == 'g' && "&amp;"@[1] == 'a' && "&lt;"@[1] == 'l');
        if starts_with(s, "&amp;"@) {
            assert(s.take(5)[1] == s[1]);
        }
        if starts_with(s, "&lt;"@) {
            assert(s.take(4)[1] == s[1]);
        }
    } else {
        assert("&amp;"@[0] == '&' && "&lt;"@[0] == '&' && "&gt;"@[0] == '&');
        if starts_with(s, "&amp;"@) {
            assert(s.take(5)[0] == s[0]);
        }
        if starts_with(s, "&lt;"@) {
            assert(s.take(4)[0] == s[0]);
        }
        if starts_with(s, "&gt;"@) {
            assert(s.take(4)[0] == s[0]);
        }
    }
}

proof fn lemma_xml_text_front(s: Seq<char>)
    requires
        s.len() > 0,
    ensures
        xml_text(s) == xml_char(s[0]) + xml_text(s.skip(1)),
    decreases s.len(),
{
    if s.len() == 1 {
        assert(s.drop_last() =~= Seq::empty());
        assert(s.skip(1) =~= Seq::empty());
        assert(xml_text(s) =~= xml_char(s[0]) + xml_text(s.skip(1)));
    } else {
        lemma_xml_text_front(s.drop_last());
        assert(s.drop_last().skip(1) =~= s.skip(1).drop_last());
        assert(s.skip(1).last() == s.last());
        assert(xml_text(s) =~= xml_char(s[0]) + xml_text(s.skip(1)));
    }
}

/// A line read inside a paragraph is added to it.
proof fn lemma_line(p: Pages, line: Seq<char>, rest: Seq<char>)
    requires
        p.inside,
        p.paragraphs.len() > 0,
    ensures
        read(p, xml_text(line) + rest) == read(
            Pages {
                paragraphs: p.paragraphs.drop_last().push(
                    p.paragraphs.last() + printed_line(line),
                ),
                ..p
            },
            rest,
        ),
    decreases line.len(),
{
    if line.len() == 0 {
        assert(xml_text(line) + rest =~= rest);
        assert(p.paragraphs.last() + printed_line(line) =~= p.paragraphs.last());
        assert(p.paragraphs.drop_last().push(p.paragraphs.last()) =~= p.paragraphs);
    } else {
        lemma_xml_text_front(line);
        let tail = line.skip(1);
        assert(xml_text(line) + rest =~= xml_char(line[0]) + (xml_text(tail) + rest));
        lemma_char(p, line[0], xml_text(tail) + rest);
        let q = char_read(p, printed(line[0]));
        lemma_line(q, tail, rest);
        assert(q.paragraphs.drop_last() =~= p.paragraphs.drop_last());
        assert(q.paragraphs.last() + printed_line(tail) =~= p.paragraphs.last() + printed_line(
            line,
        ));
    }
}

proof fn lemma_paragraph(p: Pages, line: Seq<char>, rest: Seq<char>)
    requires
        !p.inside,
    ensures
        read(
            p,
            ("<w:p><w:r><w:t xml:space=\"preserve\">"@ + xml_text(line) + "</w:t></w:r></w:p>"@)
                + rest,
        ) == read(Pages { paragraphs: p.paragraphs.push(printed_line(line)), ..p }, rest),
{
    reveal_strlit("<w:p><w:r><w:t xml:space=\"preserve\">");
    reveal_strlit("</w:t></w:r></w:p>");
    reveal_strlit("w:p");
    reveal_strlit("w:r");
    reveal_strlit("w:t xml:space=\"preserve\"");
    reveal_strlit("w:t ");
    reveal_strlit("/w:t");
    reveal_strlit("/w:r");
    reveal_strlit("/w:p");
    let t6 = seq!['<'] + "/w:p"@ + seq!['>'] + rest;
    let t5 = seq!['<'] + "/w:r"@ + seq!['>'] + t6;
    let t4 = seq!['<'] + "/w:t"@ + seq!['>'] + t5;
    let t3 = xml_text(line) + t4;
    let t2 = seq!['<'] + "w:t xml:space=\"preserve\""@ + seq!['>'] + t3;
    let t1 = seq!['<'] + "w:r"@ + seq!['>'] + t2;
    let t0 = seq!['<'] + "w:p"@ + seq!['>'] + t1;
    assert(("<w:p><w:r><w:t xml:space=\"preserve\">"@ + xml_text(line) + "</w:t></w:r></w:p>"@)
        + rest =~= t0);
    assert("w:r"@[2] == 'r' && "w:p"@[2] == 'p' && "/w:t"@[0] == '/' && "/w:r"@[3] == 'r'
        && "/w:p"@[3] == 'p' && "/w:t"@[3] == 't' && "w:t "@[0] == 'w');
    assert("w:r"@.len() == 3 && "w:t "@.len() == 4);
    assert("w:t xml:space=\"preserve\""@.take(4) =~= "w:t "@);
    lemma_tag(p, "w:p"@, t1);
    let p1 = Pages { paragraphs: p.paragraphs.push(Seq::empty()), ..p };
    lemma_tag(p1, "w:r"@, t2);
    lemma_tag(p1, "w:t xml:space=\"preserve\""@, t3);
    let p2 = Pages { inside: true, ..p1 };
    lemma_line(p2, line, t4);
    let said = Seq::<char>::empty() + printed_line(line);
    assert(said =~= printed_line(line));
    assert(p2.paragraphs.drop_last().push(said) =~= p.paragraphs.push(printed_line(line)));
    let p3 = Pages { paragraphs: p.paragraphs.push(printed_line(line)), inside: true };
    lemma_tag(p3, "/w:t"@, t5);
    let p4 = Pages { inside: false, ..p3 };
    lemma_closing(p4, "/w:r"@);
    lemma_closing(p4, "/w:p"@);
    lemma_tag(p4, "/w:r"@, t6);
    lemma_tag(p4, "/w:p"@, rest);
}

/// A tag that is neither a paragraph nor a text changes nothing.
proof fn lemma_closing(p: Pages, tag: Seq<char>)
    requires
        tag.len() >= 4,
        tag[0] != 'w',
        tag[3] != 't',
    ensures
        tag_read(p, tag) == p,
{
    reveal_strlit("w:p");
    reveal_strlit("w:t ");
    reveal_strlit("/w:t");
    assert("w:t "@[0] == 'w' && "/w:t"@[3] == 't');
    if starts_with(tag, "w:t "@) {
        assert(tag.take(4)[0] == tag[0]);
    }
}

proof fn lemma_paragraphs_front(ls: Seq<Seq<char>>)
    requires
        ls.len() > 0,
    ensures
        paragraphs(ls) == ("<w:p><w:r><w:t xml:space=\"preserve\">"@ + xml_text(ls[0])
            + "</w:t></w:r></w:p>"@) + paragraphs(ls.skip(1)),
    decreases ls.len(),
{
    let first = "<w:p><w:r><w:t xml:space=\"preserve\">"@ + xml_text(ls[0])
        + "</w:t></w:r></w:p>"@;
    if ls.len() == 1 {
        assert(ls.drop_last() =~= Seq::empty());
        assert(ls.skip(1) =~= Seq::empty());
        assert(paragraphs(ls) =~= first + paragraphs(ls.skip(1)));
    } else {
        lemma_paragraphs_front(ls.drop_last());
        assert(ls.drop_last().skip(1) =~= ls.skip(1).drop_last());
        assert(ls.skip(1).last() == ls.last());
        assert(paragraphs(ls) =~= first + paragraphs(ls.skip(1)));
    }
}

/// The lines as they look on paper.
pub open spec fn printed_lines(ls: Seq<Seq<char>>) -> Seq<Seq<char>> {
    ls.map_values(|l: Seq<char>| printed_line(l))
}

proof fn lemma_paragraphs(p: Pages, ls: Seq<Seq<char>>, rest: Seq<char>)
    requires
        !p.inside,
    ensures
        read(p, paragraphs(ls) + rest) == read(
            Pages { paragraphs: p.paragraphs + printed_lines(ls), ..p },
            rest,
        ),
    decreases ls.len(),
{
    if ls.len() == 0 {
        assert(paragraphs(ls) + rest =~= rest);
        assert(p.paragraphs + printed_lines(ls) =~= p.paragraphs);
    } else {
        lemma_paragraphs_front(ls);
        let first = "<w:p><w:r><w:t xml:space=\"preserve\">"@ + xml_text(ls[0])
            + "</w:t></w:r></w:p>"@;
        let tail = paragraphs(ls.skip(1)) + rest;
        assert(paragraphs(ls) + rest =~= first + tail);
        lemma_paragraph(p, ls[0], tail);
        let q = Pages { paragraphs: p.paragraphs.push(printed_line(ls[0])), ..p };
        lemma_paragraphs(q, ls.skip(1), rest);
        assert(q.paragraphs + printed_lines(ls.skip(1)) =~= p.paragraphs + printed_lines(ls));
    }
}

proof fn lemma_head(p: Pages, rest: Seq<char>)
    requires
        !p.inside,
    ensures
        read(
            p,
            "<?xml version=\"1.0\" encoding=\"UTF-8\" standalone=\"yes\"?>\n<w:document xmlns:w=\"http://schemas.openxmlformats.org/wordprocessingml/2006/main\"><w:body>"@
                + rest,
        ) == read(p, rest),
{
    reveal_strlit(
        "<?xml version=\"1.0\" encoding=\"UTF-8\" standalone=\"yes\"?>\n<w:document xmlns:w=\"http://schemas.openxmlformats.org/wordprocessingml/2006/main\"><w:body>",
    );
    reveal_strlit("?xml version=\"1.0\" encoding=\"UTF-8\" standalone=\"yes\"?");
    reveal_strlit(
        "w:document xmlns:w=\"http://schemas.openxmlformats.org/wordprocessingml/2006/main\"",
    );
    reveal_strlit("w:body");
    reveal_strlit("w:p");
    reveal_strlit("w:t ");
    reveal_strlit("/w:t");
    reveal_strlit("&amp;");
    reveal_strlit("&lt;");
    reveal_strlit("&gt;");
    let a = "?xml version=\"1.0\" encoding=\"UTF-8\" standalone=\"yes\"?"@;
    let b = "w:document xmlns:w=\"http://schemas.openxmlformats.org/wordprocessingml/2006/main\""@;
    let c = "w:body"@;
    let t2 = seq!['<'] + c + seq!['>'] + rest;
    let t1 = seq!['<'] + b + seq!['>'] + t2;
    let t0 = seq!['\n'] + t1;
    let t = seq!['<'] + a + seq!['>'] + t0;
    assert("<?xml version=\"1.0\" encoding=\"UTF-8\" standalone=\"yes\"?>\n<w:document xmlns:w=\"http://schemas.openxmlformats.org/wordprocessingml/2006/main\"><w:body>"@
        + rest =~= t);
    assert(a[0] == '?' && b[2] == 'd' && c[2] == 'b' && "w:p"@[2] == 'p' && "w:t "@[2] == 't'
        && "w:t "@[0] == 'w' && "/w:t"@[0] == '/' && "w:p"@[0] == 'w');
    lemma_tag(p, a, t0);
    assert(tag_read(p, a) == p) by {
        if starts_with(a, "w:t "@) {
            assert(a.take(4)[0] == a[0]);
        }
    }
    assert(t0[0] == '\n' && "&amp;"@[0] == '&' && "&lt;"@[0] == '&' && "&gt;"@[0] == '&');
    assert(t0.skip(1) =~= t1);
    assert(read(p, t0) == read(p, t1)) by {
        if starts_with(t0, "&amp;"@) {
            assert(t0.take(5)[0] == t0[0]);
        }
        if starts_with(t0, "&lt;"@) {
            assert(t0.take(4)[0] == t0[0]);
        }
        if starts_with(t0, "&gt;"@) {
            assert(t0.take(4)[0] == t0[0]);
        }
    }
    lemma_tag(p, b, t2);
    assert(tag_read(p, b) == p) by {
        if starts_with(b, "w:t "@) {
            assert(b.take(4)[2] == b[2]);
        }
    }
    lemma_tag(p, c, rest);
    assert(tag_read(p, c) == p) by {
        if starts_with(c, "w:t "@) {
            assert(c.take(4)[2] == c[2]);
        }
    }
}

proof fn lemma_foot(p: Pages)
    requires
        !p.inside,
    ensures
        read(
            p,
            "<w:sectPr><w:pgSz w:w=\"11906\" w:h=\"16838\"/></w:sectPr></w:body></w:document>"@,
        ) == p,
{
    reveal_strlit("<w:sectPr><w:pgSz w:w=\"11906\" w:h=\"16838\"/></w:sectPr></w:body></w:document>");
    reveal_strlit("w:sectPr");
    reveal_strlit("w:pgSz w:w=\"11906\" w:h=\"16838\"/");
    reveal_strlit("/w:sectPr");
    reveal_strlit("/w:body");
    reveal_strlit("/w:document");
    reveal_strlit("w:p");
    reveal_strlit("w:t ");
    reveal_strlit("/w:t");
    let (a, b, c, d, e) = (
        "w:sectPr"@,
        "w:pgSz w:w=\"11906\" w:h=\"16838\"/"@,
        "/w:sectPr"@,
        "/w:body"@,
        "/w:document"@,
    );
    let none = Seq::<char>::empty();
    let t4 = seq!['<'] + e + seq!['>'] + none;
    let t3 = seq!['<'] + d + seq!['>'] + t4;
    let t2 = seq!['<'] + c + seq!['>'] + t3;
    let t1 = seq!['<'] + b + seq!['>'] + t2;
    let t0 = seq!['<'] + a + seq!['>'] + t1;
    assert("<w:sectPr><w:pgSz w:w=\"11906\" w:h=\"16838\"/></w:sectPr></w:body></w:document>"@ =~= t0);
    assert(a[2] == 's' && b[2] == 'p' && b.len() > 3 && "w:p"@.len() == 3 && "w:p"@[2] == 'p'
        && "w:t "@[2] == 't');
    assert(c[3] == 's' && d[3] == 'b' && e[3] == 'd' && c[0] == '/' && d[0] == '/' && e[0] == '/');
    assert("/w:t"@[0] == '/' && a[0] == 'w' && b[0] == 'w');
    lemma_tag(p, a, t1);
    lemma_tag(p, b, t2);
    lemma_tag(p, c, t3);
    lemma_tag(p, d, t4);
    lemma_tag(p, e, none);
    assert(tag_read(p, a) == p) by {
        if starts_with(a, "w:t "@) {
            assert(a.take(4)[2] == a[2]);
        }
    }
    assert(tag_read(p, b) == p) by {
        if starts_with(b, "w:t "@) {
            assert(b.take(4)[2] == b[2]);
        }
    }
    lemma_closing(p, c);
    lemma_closing(p, d);
    lemma_closing(p, e);
}

/// The paragraphs of the Word document are the lines of the text, one for each,
/// in order, and they say what the lines say. A blank line is an empty paragraph.
pub proof fn law_paragraphs_are_the_lines(body: Seq<char>)
    ensures
        read(Pages { paragraphs: Seq::empty(), inside: false }, document_text(body)).paragraphs
            == printed_lines(lines(body)),
{
    let p = Pages { paragraphs: Seq::empty(), inside: false };
    let foot = "<w:sectPr><w:pgSz w:w=\"11906\" w:h=\"16838\"/></w:sectPr></w:body></w:document>"@;
    let head =
        "<?xml version=\"1.0\" encoding=\"UTF-8\" standalone=\"yes\"?>\n<w:document xmlns:w=\"http://schemas.openxmlformats.org/wordprocessingml/2006/main\"><w:body>"@;
    let ls = lines(body);
    assert(document_text(body) =~= head + (paragraphs(ls) + foot));
    lemma_head(p, paragraphs(ls) + foot);
    lemma_paragraphs(p, ls, foot);
    let q = Pages { paragraphs: p.paragraphs + printed_lines(ls), ..p };
    lemma_foot(q);
    assert(q.paragraphs =~= printed_lines(ls));
}

/// The document is set at the size asked for, which Word counts in half points,
/// and in bold when bold is asked for.
pub proof fn law_the_document_is_set_as_asked(style: Style) -> (r: (
    Seq<char>,
    Seq<char>,
    Seq<char>,
    Seq<char>,
))
    ensures
        styles_text(style) == r.0 + "<w:sz w:val=\""@ + r.1 + "\"/><w:szCs w:val=\""@ + r.2
            + "\"/>"@ + r.3,
        digits_value(r.1) == 2 * style.size,
        digits_value(r.2) == 2 * style.size,
        style.bold <==> r.0.len() >= 6 && r.0.skip(r.0.len() - 6) == "<w:bCs/>"@.skip(2),
{
    let d = decimal(style.size as int * 2);
    lemma_decimal(style.size as int * 2);
    let front =
        "<?xml version=\"1.0\" encoding=\"UTF-8\" standalone=\"yes\"?>\n<w:styles xmlns:w=\"http://schemas.openxmlformats.org/wordprocessingml/2006/main\"><w:docDefaults><w:rPrDefault><w:rPr><w:rFonts w:ascii=\"Verdana\" w:hAnsi=\"Verdana\" w:cs=\"Verdana\"/>"@;
    let back =
        "\"/></w:rPr></w:rPrDefault><w:pPrDefault><w:pPr><w:spacing w:after=\"160\" w:line=\"276\" w:lineRule=\"auto\"/></w:pPr></w:pPrDefault></w:docDefaults></w:styles>"@;
    reveal_strlit(
        "<?xml version=\"1.0\" encoding=\"UTF-8\" standalone=\"yes\"?>\n<w:styles xmlns:w=\"http://schemas.openxmlformats.org/wordprocessingml/2006/main\"><w:docDefaults><w:rPrDefault><w:rPr><w:rFonts w:ascii=\"Verdana\" w:hAnsi=\"Verdana\" w:cs=\"Verdana\"/>",
    );
    reveal_strlit("<w:b/><w:bCs/>");
    reveal_strlit("<w:bCs/>");
    reveal_strlit("");
    reveal_strlit("\"/>");
    reveal_strlit(
        "\"/></w:rPr></w:rPrDefault><w:pPrDefault><w:pPr><w:spacing w:after=\"160\" w:line=\"276\" w:lineRule=\"auto\"/></w:pPr></w:pPrDefault></w:docDefaults></w:styles>",
    );
    let head = front + (if style.bold {
        "<w:b/><w:bCs/>"@
    } else {
        ""@
    });
    let tail = back.skip(3);
    assert("\"/>"@ + tail =~= back);
    assert(styles_text(style) =~= head + "<w:sz w:val=\""@ + d + "\"/><w:szCs w:val=\""@ + d
        + "\"/>"@ + tail);
    let mark = "<w:bCs/>"@.skip(2);
    let n = head.len() as int;
    if style.bold {
        assert(head.skip(n - 6) =~= mark);
    } else {
        assert(head =~= front);
        assert(head[n - 3] == '"');
        assert(mark[3] == 's');
        assert(head.skip(n - 6)[3] == head[n - 3]);
    }
    (head, d, d, tail)
}

} // verus!
