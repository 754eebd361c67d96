//! The formats a transcript can be written in.

use podbatch::document::assemble_pdf;
use podbatch::document::crc32;
use podbatch::document::document_xml;
use podbatch::document::docx;
use podbatch::document::escape_pdf_into;
use podbatch::document::escape_xml_into;
use podbatch::document::pdf;
use podbatch::document::render;
use podbatch::document::styles_xml;
use podbatch::document::wrap;
use podbatch::document::Format;
use podbatch::document::Style;
use podbatch::document::Zip;

/// Checked against the known CRC-32 of "123456789".
#[test]
fn the_crc_is_the_real_one() {
    assert_eq!(crc32(b"123456789"), 0xCBF4_3926);
    assert_eq!(crc32(b""), 0);
}

#[test]
fn every_format_has_a_distinct_extension_and_says_what_it_is() {
    let mut seen = Vec::new();
    for format in Format::all() {
        assert!(!format.label().is_empty());
        assert!(!format.note().is_empty());
        assert!(!seen.contains(&format.extension()), "{format:?} repeats an extension");
        seen.push(format.extension());
    }
    assert_eq!(seen.len(), 3);
}

/// The defaults are the whole point: 16pt and bold, without being asked.
#[test]
fn the_default_style_is_large_and_bold() {
    let style = Style::default();
    assert_eq!(style.size, 16);
    assert!(style.bold);
    assert_eq!(Format::default(), Format::Docx);
}

#[test]
fn the_size_and_weight_reach_the_word_styles() {
    let xml = styles_xml(Style { size: 16, bold: true });
    // Word counts in half-points.
    assert!(xml.contains(r#"<w:sz w:val="32"/>"#), "{xml}");
    assert!(xml.contains("<w:b/>"), "{xml}");
    assert!(xml.contains(r#"w:ascii="Verdana""#), "{xml}");

    let plain = styles_xml(Style { size: 20, bold: false });
    assert!(plain.contains(r#"<w:sz w:val="40"/>"#), "{plain}");
    assert!(!plain.contains("<w:b/>"), "{plain}");
}

/// A stray `&` in an episode title must not make the document unopenable.
#[test]
fn xml_is_escaped() {
    let xml = document_xml("Tom & Jerry <hello>");
    assert!(xml.contains("Tom &amp; Jerry &lt;hello&gt;"), "{xml}");
}

#[test]
fn a_docx_is_a_zip_with_the_parts_word_looks_for() {
    let bytes = docx("Speaker 1: Hello.", Style::default());
    assert_eq!(&bytes[0..4], b"PK\x03\x04", "not a zip");
    assert!(bytes.windows(4).any(|w| w == b"PK\x05\x06"), "no end of directory");

    let text = String::from_utf8_lossy(&bytes);
    for part in [
        "[Content_Types].xml",
        "_rels/.rels",
        "word/document.xml",
        "word/styles.xml",
        "word/_rels/document.xml.rels",
    ] {
        assert!(text.contains(part), "{part} missing from the package");
    }
    assert!(text.contains("Speaker 1: Hello."), "the text never made it in");
}

#[test]
fn a_pdf_has_a_header_a_trailer_and_one_page_per_chunk() {
    let bytes = pdf("Speaker 1: Hello.", Style::default());
    let text = String::from_utf8_lossy(&bytes);
    assert!(text.starts_with("%PDF-1.4"), "no header");
    assert!(text.trim_end().ends_with("%%EOF"), "no trailer");
    assert!(text.contains("/BaseFont /Courier-Bold"), "wrong font: {text:.300}");
    assert!(text.contains("/F1 16 Tf"), "wrong size");
    assert!(text.contains("(Speaker 1: Hello.) Tj"), "the text never made it in");
    assert!(text.contains("startxref"), "no cross-reference table");
}

/// Where the objects of a PDF are, as its own table says.
fn offsets(bytes: &[u8]) -> Vec<usize> {
    let marker = b"startxref\n";
    let at = bytes.windows(marker.len()).rposition(|w| w == marker).expect("a startxref");
    let tail = &bytes[at + marker.len()..];
    let digits: Vec<u8> = tail.iter().copied().take_while(|b| b.is_ascii_digit()).collect();
    let xref_at: usize =
        String::from_utf8(digits).expect("ascii").parse().expect("an offset");

    assert!(
        bytes[xref_at..].starts_with(b"xref"),
        "startxref points at {xref_at}, which is not the table"
    );

    let table = String::from_utf8_lossy(&bytes[xref_at..]).into_owned();
    table
        .lines()
        .filter(|l| l.ends_with(" n "))
        .filter_map(|l| l.split_whitespace().next()?.parse().ok())
        .collect()
}

/// The offsets in the table have to be where the objects actually are, or
/// the file opens as blank in a strict reader.
///
/// Worked on the raw bytes: a reader counts bytes, so the test has to as well.
#[test]
fn the_pdf_cross_reference_offsets_point_at_their_objects() {
    let bytes = pdf("A line.", Style::default());
    // Every offset in the table must land on "<n> 0 obj".
    let entries = offsets(&bytes);
    assert!(!entries.is_empty(), "no object offsets");
    for (i, offset) in entries.iter().enumerate() {
        let expected = format!("{} 0 obj", i + 1);
        assert!(
            bytes[*offset..].starts_with(expected.as_bytes()),
            "object {} is not at {offset}",
            i + 1
        );
    }
}

#[test]
fn pdf_literals_are_escaped() {
    let mut out = String::new();
    escape_pdf_into(r"a (b) c \ d", &mut out);
    assert_eq!(out, r"a \(b\) c \\ d");
}

/// Whisper produces curly quotes and dashes; the standard fonts are
/// single-byte, so they have to be mapped rather than passed through.
#[test]
fn pdf_maps_the_punctuation_a_transcript_actually_contains() {
    let mut out = String::new();
    escape_pdf_into("it\u{2019}s \u{2014} \u{201C}quoted\u{201D}\u{2026}", &mut out);
    assert_eq!(out, r"it\222s \227 \223quoted\224\205");

    // Something with no WinAnsi place is visibly substituted, not dropped.
    let mut out = String::new();
    escape_pdf_into("\u{4E2D}", &mut out);
    assert_eq!(out, "?");
}

#[test]
fn wrapping_breaks_between_words_and_never_exceeds_the_width() {
    let lines = wrap("the quick brown fox jumps over the lazy dog", 12);
    for line in &lines {
        assert!(line.chars().count() <= 12, "{line:?} is too long");
    }
    assert_eq!(lines.concat().replace(' ', "").len(), 35);
}

#[test]
fn a_word_too_long_for_the_line_is_cut_rather_than_overflowing() {
    let lines = wrap("see https://example.com/a/very/long/path/indeed here", 10);
    for line in &lines {
        assert!(line.chars().count() <= 10, "{line:?} is too long");
    }
    assert!(lines.len() > 2);
}

#[test]
fn a_blank_line_survives_wrapping() {
    assert_eq!(wrap("", 10), vec![String::new()]);
}

/// Each format comes out starting the way its format requires.
#[test]
fn each_format_writes_a_file_of_that_format() {
    for format in Format::all() {
        let bytes = render(format, Style::default(), "Speaker 1: Hello.\n\nSpeaker 2: Hi.");
        match format {
            Format::Text => assert!(bytes.starts_with(b"Speaker 1")),
            Format::Docx => assert!(bytes.starts_with(b"PK\x03\x04")),
            Format::Pdf => assert!(bytes.starts_with(b"%PDF")),
        }
    }
}

#[test]
fn plain_text_is_the_text_as_utf8() {
    let body = "héllo — 中\n";
    assert_eq!(render(Format::Text, Style::default(), body), body.as_bytes());
}

#[test]
fn wrapped_lines_hold_the_words_in_order() {
    assert_eq!(wrap("the quick brown fox", 10), vec!["the quick", "brown fox"]);
    assert_eq!(wrap("abcdefghij kl", 4), vec!["abcd", "efgh", "ij", "kl"]);
    assert_eq!(wrap("  a  b ", 80), vec!["a b"]);
}

/// Words that fit are left whole, and no way of setting them takes fewer lines.
#[test]
fn wrapping_takes_the_fewest_lines() {
    let words = ["a", "bb", "ccc", "dddd", "ee", "f", "ggg", "hh", "iiii", "j"];
    let text = words.join(" ");
    for columns in 4..20 {
        let lines = wrap(&text, columns);
        let again: Vec<&str> = lines.iter().flat_map(|l| l.split(' ')).collect();
        assert_eq!(again, words);
        // Every way of breaking between the words that fits.
        let fewest = (0..1u32 << (words.len() - 1))
            .filter_map(|breaks| {
                let mut rows = vec![words[0].len()];
                for (i, word) in words.iter().enumerate().skip(1) {
                    if breaks & (1 << (i - 1)) != 0 {
                        rows.push(word.len());
                    } else {
                        *rows.last_mut().unwrap() += 1 + word.len();
                    }
                }
                rows.iter().all(|n| *n <= columns).then_some(rows.len())
            })
            .min();
        assert_eq!(Some(lines.len()), fewest, "{columns}");
    }
}

fn number(bytes: &[u8], at: usize, width: usize) -> usize {
    (0..width).fold(0, |n, i| n | (bytes[at + i] as usize) << (8 * i))
}

/// The directory at the end of a zip points at each file, and what is said of
/// the file is true of it.
#[test]
fn a_zip_can_be_read_back() {
    let parts: [(&str, &[u8]); 3] =
        [("a.txt", b"first"), ("deep/b.bin", &[0, 255, 7]), ("empty", b"")];
    let mut zip = Zip::new();
    for (name, data) in parts {
        zip.add(name, data);
    }
    let bytes = zip.finish();

    let end = bytes.windows(4).rposition(|w| w == b"PK\x05\x06").expect("the end");
    assert_eq!(number(&bytes, end + 10, 2), 3);
    let mut at = number(&bytes, end + 16, 4);
    for (name, data) in parts {
        assert_eq!(&bytes[at..at + 4], b"PK\x01\x02");
        let length = number(&bytes, at + 28, 2);
        assert_eq!(&bytes[at + 46..at + 46 + length], name.as_bytes());
        let file = number(&bytes, at + 42, 4);
        assert_eq!(&bytes[file..file + 4], b"PK\x03\x04");
        assert_eq!(number(&bytes, file + 14, 4), crc32(data) as usize);
        assert_eq!(number(&bytes, file + 22, 4), data.len());
        let start = file + 30 + number(&bytes, file + 26, 2) + number(&bytes, file + 28, 2);
        assert_eq!(&bytes[start..start + data.len()], data);
        at += 46 + length;
    }
    assert_eq!(at, end);
}

#[test]
fn a_pdf_of_any_objects_has_a_table_that_points_at_them() {
    let objects = vec![b"<< /A 1 >>".to_vec(), Vec::new(), vec![b'x'; 1000]];
    let bytes = assemble_pdf(&objects);
    let entries = offsets(&bytes);
    assert_eq!(entries.len(), 3);
    for (i, offset) in entries.iter().enumerate() {
        assert!(bytes[*offset..].starts_with(format!("{} 0 obj", i + 1).as_bytes()));
    }
}

#[test]
fn a_long_body_takes_more_than_one_page() {
    let body = vec!["A line of the transcript."; 200].join("\n");
    let bytes = pdf(&body, Style { size: 16, bold: false });
    let text = String::from_utf8_lossy(&bytes);
    let pages = text.matches("/Type /Page ").count();
    assert!(pages > 1, "{pages}");
    assert!(text.contains(&format!("/Count {pages}")), "{pages}");
    assert!(text.contains("/BaseFont /Courier "), "{text:.400}");
    assert_eq!(text.matches("(A line of the transcript.) Tj").count(), 200);
}

#[test]
fn xml_text_keeps_what_is_safe() {
    let mut out = String::from("x");
    escape_xml_into("a<b>&\"c\" '\u{1}d\te", &mut out);
    assert_eq!(out, "xa&lt;b&gt;&amp;\"c\" ' d\te");
}
