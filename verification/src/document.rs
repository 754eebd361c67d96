//! Writing a transcript out as something readable.
//!
//! A `.txt` is the honest minimum and the worst thing to actually read: it
//! opens at whatever size and weight the text editor feels like, which on a
//! Mac is small and light. So the transcript can also be written as a Word
//! document or a PDF, both carrying the size and weight with them, so the file
//! arrives readable rather than needing to be made readable every time.
//!
//! Both formats are written by hand here rather than pulled in as crates. A
//! `.docx` is four short XML files in a ZIP, and a PDF of flowed text is a
//! handful of objects and a cross-reference table; between them that is less
//! code than the dependency trees would have added, and it means the exact
//! font, size and weight are ours to set rather than something to persuade a
//! library into.
//!
//! The ZIP is written with stored (uncompressed) entries. Deflate would need a
//! compressor; stored needs only a CRC, and a transcript is tens of kilobytes,
//! so the saving would be invisible and the code would not be.

use crate::text::chars_of;
use crate::text::decimal;
use crate::text::copy_of;
use crate::text::lines;
use crate::text::push_wide;
use crate::text::split_lines;
use crate::text::padded;
use crate::text::push_decimal;
use crate::text::push_padded;
use crate::text::push_signed;
use crate::text::signed_decimal;
use crate::text::split_words;
use crate::text::string_between;
use crate::text::texts;
use crate::text::views;
use crate::text::words;
use vstd::prelude::*;
use vstd::slice::slice_subrange;
use vstd::utf8::encode_utf8;

verus! {

/// What to write. `Text` is the plain file, kept because it is the one you can
/// grep, diff and paste anywhere.
#[derive(Clone, Copy, PartialEq, Eq, Debug, Structural)]
pub enum Format {
    Text,
    Docx,
    Pdf,
}

impl Default for Format {
    fn default() -> (r: Self)
        ensures
            r == Format::Docx,
    {
        Format::Docx
    }
}

impl Format {
    /// Every format, in the order they are offered.
    pub open spec fn offered() -> Seq<Format> {
        seq![Format::Docx, Format::Pdf, Format::Text]
    }

    /// Every format, in the order they are offered.
    pub fn all() -> (r: [Format; 3])
        ensures
            r@ == Format::offered(),
    {
        let r = [Format::Docx, Format::Pdf, Format::Text];
        assert(r@ =~= Format::offered());
        r
    }

    /// What the format is called in the window.
    pub fn label(self) -> (r: &'static str)
        ensures
            r@ == match self {
                Format::Text => "Plain text (.txt)"@,
                Format::Docx => "Word (.docx)"@,
                Format::Pdf => "PDF (.pdf)"@,
            },
    {
        match self {
            Format::Text => "Plain text (.txt)",
            Format::Docx => "Word (.docx)",
            Format::Pdf => "PDF (.pdf)",
        }
    }

    /// The extension files of this format have.
    pub open spec fn suffix(self) -> Seq<char> {
        match self {
            Format::Text => "txt"@,
            Format::Docx => "docx"@,
            Format::Pdf => "pdf"@,
        }
    }

    /// The extension files of this format have.
    pub fn extension(self) -> (r: &'static str)
        ensures
            r@ == self.suffix(),
    {
        match self {
            Format::Text => "txt",
            Format::Docx => "docx",
            Format::Pdf => "pdf",
        }
    }

    /// What this format is good and bad at, said plainly in the Settings pane.
    pub fn note(self) -> (r: &'static str)
        ensures
            r@ == match self {
                Format::Text => "Opens anywhere, but at whatever size and weight your text editor uses — the size and boldness below are ignored."@,
                Format::Docx => "Carries the font, size and weight with it, and the text reflows when you make it bigger. The best of the three to read on screen."@,
                Format::Pdf => "Fixed layout, so it looks the same everywhere and prints predictably. Enlarging it means scrolling sideways, and it uses a typewriter font — the only one a PDF can rely on without embedding."@,
            },
    {
        match self {
            Format::Text => "Opens anywhere, but at whatever size and weight your text editor uses — the size and boldness below are ignored.",
            Format::Docx => "Carries the font, size and weight with it, and the text reflows when you make it bigger. The best of the three to read on screen.",
            Format::Pdf => "Fixed layout, so it looks the same everywhere and prints predictably. Enlarging it means scrolling sideways, and it uses a typewriter font — the only one a PDF can rely on without embedding.",
        }
    }
}

/// No two formats share an extension.
pub proof fn law_extensions_are_distinct(a: Format, b: Format)
    ensures
        a.suffix() == b.suffix() <==> a == b,
{
    reveal_strlit("txt");
    reveal_strlit("docx");
    reveal_strlit("pdf");
    assert("txt"@[0] == 't' && "docx"@[0] == 'd' && "pdf"@[0] == 'p');
}

/// Every format is offered, and no format twice.
pub proof fn law_every_format_is_offered_once(f: Format)
    ensures
        exists|i: int| 0 <= i < Format::offered().len() && #[trigger] Format::offered()[i] == f,
        forall|i: int, j: int|
            0 <= i < j < Format::offered().len() ==> #[trigger] Format::offered()[i]
                != #[trigger] Format::offered()[j],
{
    let list = Format::offered();
    assert(list[0] == Format::Docx && list[1] == Format::Pdf && list[2] == Format::Text);
}

/// How the text should look. The defaults are the point of this module.
#[derive(Clone, Copy, PartialEq, Eq, Debug, Structural)]
pub struct Style {
    /// Points. 16 rather than the usual 11 or 12: this is meant to be read, not
    /// to fit on as few pages as possible.
    pub size: u32,
    pub bold: bool,
}

impl Default for Style {
    fn default() -> (r: Self)
        ensures
            r == (Style { size: 16, bold: true }),
    {
        Self { size: 16, bold: true }
    }
}

/// Puts bytes at the end of a list of bytes.
fn put(out: &mut Vec<u8>, bytes: &[u8])
    ensures
        final(out)@ == old(out)@ + bytes@,
{
    let mut i: usize = 0;
    let ghost start = out@;
    while i < bytes.len()
        invariant
            i <= bytes@.len(),
            out@ == start + bytes@.take(i as int),
        decreases bytes@.len() - i,
    {
        out.push(bytes[i]);
        i += 1;
    }
    assert(bytes@.take(i as int) =~= bytes@);
}

/// Puts a text at the end of a list of bytes.
fn put_text(out: &mut Vec<u8>, text: &str)
    ensures
        final(out)@ == old(out)@ + encode_utf8(text@),
{
    put(out, text.as_bytes());
}

// ---- CRC ------------------------------------------------------------------

/// One bit of the reflected CRC-32 division.
pub open spec fn crc_bit(c: u32) -> u32 {
    if c & 1 == 1 {
        (c >> 1) ^ 0xedb8_8320
    } else {
        c >> 1
    }
}

/// Four bits of it.
pub open spec fn crc_nibble(c: u32) -> u32 {
    crc_bit(crc_bit(crc_bit(crc_bit(c))))
}

/// The register after a run of bytes, starting from all ones.
pub open spec fn crc_register(data: Seq<u8>) -> u32
    decreases data.len(),
{
    if data.len() == 0 {
        0xffff_ffff
    } else {
        crc_nibble(crc_nibble(crc_register(data.drop_last()) ^ (data.last() as u32)))
    }
}

/// The usual CRC-32 of a run of bytes.
pub open spec fn crc_of(data: Seq<u8>) -> u32 {
    !crc_register(data)
}

/// What the low four bits of the register contribute, in one step.
spec fn nibble_table(n: u32) -> u32 {
    if n == 0 {
        0
    } else if n == 1 {
        0x1db71064
    } else if n == 2 {
        0x3b6e20c8
    } else if n == 3 {
        0x26d930ac
    } else if n == 4 {
        0x76dc4190
    } else if n == 5 {
        0x6b6b51f4
    } else if n == 6 {
        0x4db26158
    } else if n == 7 {
        0x5005713c
    } else if n == 8 {
        0xedb88320
    } else if n == 9 {
        0xf00f9344
    } else if n == 10 {
        0xd6d6a3e8
    } else if n == 11 {
        0xcb61b38c
    } else if n == 12 {
        0x9b64c2b0
    } else if n == 13 {
        0x86d3d2d4
    } else if n == 14 {
        0xa00ae278
    } else {
        0xbdbdf21c
    }
}

proof fn lemma_nibble(c: u32)
    by (bit_vector)
    ensures
        (c >> 4) ^ nibble_table(c & 15) == crc_nibble(c),
        c & 15 < 16,
{
}

/// The usual CRC-32, computed a nibble at a time so no 256-entry table has to
/// be carried around for the five small files this writes.
pub fn crc32(data: &[u8]) -> (r: u32)
    ensures
        r == crc_of(data@),
{
    let table: [u32; 16] = [
        0x00000000,
        0x1db71064,
        0x3b6e20c8,
        0x26d930ac,
        0x76dc4190,
        0x6b6b51f4,
        0x4db26158,
        0x5005713c,
        0xedb88320,
        0xf00f9344,
        0xd6d6a3e8,
        0xcb61b38c,
        0x9b64c2b0,
        0x86d3d2d4,
        0xa00ae278,
        0xbdbdf21c,
    ];
    assert forall|n: u32| n < 16 implies #[trigger] table@[n as int] == nibble_table(n) by {}
    let mut crc: u32 = 0xFFFF_FFFF;
    let mut i: usize = 0;
    while i < data.len()
        invariant
            i <= data@.len(),
            crc == crc_register(data@.take(i as int)),
            forall|n: u32| n < 16 ==> #[trigger] table@[n as int] == nibble_table(n),
        decreases data@.len() - i,
    {
        assert(data@.take(i + 1).drop_last() =~= data@.take(i as int));
        crc = crc ^ (data[i] as u32);
        proof {
            lemma_nibble(crc);
        }
        crc = (crc >> 4) ^ table[(crc & 0x0F) as usize];
        proof {
            lemma_nibble(crc);
        }
        crc = (crc >> 4) ^ table[(crc & 0x0F) as usize];
        i += 1;
    }
    assert(data@.take(i as int) =~= data@);
    !crc
}

// ---- ZIP ------------------------------------------------------------------

/// The low 16 bits of a number, low byte first.
pub open spec fn le16(n: int) -> Seq<u8> {
    seq![(n % 256) as u8, (n / 256 % 256) as u8]
}

/// The low 32 bits of a number, low byte first.
pub open spec fn le32(n: int) -> Seq<u8> {
    seq![
        (n % 256) as u8,
        (n / 256 % 256) as u8,
        (n / 65_536 % 256) as u8,
        (n / 16_777_216 % 256) as u8,
    ]
}

/// Puts the low 16 bits of a number, low byte first.
fn put16(out: &mut Vec<u8>, n: u64)
    ensures
        final(out)@ == old(out)@ + le16(n as int),
{
    out.push((n % 256) as u8);
    out.push((n / 256 % 256) as u8);
    assert(out@ =~= old(out)@ + le16(n as int));
}

/// Puts the low 32 bits of a number, low byte first.
fn put32(out: &mut Vec<u8>, n: u64)
    ensures
        final(out)@ == old(out)@ + le32(n as int),
{
    out.push((n % 256) as u8);
    out.push((n / 256 % 256) as u8);
    out.push((n / 65_536 % 256) as u8);
    out.push((n / 16_777_216 % 256) as u8);
    assert(out@ =~= old(out)@ + le32(n as int));
}

/// A file to go into an archive: its name and its bytes.
pub struct Part {
    pub name: Seq<char>,
    pub data: Seq<u8>,
}

/// The fields that a file's own header and its directory entry share: no flags,
/// stored, the first date a ZIP can hold, and then the checksum and the size.
pub open spec fn zip_fields(crc: u32, length: int, name_length: int) -> Seq<u8> {
    le16(0) + le16(0) + le16(0) + le16(0x21) + le32(crc as int) + le32(length) + le32(length)
        + le16(name_length) + le16(0)
}

/// A file as it stands in the archive: its header, its name, its bytes.
pub open spec fn local_file(part: Part) -> Seq<u8> {
    seq![0x50u8, 0x4b, 0x03, 0x04] + le16(20) + zip_fields(
        crc_of(part.data),
        part.data.len() as int,
        encode_utf8(part.name).len() as int,
    ) + encode_utf8(part.name) + part.data
}

/// The files of an archive one after another.
pub open spec fn zip_files(parts: Seq<Part>) -> Seq<u8>
    decreases parts.len(),
{
    if parts.len() == 0 {
        Seq::empty()
    } else {
        zip_files(parts.drop_last()) + local_file(parts.last())
    }
}

/// Where a file starts: right after the ones before it.
pub open spec fn zip_offset(parts: Seq<Part>, i: int) -> int {
    zip_files(parts.take(i)).len() as int
}

/// A file's entry in the directory at the end.
pub open spec fn directory_entry(part: Part, offset: int) -> Seq<u8> {
    seq![0x50u8, 0x4b, 0x01, 0x02] + le16(20) + le16(20) + zip_fields(
        crc_of(part.data),
        part.data.len() as int,
        encode_utf8(part.name).len() as int,
    ) + le16(0) + le16(0) + le16(0) + le32(0) + le32(offset) + encode_utf8(part.name)
}

/// The directory of the first `n` files.
pub open spec fn zip_directory(parts: Seq<Part>, n: int) -> Seq<u8>
    decreases n,
{
    if n <= 0 {
        Seq::empty()
    } else {
        zip_directory(parts, n - 1) + directory_entry(parts[n - 1], zip_offset(parts, n - 1))
    }
}

/// The record that closes an archive: how many files there are, and the size and
/// the place of the directory.
pub open spec fn end_record(files: int, size: int, place: int) -> Seq<u8> {
    seq![0x50u8, 0x4b, 0x05, 0x06] + le16(0) + le16(0) + le16(files) + le16(files) + le32(size)
        + le32(place) + le16(0)
}

/// An archive: its files, the directory of them, and the record that says where
/// the directory is.
pub open spec fn zip_bytes(parts: Seq<Part>) -> Seq<u8> {
    let files = zip_files(parts);
    let directory = zip_directory(parts, parts.len() as int);
    files + directory + end_record(
        parts.len() as int,
        directory.len() as int,
        files.len() as int,
    )
}

/// What the archive remembers of a file for the directory at the end.
struct Entry {
    name: String,
    crc: u32,
    length: usize,
    offset: usize,
}

/// A ZIP writer with stored entries and nothing else.
pub struct Zip {
    out: Vec<u8>,
    entries: Vec<Entry>,
    parts: Ghost<Seq<Part>>,
}

impl Zip {
    /// The files added so far.
    pub closed spec fn parts(self) -> Seq<Part> {
        self.parts@
    }

    /// What has been written is the files added, and each is remembered with
    /// its checksum, its length and the place it starts at.
    pub closed spec fn wf(self) -> bool {
        &&& self.out@ == zip_files(self.parts@)
        &&& self.entries@.len() == self.parts@.len()
        &&& forall|i: int|
            #![trigger self.entries@[i]]
            0 <= i < self.parts@.len() ==> {
                &&& self.entries@[i].name@ == self.parts@[i].name
                &&& self.entries@[i].crc == crc_of(self.parts@[i].data)
                &&& self.entries@[i].length == self.parts@[i].data.len()
                &&& self.entries@[i].offset == zip_offset(self.parts@, i)
            }
    }

    /// An archive with nothing in it yet.
    pub fn new() -> (r: Self)
        ensures
            r.wf(),
            r.parts() == Seq::<Part>::empty(),
    {
        Self { out: Vec::new(), entries: Vec::new(), parts: Ghost(Seq::empty()) }
    }

    /// Adds a file.
    pub fn add(&mut self, name: &str, data: &[u8])
        requires
            old(self).wf(),
        ensures
            final(self).wf(),
            final(self).parts() == old(self).parts().push(Part { name: name@, data: data@ }),
    {
        let offset: usize = self.out.len();
        let crc = crc32(data);
        let ghost part = Part { name: name@, data: data@ };
        let ghost before = self.parts@;
        let length: u64 = data.len() as u64;

        let mut file = signature(0x03, 0x04);
        put16(&mut file, 20);
        put_shared(&mut file, crc, length, name.as_bytes().len() as u64);
        put_text(&mut file, name);
        put(&mut file, data);
        assert(file@ == local_file(part));
        put(&mut self.out, file.as_slice());

        self.entries.push(Entry { name: name.to_owned(), crc, length: data.len(), offset });
        proof {
            let after = before.push(part);
            self.parts@ = after;
            assert(after.drop_last() =~= before);
            assert forall|i: int| 0 <= i < after.len() implies #[trigger] zip_offset(after, i)
                == zip_files(before.take(i)).len() by {
                assert(after.take(i) =~= before.take(i));
            }
            assert(before.take(before.len() as int) =~= before);
            assert forall|i: int| #![trigger self.entries@[i]] 0 <= i < before.len() implies
                self.entries@[i].offset == zip_offset(after, i) by {
                assert(zip_offset(before, i) == zip_offset(after, i));
            }
        }
    }

    /// Closes the archive: writes the directory and hands the bytes over.
    pub fn finish(self) -> (r: Vec<u8>)
        requires
            self.wf(),
        ensures
            r@ == zip_bytes(self.parts()),
    {
        let Zip { mut out, entries, parts } = self;
        let ghost files = out@;
        let directory_at: usize = out.len();
        let mut i: usize = 0;
        while i < entries.len()
            invariant
                i <= entries@.len() == parts@.len(),
                out@ == files + zip_directory(parts@, i as int),
                forall|k: int|
                    #![trigger entries@[k]]
                    0 <= k < parts@.len() ==> {
                        &&& entries@[k].name@ == parts@[k].name
                        &&& entries@[k].crc == crc_of(parts@[k].data)
                        &&& entries@[k].length == parts@[k].data.len()
                        &&& entries@[k].offset == zip_offset(parts@, k)
                    },
            decreases entries@.len() - i,
        {
            let entry = &entries[i];
            let mut record = signature(0x01, 0x02);
            put16(&mut record, 20);
            put16(&mut record, 20);
            let name_length: u64 = entry.name.as_str().as_bytes().len() as u64;
            put_shared(&mut record, entry.crc, entry.length as u64, name_length);
            put16(&mut record, 0);
            put16(&mut record, 0);
            put16(&mut record, 0);
            put32(&mut record, 0);
            put32(&mut record, entry.offset as u64);
            put_text(&mut record, entry.name.as_str());
            assert(record@ == directory_entry(parts@[i as int], zip_offset(parts@, i as int)));
            put(&mut out, record.as_slice());
            assert(out@ =~= files + (zip_directory(parts@, i as int) + record@));
            i += 1;
        }

        let directory_size: usize = out.len() - directory_at;
        let count: u64 = entries.len() as u64;
        let mut end = signature(0x05, 0x06);
        put16(&mut end, 0);
        put16(&mut end, 0);
        put16(&mut end, count);
        put16(&mut end, count);
        put32(&mut end, directory_size as u64);
        put32(&mut end, directory_at as u64);
        put16(&mut end, 0);
        put(&mut out, end.as_slice());
        out
    }
}

/// The four bytes that start a ZIP record of the given kind.
fn signature(a: u8, b: u8) -> (r: Vec<u8>)
    ensures
        r@ == seq![0x50u8, 0x4b, a, b],
{
    let mut r: Vec<u8> = Vec::new();
    r.push(0x50);
    r.push(0x4b);
    r.push(a);
    r.push(b);
    assert(r@ =~= seq![0x50u8, 0x4b, a, b]);
    r
}

/// Puts the fields that a file's header and its directory entry share.
fn put_shared(out: &mut Vec<u8>, crc: u32, length: u64, name_length: u64)
    ensures
        final(out)@ == old(out)@ + zip_fields(crc, length as int, name_length as int),
{
    let mut fields: Vec<u8> = Vec::new();
    put16(&mut fields, 0);
    assert(fields@ =~= le16(0));
    put16(&mut fields, 0);
    put16(&mut fields, 0);
    // 1980-01-01. Zero is not a valid MS-DOS date, and some readers baulk.
    put16(&mut fields, 0x21);
    put32(&mut fields, crc as u64);
    put32(&mut fields, length);
    put32(&mut fields, length);
    put16(&mut fields, name_length);
    put16(&mut fields, 0);
    put(out, fields.as_slice());
}

/// Every file of an archive stands where its directory entry says it does.
pub proof fn law_directory_points_at_files(parts: Seq<Part>, i: int)
    requires
        0 <= i < parts.len(),
    ensures
        ({
            let at = zip_offset(parts, i);
            let file = local_file(parts[i]);
            &&& at + file.len() <= zip_files(parts).len()
            &&& zip_bytes(parts).subrange(at, at + file.len()) == file
        }),
{
    lemma_file_in_place(parts, i);
    let at = zip_offset(parts, i);
    let file = local_file(parts[i]);
    assert(zip_bytes(parts).subrange(at, at + file.len()) =~= zip_files(parts).subrange(
        at,
        at + file.len(),
    ));
}

proof fn lemma_file_in_place(parts: Seq<Part>, i: int)
    requires
        0 <= i < parts.len(),
    ensures
        ({
            let at = zip_offset(parts, i);
            let file = local_file(parts[i]);
            &&& at + file.len() <= zip_files(parts).len()
            &&& zip_files(parts).subrange(at, at + file.len()) == file
        }),
    decreases parts.len(),
{
    let front = parts.drop_last();
    let at = zip_offset(parts, i);
    let file = local_file(parts[i]);
    if i == parts.len() - 1 {
        assert(parts.take(i) =~= front);
        assert(zip_files(parts).subrange(at, at + file.len()) =~= file);
    } else {
        lemma_file_in_place(front, i);
        assert(front.take(i) =~= parts.take(i));
        assert(zip_files(parts).subrange(at, at + file.len()) =~= zip_files(front).subrange(
            at,
            at + file.len(),
        ));
    }
}

/// The number two bytes stand for, low byte first.
pub open spec fn read16(b: Seq<u8>, at: int) -> int {
    b[at] + 256 * b[at + 1]
}

/// The number four bytes stand for, low byte first.
pub open spec fn read32(b: Seq<u8>, at: int) -> int {
    b[at] + 256 * b[at + 1] + 65_536 * b[at + 2] + 16_777_216 * b[at + 3]
}

/// What a reader finds where a directory entry stands: its mark, the checksum,
/// the size twice over, the length of the name, the place of the file, the name.
pub open spec fn entry_reads(b: Seq<u8>, at: int, part: Part, offset: int) -> bool {
    let name = encode_utf8(part.name);
    &&& at + 46 + name.len() <= b.len()
    &&& b.subrange(at, at + 4) == seq![0x50u8, 0x4b, 0x01, 0x02]
    &&& read32(b, at + 16) == crc_of(part.data)
    &&& read32(b, at + 20) == part.data.len()
    &&& read32(b, at + 24) == part.data.len()
    &&& read16(b, at + 28) == name.len()
    &&& read32(b, at + 42) == offset
    &&& b.subrange(at + 46, at + 46 + name.len()) == name
}

/// What a reader finds where a file stands: its mark, its name, its bytes
/// unchanged.
pub open spec fn file_reads(b: Seq<u8>, at: int, part: Part) -> bool {
    let name = encode_utf8(part.name);
    &&& at + 30 + name.len() + part.data.len() <= b.len()
    &&& b.subrange(at, at + 4) == seq![0x50u8, 0x4b, 0x03, 0x04]
    &&& b.subrange(at + 30, at + 30 + name.len()) == name
    &&& b.subrange(at + 30 + name.len(), at + 30 + name.len() + part.data.len()) == part.data
}

/// What a reader finds in the last 22 bytes: the mark, the number of files
/// twice over, and the size and the place of the directory, which runs up to
/// here.
pub open spec fn end_reads(b: Seq<u8>, files: int, size: int, place: int) -> bool {
    let at = b.len() - 22;
    &&& at >= 0
    &&& b.subrange(at, at + 4) == seq![0x50u8, 0x4b, 0x05, 0x06]
    &&& read16(b, at + 8) == files
    &&& read16(b, at + 10) == files
    &&& read32(b, at + 12) == size
    &&& read32(b, at + 16) == place
    &&& place + size == at
}

/// Where a file's directory entry starts: right after the entries before it.
pub open spec fn entry_offset(parts: Seq<Part>, i: int) -> int {
    (zip_files(parts).len() + zip_directory(parts, i).len()) as int
}

/// The four base-256 digits of a number that has no more of them.
proof fn lemma_four_digits(n: int)
    requires
        0 <= n < 0x1_0000_0000,
    ensures
        n == n % 256 + 256 * (n / 256 % 256) + 65_536 * (n / 65_536 % 256) + 16_777_216 * (n
            / 16_777_216 % 256),
{
    vstd::arithmetic::div_mod::lemma_div_denominator(n, 256, 256);
    vstd::arithmetic::div_mod::lemma_div_denominator(n, 65_536, 256);
    let q = n / 256;
    let r = n / 65_536;
    let t = n / 16_777_216;
    assert(n == 256 * q + n % 256);
    assert(q == 256 * r + q % 256) by {
        assert(r == q / 256);
    }
    assert(r == 256 * t + r % 256) by {
        assert(t == r / 256);
    }
    assert(0 <= t < 256);
}

proof fn lemma_numbers_read_back(n: int)
    ensures
        le16(n).len() == 2,
        le32(n).len() == 4,
        0 <= n < 0x1_0000 ==> le16(n)[0] + 256 * le16(n)[1] == n,
        0 <= n < 0x1_0000_0000 ==> le32(n)[0] + 256 * le32(n)[1] + 65_536 * le32(n)[2] + 16_777_216
            * le32(n)[3] == n,
{
    if 0 <= n < 0x1_0000_0000 {
        lemma_four_digits(n);
    }
    if 0 <= n < 0x1_0000 {
        assert(n / 256 % 256 == n / 256);
    }
}

/// What stands in a piece of the bytes stands in the bytes.
proof fn lemma_reads_carry_over(all: Seq<u8>, at: int, piece: Seq<u8>)
    requires
        0 <= at,
        at + piece.len() <= all.len(),
        all.subrange(at, at + piece.len()) == piece,
    ensures
        forall|k: int| 0 <= k < piece.len() ==> all[at + k] == #[trigger] piece[k],
        forall|i: int, j: int|
            0 <= i <= j <= piece.len() ==> all.subrange(at + i, at + j) == #[trigger] piece.subrange(
                i,
                j,
            ),
{
    assert forall|k: int| 0 <= k < piece.len() implies all[at + k] == #[trigger] piece[k] by {
        assert(all.subrange(at, at + piece.len())[k] == all[at + k]);
    }
    assert forall|i: int, j: int| 0 <= i <= j <= piece.len() implies all.subrange(at + i, at + j)
        == #[trigger] piece.subrange(i, j) by {
        assert(all.subrange(at + i, at + j) =~= piece.subrange(i, j));
    }
}

proof fn lemma_end_reads(front: Seq<u8>, files: int, size: int, place: int)
    requires
        0 <= files < 0x1_0000,
        0 <= size,
        0 <= place,
        place + size == front.len(),
        front.len() < 0x1_0000_0000,
    ensures
        end_reads(front + end_record(files, size, place), files, size, place),
        (front + end_record(files, size, place)).len() == front.len() + 22,
{
    let tail = end_record(files, size, place);
    lemma_numbers_read_back(files);
    lemma_numbers_read_back(size);
    lemma_numbers_read_back(place);
    assert(tail.len() == 22);
    assert(tail.subrange(0, 4) =~= seq![0x50u8, 0x4b, 0x05, 0x06]);
    assert(tail.subrange(8, 10) =~= le16(files));
    assert(tail.subrange(10, 12) =~= le16(files));
    assert(tail.subrange(12, 16) =~= le32(size));
    assert(tail.subrange(16, 20) =~= le32(place));
    let all = front + tail;
    let at = front.len() as int;
    assert(all.subrange(at, at + 22) =~= tail);
    lemma_reads_carry_over(all, at, tail);
    lemma_read16(all, at, tail, 8, files);
    lemma_read16(all, at, tail, 10, files);
    lemma_read32(all, at, tail, 12, size);
    lemma_read32(all, at, tail, 16, place);
}

/// A two-byte number in a piece of the bytes.
proof fn lemma_read16(all: Seq<u8>, at: int, piece: Seq<u8>, k: int, n: int)
    requires
        0 <= at,
        0 <= k <= piece.len() - 2,
        at + piece.len() <= all.len(),
        all.subrange(at, at + piece.len()) == piece,
        piece.subrange(k, k + 2) == le16(n),
        0 <= n < 0x1_0000,
    ensures
        read16(all, at + k) == n,
{
    lemma_numbers_read_back(n);
    assert(piece.subrange(k, k + 2)[0] == all.subrange(at, at + piece.len())[k]);
    assert(piece.subrange(k, k + 2)[1] == all.subrange(at, at + piece.len())[k + 1]);
}

/// A four-byte number in a piece of the bytes.
proof fn lemma_read32(all: Seq<u8>, at: int, piece: Seq<u8>, k: int, n: int)
    requires
        0 <= at,
        0 <= k <= piece.len() - 4,
        at + piece.len() <= all.len(),
        all.subrange(at, at + piece.len()) == piece,
        piece.subrange(k, k + 4) == le32(n),
        0 <= n < 0x1_0000_0000,
    ensures
        read32(all, at + k) == n,
{
    lemma_numbers_read_back(n);
    assert(piece.subrange(k, k + 4)[0] == all.subrange(at, at + piece.len())[k]);
    assert(piece.subrange(k, k + 4)[1] == all.subrange(at, at + piece.len())[k + 1]);
    assert(piece.subrange(k, k + 4)[2] == all.subrange(at, at + piece.len())[k + 2]);
    assert(piece.subrange(k, k + 4)[3] == all.subrange(at, at + piece.len())[k + 3]);
}

proof fn lemma_entry_reads(all: Seq<u8>, at: int, part: Part, offset: int)
    requires
        part.data.len() < 0x1_0000_0000,
        encode_utf8(part.name).len() < 0x1_0000,
        0 <= offset < 0x1_0000_0000,
        0 <= at,
        at + directory_entry(part, offset).len() <= all.len(),
        all.subrange(at, at + directory_entry(part, offset).len()) == directory_entry(part, offset),
    ensures
        entry_reads(all, at, part, offset),
        directory_entry(part, offset).len() == 46 + encode_utf8(part.name).len(),
{
    let name = encode_utf8(part.name);
    let e = directory_entry(part, offset);
    let n = (46 + name.len()) as int;
    assert(e.len() == n);
    assert(e.subrange(0, 4) =~= seq![0x50u8, 0x4b, 0x01, 0x02]);
    assert(e.subrange(16, 20) =~= le32(crc_of(part.data) as int));
    assert(e.subrange(20, 24) =~= le32(part.data.len() as int));
    assert(e.subrange(24, 28) =~= le32(part.data.len() as int));
    assert(e.subrange(28, 30) =~= le16(name.len() as int));
    assert(e.subrange(42, 46) =~= le32(offset));
    assert(e.subrange(46, n) =~= name);
    lemma_reads_carry_over(all, at, e);
    lemma_read32(all, at, e, 16, crc_of(part.data) as int);
    lemma_read32(all, at, e, 20, part.data.len() as int);
    lemma_read32(all, at, e, 24, part.data.len() as int);
    lemma_read16(all, at, e, 28, name.len() as int);
    lemma_read32(all, at, e, 42, offset);
}

proof fn lemma_file_reads(all: Seq<u8>, at: int, part: Part)
    requires
        0 <= at,
        at + local_file(part).len() <= all.len(),
        all.subrange(at, at + local_file(part).len()) == local_file(part),
    ensures
        file_reads(all, at, part),
        part.data.len() <= all.len(),
{
    let name = encode_utf8(part.name);
    let f = local_file(part);
    let n = (30 + name.len()) as int;
    assert(f.len() == n + part.data.len());
    assert(f.subrange(0, 4) =~= seq![0x50u8, 0x4b, 0x03, 0x04]);
    assert(f.subrange(30, n) =~= name);
    assert(f.subrange(n, n + part.data.len()) =~= part.data);
    lemma_reads_carry_over(all, at, f);
}

proof fn lemma_entry_in_place(parts: Seq<Part>, i: int, n: int)
    requires
        0 <= i < n <= parts.len(),
    ensures
        ({
            let at = zip_directory(parts, i).len() as int;
            let entry = directory_entry(parts[i], zip_offset(parts, i));
            &&& at + entry.len() <= zip_directory(parts, n).len()
            &&& zip_directory(parts, n).subrange(at, at + entry.len()) == entry
        }),
    decreases n,
{
    let at = zip_directory(parts, i).len() as int;
    let entry = directory_entry(parts[i], zip_offset(parts, i));
    let shorter = zip_directory(parts, n - 1);
    if i == n - 1 {
        assert(zip_directory(parts, n).subrange(at, at + entry.len()) =~= entry);
    } else {
        lemma_entry_in_place(parts, i, n - 1);
        assert(zip_directory(parts, n).subrange(at, at + entry.len()) =~= shorter.subrange(
            at,
            at + entry.len(),
        ));
    }
}

/// An archive reads back. Its last 22 bytes say how many files there are and
/// where the directory is; the directory holds an entry for each file, in
/// order, one right after another; and the entry's offset leads to the file's
/// name and to its bytes, unchanged.
pub proof fn law_archives_read_back(parts: Seq<Part>, i: int)
    requires
        0 <= i < parts.len() < 0x1_0000,
        encode_utf8(parts[i].name).len() < 0x1_0000,
        zip_bytes(parts).len() < 0x1_0000_0000,
    ensures
        end_reads(
            zip_bytes(parts),
            parts.len() as int,
            zip_directory(parts, parts.len() as int).len() as int,
            zip_files(parts).len() as int,
        ),
        entry_reads(zip_bytes(parts), entry_offset(parts, i), parts[i], zip_offset(parts, i)),
        entry_offset(parts, 0) == zip_files(parts).len(),
        entry_offset(parts, i + 1) == entry_offset(parts, i) + 46 + encode_utf8(
            parts[i].name,
        ).len(),
        entry_offset(parts, parts.len() as int) == zip_bytes(parts).len() - 22,
        file_reads(zip_bytes(parts), zip_offset(parts, i), parts[i]),
{
    law_archives_end_in_their_record(parts);
    let at = zip_offset(parts, i);
    law_directory_points_at_files(parts, i);
    lemma_file_reads(zip_bytes(parts), at, parts[i]);
    lemma_directory_in_place(parts, i);
    lemma_entry_reads(zip_bytes(parts), entry_offset(parts, i), parts[i], at);
}

/// The last 22 bytes of an archive, even an empty one, say how many files there
/// are, and where the directory is and how large.
pub proof fn law_archives_end_in_their_record(parts: Seq<Part>)
    requires
        parts.len() < 0x1_0000,
        zip_bytes(parts).len() < 0x1_0000_0000,
    ensures
        end_reads(
            zip_bytes(parts),
            parts.len() as int,
            zip_directory(parts, parts.len() as int).len() as int,
            zip_files(parts).len() as int,
        ),
        zip_bytes(parts).len() == entry_offset(parts, parts.len() as int) + 22,
{
    let count = parts.len() as int;
    let files = zip_files(parts);
    let directory = zip_directory(parts, count);
    lemma_end_reads(files + directory, count, directory.len() as int, files.len() as int);
}

/// The header before each file in an archive says by itself what follows: a file
/// that is stored as it is, with its checksum, its size and the length of its
/// name, which anything that knows version 2.0 of the format can take out.
pub proof fn law_files_say_what_they_hold(parts: Seq<Part>, i: int)
    requires
        0 <= i < parts.len() < 0x1_0000,
        encode_utf8(parts[i].name).len() < 0x1_0000,
        zip_bytes(parts).len() < 0x1_0000_0000,
    ensures
        ({
            let b = zip_bytes(parts);
            let at = zip_offset(parts, i);
            &&& read16(b, at + 4) == 20
            &&& read16(b, at + 6) == 0
            &&& read16(b, at + 8) == 0
            &&& read32(b, at + 14) == crc_of(parts[i].data)
            &&& read32(b, at + 18) == parts[i].data.len()
            &&& read32(b, at + 22) == parts[i].data.len()
            &&& read16(b, at + 26) == encode_utf8(parts[i].name).len()
            &&& read16(b, at + 28) == 0
        }),
{
    let b = zip_bytes(parts);
    let at = zip_offset(parts, i);
    let part = parts[i];
    let f = local_file(part);
    law_directory_points_at_files(parts, i);
    lemma_file_header(part);
    lemma_read16(b, at, f, 4, 20);
    lemma_read16(b, at, f, 6, 0);
    lemma_read16(b, at, f, 8, 0);
    lemma_read32(b, at, f, 14, crc_of(part.data) as int);
    lemma_read32(b, at, f, 18, part.data.len() as int);
    lemma_read32(b, at, f, 22, part.data.len() as int);
    lemma_read16(b, at, f, 26, encode_utf8(part.name).len() as int);
    lemma_read16(b, at, f, 28, 0);
}

proof fn lemma_file_header(part: Part)
    ensures
        ({
            let f = local_file(part);
            let name = encode_utf8(part.name);
            &&& f.len() == 30 + name.len() + part.data.len()
            &&& f.subrange(4, 6) == le16(20)
            &&& f.subrange(6, 8) == le16(0)
            &&& f.subrange(8, 10) == le16(0)
            &&& f.subrange(14, 18) == le32(crc_of(part.data) as int)
            &&& f.subrange(18, 22) == le32(part.data.len() as int)
            &&& f.subrange(22, 26) == le32(part.data.len() as int)
            &&& f.subrange(26, 28) == le16(name.len() as int)
            &&& f.subrange(28, 30) == le16(0)
        }),
{
    let f = local_file(part);
    let name = encode_utf8(part.name);
    assert(f.len() == 30 + name.len() + part.data.len());
    assert(f.subrange(4, 6) =~= le16(20));
    assert(f.subrange(6, 8) =~= le16(0));
    assert(f.subrange(8, 10) =~= le16(0));
    assert(f.subrange(14, 18) =~= le32(crc_of(part.data) as int));
    assert(f.subrange(18, 22) =~= le32(part.data.len() as int));
    assert(f.subrange(22, 26) =~= le32(part.data.len() as int));
    assert(f.subrange(26, 28) =~= le16(name.len() as int));
    assert(f.subrange(28, 30) =~= le16(0));
}

proof fn lemma_directory_in_place(parts: Seq<Part>, i: int)
    requires
        0 <= i < parts.len(),
    ensures
        ({
            let at = entry_offset(parts, i);
            let entry = directory_entry(parts[i], zip_offset(parts, i));
            &&& at + entry.len() <= zip_bytes(parts).len()
            &&& zip_bytes(parts).subrange(at, at + entry.len()) == entry
            &&& entry_offset(parts, i + 1) == at + entry.len()
        }),
{
    let count = parts.len() as int;
    let directory = zip_directory(parts, count);
    let entry = directory_entry(parts[i], zip_offset(parts, i));
    let d = zip_directory(parts, i).len() as int;
    let at = entry_offset(parts, i);
    lemma_entry_in_place(parts, i, count);
    assert(zip_bytes(parts).subrange(at, at + entry.len()) =~= directory.subrange(
        d,
        d + entry.len(),
    ));
}

// ---- Word -----------------------------------------------------------------

/// The screen font named in the Word document is Verdana: a `.docx` names a
/// font, it does not carry one, and Verdana ships with both macOS and Windows
/// and was drawn for reading on screen.
pub open spec fn styles_text(style: Style) -> Seq<char> {
    let half_points = style.size as int * 2;
    "<?xml version=\"1.0\" encoding=\"UTF-8\" standalone=\"yes\"?>\n<w:styles xmlns:w=\"http://schemas.openxmlformats.org/wordprocessingml/2006/main\"><w:docDefaults><w:rPrDefault><w:rPr><w:rFonts w:ascii=\"Verdana\" w:hAnsi=\"Verdana\" w:cs=\"Verdana\"/>"@
        + (if style.bold {
        "<w:b/><w:bCs/>"@
    } else {
        ""@
    }) + "<w:sz w:val=\""@ + decimal(half_points) + "\"/><w:szCs w:val=\""@ + decimal(half_points)
        + "\"/></w:rPr></w:rPrDefault><w:pPrDefault><w:pPr><w:spacing w:after=\"160\" w:line=\"276\" w:lineRule=\"auto\"/></w:pPr></w:pPrDefault></w:docDefaults></w:styles>"@
}

/// The document defaults, which is where the size and weight actually live.
///
/// Word measures type in half-points, so 16pt is `w:sz w:val="32"`. Setting it
/// in `docDefaults` rather than on each run means the reader can restyle the
/// whole document from one place, which somebody who needs 20pt will want to.
pub fn styles_xml(style: Style) -> (r: String)
    ensures
        r@ == styles_text(style),
{
    let half_points: u64 = style.size as u64 * 2;
    let mut s =
        "<?xml version=\"1.0\" encoding=\"UTF-8\" standalone=\"yes\"?>\n<w:styles xmlns:w=\"http://schemas.openxmlformats.org/wordprocessingml/2006/main\"><w:docDefaults><w:rPrDefault><w:rPr><w:rFonts w:ascii=\"Verdana\" w:hAnsi=\"Verdana\" w:cs=\"Verdana\"/>".to_owned();
    s.push_str(
        if style.bold {
            "<w:b/><w:bCs/>"
        } else {
            ""
        },
    );
    s.push_str("<w:sz w:val=\"");
    push_decimal(&mut s, half_points);
    s.push_str("\"/><w:szCs w:val=\"");
    push_decimal(&mut s, half_points);
    s.push_str(
        "\"/></w:rPr></w:rPrDefault><w:pPrDefault><w:pPr><w:spacing w:after=\"160\" w:line=\"276\" w:lineRule=\"auto\"/></w:pPr></w:pPrDefault></w:docDefaults></w:styles>",
    );
    s
}

/// How one character is written inside XML text. Control characters are not
/// permitted in XML at all, and a stray one makes the whole document unopenable
/// rather than slightly odd.
pub open spec fn xml_char(c: char) -> Seq<char> {
    if c == '&' {
        "&amp;"@
    } else if c == '<' {
        "&lt;"@
    } else if c == '>' {
        "&gt;"@
    } else if c < ' ' && c != '\t' {
        seq![' ']
    } else {
        seq![c]
    }
}

/// A text as it is written inside XML.
pub open spec fn xml_text(s: Seq<char>) -> Seq<char>
    decreases s.len(),
{
    if s.len() == 0 {
        Seq::empty()
    } else {
        xml_text(s.drop_last()) + xml_char(s.last())
    }
}

/// Writes a text inside XML.
pub fn escape_xml_into(text: &str, out: &mut String)
    ensures
        final(out)@ == old(out)@ + xml_text(text@),
{
    let cs = chars_of(text);
    escape_xml_chars(cs.as_slice(), out);
}

fn escape_xml_chars(cs: &[char], out: &mut String)
    ensures
        final(out)@ == old(out)@ + xml_text(cs@),
{
    let mut i: usize = 0;
    let ghost start = out@;
    while i < cs.len()
        invariant
            i <= cs@.len(),
            out@ == start + xml_text(cs@.take(i as int)),
        decreases cs@.len() - i,
    {
        let ghost before = out@;
        let ch = cs[i];
        assert(cs@.take(i + 1).drop_last() =~= cs@.take(i as int));
        if ch == '&' {
            out.push_str("&amp;");
        } else if ch == '<' {
            out.push_str("&lt;");
        } else if ch == '>' {
            out.push_str("&gt;");
        } else if ch < ' ' && ch != '\t' {
            out.push(' ');
        } else {
            out.push(ch);
        }
        assert(out@ =~= before + xml_char(ch));
        assert(out@ =~= start + xml_text(cs@.take(i + 1)));
        i += 1;
    }
    assert(cs@.take(i as int) =~= cs@);
}

/// Text inside XML holds no bracket that could open or close a tag, and no
/// control character but the tab.
pub proof fn law_xml_text_is_safe(s: Seq<char>)
    ensures
        forall|i: int|
            0 <= i < xml_text(s).len() ==> {
                let c = #[trigger] xml_text(s)[i];
                c != '<' && c != '>' && (c >= ' ' || c == '\t')
            },
    decreases s.len(),
{
    if s.len() > 0 {
        reveal_strlit("&amp;");
        reveal_strlit("&lt;");
        reveal_strlit("&gt;");
        law_xml_text_is_safe(s.drop_last());
        let n = xml_text(s.drop_last()).len() as int;
        let e = xml_char(s.last());
        assert(forall|i: int|
            0 <= i < e.len() ==> {
                let c = #[trigger] e[i];
                c != '<' && c != '>' && (c >= ' ' || c == '\t')
            });
        assert forall|i: int| 0 <= i < xml_text(s).len() implies {
            let c = #[trigger] xml_text(s)[i];
            c != '<' && c != '>' && (c >= ' ' || c == '\t')
        } by {
            if i >= n {
                assert(xml_text(s)[i] == e[i - n]);
            } else {
                assert(xml_text(s)[i] == xml_text(s.drop_last())[i]);
            }
        }
    }
}

/// One paragraph per line. Blank lines become empty paragraphs, which is what
/// keeps the gap between one speaker and the next.
pub open spec fn paragraphs(ls: Seq<Seq<char>>) -> Seq<char>
    decreases ls.len(),
{
    if ls.len() == 0 {
        Seq::empty()
    } else {
        paragraphs(ls.drop_last()) + ("<w:p><w:r><w:t xml:space=\"preserve\">"@ + xml_text(ls.last())
            + "</w:t></w:r></w:p>"@)
    }
}

/// The body of the Word document.
pub open spec fn document_text(body: Seq<char>) -> Seq<char> {
    "<?xml version=\"1.0\" encoding=\"UTF-8\" standalone=\"yes\"?>\n<w:document xmlns:w=\"http://schemas.openxmlformats.org/wordprocessingml/2006/main\"><w:body>"@
        + paragraphs(lines(body))
        + "<w:sectPr><w:pgSz w:w=\"11906\" w:h=\"16838\"/></w:sectPr></w:body></w:document>"@
}

/// Writes the body of the Word document.
pub fn document_xml(body: &str) -> (r: String)
    ensures
        r@ == document_text(body@),
{
    let cs = chars_of(body);
    let ls = split_lines(cs.as_slice());
    let mut out =
        "<?xml version=\"1.0\" encoding=\"UTF-8\" standalone=\"yes\"?>\n<w:document xmlns:w=\"http://schemas.openxmlformats.org/wordprocessingml/2006/main\"><w:body>".to_owned();
    let ghost head = out@;
    let mut i: usize = 0;
    assert(out@ =~= head + paragraphs(views(ls@).take(0)));
    while i < ls.len()
        invariant
            i <= ls@.len(),
            out@ == head + paragraphs(views(ls@).take(i as int)),
        decreases ls@.len() - i,
    {
        let mut paragraph = "<w:p><w:r><w:t xml:space=\"preserve\">".to_owned();
        escape_xml_chars(ls[i].as_slice(), &mut paragraph);
        paragraph.push_str("</w:t></w:r></w:p>");
        let ghost before = out@;
        out.push_str(paragraph.as_str());
        proof {
            let upto = views(ls@).take(i + 1);
            assert(upto.drop_last() =~= views(ls@).take(i as int));
            assert(upto.last() == ls@[i as int]@);
            assert(out@ =~= head + (paragraphs(upto.drop_last()) + paragraph@));
        }
        i += 1;
    }
    assert(views(ls@).take(i as int) =~= views(ls@));
    out.push_str("<w:sectPr><w:pgSz w:w=\"11906\" w:h=\"16838\"/></w:sectPr></w:body></w:document>");
    out
}

/// The kinds of the files in the package.
pub const CONTENT_TYPES: &'static str = "<?xml version=\"1.0\" encoding=\"UTF-8\" standalone=\"yes\"?>\n<Types xmlns=\"http://schemas.openxmlformats.org/package/2006/content-types\"><Default Extension=\"rels\" ContentType=\"application/vnd.openxmlformats-package.relationships+xml\"/><Default Extension=\"xml\" ContentType=\"application/xml\"/><Override PartName=\"/word/document.xml\" ContentType=\"application/vnd.openxmlformats-officedocument.wordprocessingml.document.main+xml\"/><Override PartName=\"/word/styles.xml\" ContentType=\"application/vnd.openxmlformats-officedocument.wordprocessingml.styles+xml\"/></Types>";

/// Where the document is in the package.
pub const ROOT_RELS: &'static str = "<?xml version=\"1.0\" encoding=\"UTF-8\" standalone=\"yes\"?>\n<Relationships xmlns=\"http://schemas.openxmlformats.org/package/2006/relationships\"><Relationship Id=\"rId1\" Type=\"http://schemas.openxmlformats.org/officeDocument/2006/relationships/officeDocument\" Target=\"word/document.xml\"/></Relationships>";

/// Where the document's styles are.
pub const DOC_RELS: &'static str = "<?xml version=\"1.0\" encoding=\"UTF-8\" standalone=\"yes\"?>\n<Relationships xmlns=\"http://schemas.openxmlformats.org/package/2006/relationships\"><Relationship Id=\"rId1\" Type=\"http://schemas.openxmlformats.org/officeDocument/2006/relationships/styles\" Target=\"styles.xml\"/></Relationships>";

/// The files of a Word document.
pub open spec fn docx_parts(body: Seq<char>, style: Style) -> Seq<Part> {
    seq![
        Part { name: "[Content_Types].xml"@, data: encode_utf8(CONTENT_TYPES@) },
        Part { name: "_rels/.rels"@, data: encode_utf8(ROOT_RELS@) },
        Part { name: "word/_rels/document.xml.rels"@, data: encode_utf8(DOC_RELS@) },
        Part { name: "word/styles.xml"@, data: encode_utf8(styles_text(style)) },
        Part { name: "word/document.xml"@, data: encode_utf8(document_text(body)) },
    ]
}

/// A minimal WordprocessingML package: content types, two relationship parts,
/// the style defaults and the body.
pub fn docx(body: &str, style: Style) -> (r: Vec<u8>)
    ensures
        r@ == zip_bytes(docx_parts(body@, style)),
{
    let mut zip = Zip::new();
    zip.add("[Content_Types].xml", CONTENT_TYPES.as_bytes());
    zip.add("_rels/.rels", ROOT_RELS.as_bytes());
    zip.add("word/_rels/document.xml.rels", DOC_RELS.as_bytes());
    let styles = styles_xml(style);
    zip.add("word/styles.xml", styles.as_str().as_bytes());
    let document = document_xml(body);
    zip.add("word/document.xml", document.as_str().as_bytes());
    assert(zip.parts() =~= docx_parts(body@, style));
    zip.finish()
}

// ---- Wrapping -------------------------------------------------------------

/// How many characters a list of texts holds.
pub open spec fn total_len(ws: Seq<Seq<char>>) -> nat
    decreases ws.len(),
{
    if ws.len() == 0 {
        0
    } else {
        ws[0].len() + total_len(ws.skip(1))
    }
}

/// The lines that words make when each goes on the current line for as long as
/// it fits. A word wider than a line starts a fresh one and is cut to width,
/// its remainder carried on.
pub open spec fn fill(ws: Seq<Seq<char>>, current: Seq<char>, columns: int) -> Seq<Seq<char>>
    decreases total_len(ws), ws.len(),
    via fill_decreases
{
    let pending: Seq<Seq<char>> = if current.len() > 0 {
        seq![current]
    } else {
        Seq::empty()
    };
    if ws.len() == 0 || columns <= 0 {
        pending
    } else if ws[0].len() > columns {
        pending + seq![ws[0].take(columns)] + fill(
            seq![ws[0].skip(columns)] + ws.skip(1),
            Seq::empty(),
            columns,
        )
    } else if current.len() == 0 {
        fill(ws.skip(1), ws[0], columns)
    } else if current.len() + 1 + ws[0].len() > columns {
        pending + fill(ws.skip(1), ws[0], columns)
    } else {
        fill(ws.skip(1), current + seq![' '] + ws[0], columns)
    }
}

#[via_fn]
proof fn fill_decreases(ws: Seq<Seq<char>>, current: Seq<char>, columns: int) {
    if ws.len() > 0 && columns > 0 && ws[0].len() > columns {
        let cut = seq![ws[0].skip(columns)] + ws.skip(1);
        assert(cut.skip(1) =~= ws.skip(1));
    }
}

/// A line broken to fit `columns`. It always takes up at least one line.
pub open spec fn wrapped_line(line: Seq<char>, columns: int) -> Seq<Seq<char>> {
    let r = fill(words(line), Seq::empty(), columns);
    if r.len() == 0 {
        seq![Seq::empty()]
    } else {
        r
    }
}

/// Break a line to fit `columns`, splitting between words where possible.
///
/// A word longer than the line — a URL, usually — is cut rather than allowed to
/// run off the edge, because a fixed-layout page has no edge to run off into.
pub fn wrap(line: &str, columns: usize) -> (r: Vec<String>)
    requires
        columns > 0,
    ensures
        texts(r@) == wrapped_line(line@, columns as int),
{
    let cs = chars_of(line);
    let rows = wrap_chars(cs.as_slice(), columns);
    let mut r: Vec<String> = Vec::new();
    let mut i: usize = 0;
    while i < rows.len()
        invariant
            i <= rows@.len(),
            texts(r@) == views(rows@).take(i as int),
        decreases rows@.len() - i,
    {
        let ghost before = r@;
        r.push(string_between(rows[i].as_slice(), 0, rows[i].len()));
        assert(r@.last()@ =~= rows@[i as int]@);
        assert(texts(r@) =~= texts(before).push(rows@[i as int]@));
        i += 1;
    }
    assert(views(rows@).take(i as int) =~= views(rows@));
    r
}

/// What is on the current line, as the line it will become.
spec fn pending_line(current: Seq<char>) -> Seq<Seq<char>> {
    if current.len() > 0 {
        seq![current]
    } else {
        Seq::empty()
    }
}

/// The lines that [`wrapped_line`] describes.
fn wrap_chars(line: &[char], columns: usize) -> (r: Vec<Vec<char>>)
    requires
        columns > 0,
    ensures
        views(r@) == wrapped_line(line@, columns as int),
{
    let mut out: Vec<Vec<char>> = Vec::new();
    let mut current: Vec<char> = Vec::new();
    let ws = split_words(line);
    let ghost all = views(ws@);
    let ghost goal = fill(all, Seq::empty(), columns as int);
    let mut k: usize = 0;
    assert(all.skip(0) =~= all);
    assert(views(out@) + goal =~= goal);
    while k < ws.len()
        invariant
            columns > 0,
            k <= ws@.len(),
            all == views(ws@),
            goal == views(out@) + fill(all.skip(k as int), current@, columns as int),
        decreases ws@.len() - k,
    {
        let mut word = ws[k].as_slice();
        let ghost rest = all.skip(k + 1);
        assert(all.skip(k as int) =~= seq![word@] + rest);
        // Anything that cannot fit on a line of its own is cut to width and the
        // remainder carried on to the next.
        while word.len() > columns
            invariant
                columns > 0,
                goal == views(out@) + fill(seq![word@] + rest, current@, columns as int),
            decreases word@.len(),
        {
            let ghost before = views(out@);
            let ghost was = current@;
            proof {
                let list = seq![word@] + rest;
                assert(list[0] == word@);
                assert(list.skip(1) =~= rest);
            }
            if current.len() > 0 {
                out.push(current);
                current = Vec::new();
                assert(views(out@) =~= before + pending_line(was));
            } else {
                assert(views(out@) =~= before + pending_line(was));
            }
            let ghost middle = views(out@);
            out.push(copy_of(word, columns));
            assert(views(out@) =~= middle.push(word@.take(columns as int)));
            let tail = slice_subrange(word, columns, word.len());
            assert(tail@ =~= word@.skip(columns as int));
            assert(current@ =~= Seq::<char>::empty());
            word = tail;
            assert(views(out@) + fill(seq![word@] + rest, current@, columns as int) =~= goal);
        }
        proof {
            let list = seq![word@] + rest;
            assert(list[0] == word@);
            assert(list.skip(1) =~= rest);
        }
        let ghost before = views(out@);
        if current.len() == 0 {
            current = copy_of(word, word.len());
            assert(current@ =~= word@);
        } else if word.len() > columns - 1 || current.len() > columns - 1 - word.len() {
            let ghost was = current@;
            out.push(current);
            current = copy_of(word, word.len());
            assert(current@ =~= word@);
            assert(views(out@) =~= before + seq![was]);
            assert(views(out@) + fill(rest, current@, columns as int) =~= goal);
        } else {
            let ghost was = current@;
            current.push(' ');
            let mut j: usize = 0;
            while j < word.len()
                invariant
                    j <= word@.len(),
                    current@ == was.push(' ') + word@.take(j as int),
                decreases word@.len() - j,
            {
                current.push(word[j]);
                j += 1;
            }
            assert(word@.take(j as int) =~= word@);
            assert(current@ =~= was + seq![' '] + word@);
        }
        k += 1;
    }
    assert(all.skip(k as int) =~= Seq::<Seq<char>>::empty());
    let ghost before = views(out@);
    if current.len() > 0 || out.len() == 0 {
        let ghost was = current@;
        out.push(current);
        assert(views(out@) =~= before.push(was));
        assert(goal =~= before + pending_line(was));
        proof {
            if was.len() == 0 {
                assert(was =~= Seq::<char>::empty());
                assert(goal.len() == 0);
            }
        }
    } else {
        assert(goal =~= before + pending_line(current@));
    }
    out
}

/// Every line a wrapped text is broken into fits the width it was wrapped to.
pub proof fn law_wrapped_lines_fit(line: Seq<char>, columns: int)
    requires
        columns > 0,
    ensures
        forall|i: int|
            0 <= i < wrapped_line(line, columns).len() ==> (#[trigger] wrapped_line(
                line,
                columns,
            )[i]).len() <= columns,
{
    lemma_fill_fits(words(line), Seq::empty(), columns);
}

proof fn lemma_fill_fits(ws: Seq<Seq<char>>, current: Seq<char>, columns: int)
    requires
        columns > 0,
        current.len() <= columns,
    ensures
        forall|i: int|
            0 <= i < fill(ws, current, columns).len() ==> (#[trigger] fill(
                ws,
                current,
                columns,
            )[i]).len() <= columns,
    decreases total_len(ws), ws.len(),
{
    let r = fill(ws, current, columns);
    if ws.len() > 0 {
        let rest = ws.skip(1);
        let pending = pending_line(current);
        if ws[0].len() > columns {
            let cut = seq![ws[0].skip(columns)] + rest;
            assert(cut.skip(1) =~= rest);
            lemma_fill_fits(cut, Seq::empty(), columns);
            let f = fill(cut, Seq::empty(), columns);
            assert(r =~= pending + seq![ws[0].take(columns)] + f);
            assert forall|i: int| 0 <= i < r.len() implies (#[trigger] r[i]).len() <= columns by {
                let n = pending.len() + 1;
                if i >= n {
                    assert(r[i] == f[i - n]);
                }
            }
        } else if current.len() == 0 {
            lemma_fill_fits(rest, ws[0], columns);
            assert(r == fill(rest, ws[0], columns));
        } else if current.len() + 1 + ws[0].len() > columns {
            lemma_fill_fits(rest, ws[0], columns);
            let f = fill(rest, ws[0], columns);
            assert(r =~= pending + f);
            assert forall|i: int| 0 <= i < r.len() implies (#[trigger] r[i]).len() <= columns by {
                if i >= 1 {
                    assert(r[i] == f[i - 1]);
                }
            }
        } else {
            lemma_fill_fits(rest, current + seq![' '] + ws[0], columns);
            assert(r == fill(rest, current + seq![' '] + ws[0], columns));
        }
    } else {
        assert(r == pending_line(current));
    }
}

/// A text without its spaces.
pub open spec fn without_spaces(s: Seq<char>) -> Seq<char>
    decreases s.len(),
{
    if s.len() == 0 {
        Seq::empty()
    } else if s[0] == ' ' {
        without_spaces(s.skip(1))
    } else {
        seq![s[0]] + without_spaces(s.skip(1))
    }
}

/// Texts one straight after another.
pub open spec fn concat(ws: Seq<Seq<char>>) -> Seq<char>
    decreases ws.len(),
{
    if ws.len() == 0 {
        Seq::empty()
    } else {
        ws[0] + concat(ws.skip(1))
    }
}

proof fn lemma_without_spaces_add(a: Seq<char>, b: Seq<char>)
    ensures
        without_spaces(a + b) == without_spaces(a) + without_spaces(b),
    decreases a.len(),
{
    if a.len() == 0 {
        assert(a + b =~= b);
        assert(without_spaces(a) + without_spaces(b) =~= without_spaces(b));
    } else {
        assert((a + b).skip(1) =~= a.skip(1) + b);
        lemma_without_spaces_add(a.skip(1), b);
        assert(without_spaces(a + b) =~= without_spaces(a) + without_spaces(b));
    }
}

proof fn lemma_concat_cons(w: Seq<char>, ws: Seq<Seq<char>>)
    ensures
        concat(seq![w] + ws) == w + concat(ws),
{
    assert((seq![w] + ws).skip(1) =~= ws);
}

proof fn lemma_concat_one(w: Seq<char>)
    ensures
        concat(seq![w]) == w,
{
    let none = Seq::<Seq<char>>::empty();
    assert(seq![w].skip(1) =~= none);
    assert(concat(none) =~= Seq::<char>::empty());
    assert(w + Seq::<char>::empty() =~= w);
}

proof fn lemma_fill_keeps(ws: Seq<Seq<char>>, current: Seq<char>, columns: int)
    requires
        columns > 0,
    ensures
        without_spaces(concat(fill(ws, current, columns))) == without_spaces(current + concat(ws)),
    decreases total_len(ws), ws.len(),
{
    let r = fill(ws, current, columns);
    let none = Seq::<char>::empty();
    if ws.len() == 0 {
        assert(current + concat(ws) =~= current);
        lemma_concat_one(current);
        assert(r == pending_line(current));
        if current.len() == 0 {
            assert(concat(r) =~= current);
        }
    } else {
        let w = ws[0];
        let rest = ws.skip(1);
        assert(ws =~= seq![w] + rest);
        lemma_concat_cons(w, rest);
        if w.len() > columns {
            let cut = seq![w.skip(columns)] + rest;
            assert(cut.skip(1) =~= rest);
            lemma_fill_keeps(cut, none, columns);
            lemma_concat_cons(w.skip(columns), rest);
            let f = fill(cut, none, columns);
            lemma_concat_cons(w.take(columns), f);
            assert(none + concat(cut) =~= concat(cut));
            assert(w.take(columns) + w.skip(columns) =~= w);
            lemma_without_spaces_add(w.take(columns), concat(f));
            lemma_without_spaces_add(w.take(columns), concat(cut));
            assert(w.take(columns) + concat(cut) =~= w + concat(rest));
            if current.len() > 0 {
                assert(r =~= seq![current] + (seq![w.take(columns)] + f));
                lemma_concat_cons(current, seq![w.take(columns)] + f);
                lemma_without_spaces_add(current, w.take(columns) + concat(f));
                lemma_without_spaces_add(current, w + concat(rest));
            } else {
                assert(r =~= seq![w.take(columns)] + f);
                assert(current + concat(ws) =~= concat(ws));
            }
        } else if current.len() == 0 {
            lemma_fill_keeps(rest, w, columns);
            assert(current + concat(ws) =~= w + concat(rest));
        } else if current.len() + 1 + w.len() > columns {
            lemma_fill_keeps(rest, w, columns);
            let f = fill(rest, w, columns);
            assert(r =~= seq![current] + f);
            lemma_concat_cons(current, f);
            lemma_without_spaces_add(current, concat(f));
            lemma_without_spaces_add(current, w + concat(rest));
        } else {
            let joined = current + seq![' '] + w;
            lemma_fill_keeps(rest, joined, columns);
            assert(joined + concat(rest) =~= current + (seq![' '] + (w + concat(rest))));
            lemma_without_spaces_add(current, seq![' '] + (w + concat(rest)));
            lemma_without_spaces_add(seq![' '], w + concat(rest));
            assert(without_spaces(seq![' ']) =~= none) by {
                assert(seq![' '].skip(1) =~= none);
                assert(without_spaces(none) =~= none);
            }
            assert(none + without_spaces(w + concat(rest)) =~= without_spaces(w + concat(rest)));
            lemma_without_spaces_add(current, w + concat(rest));
        }
    }
}

/// Wrapping loses nothing and invents nothing: the lines hold the words of the
/// text, in order, with nothing but spaces between them.
pub proof fn law_wrapping_keeps_the_words(line: Seq<char>, columns: int)
    requires
        columns > 0,
    ensures
        without_spaces(concat(wrapped_line(line, columns))) == without_spaces(concat(words(line))),
{
    let none = Seq::<char>::empty();
    lemma_fill_keeps(words(line), none, columns);
    assert(none + concat(words(line)) =~= concat(words(line)));
    let r = fill(words(line), none, columns);
    if r.len() == 0 {
        lemma_concat_one(none);
        assert(concat(r) =~= none);
    }
}

// ---- PDF ------------------------------------------------------------------

/// How one character is written inside a PDF literal. The standard fonts are
/// single-byte, so what a transcript picks up beyond ASCII — curly quotes,
/// dashes, an ellipsis — is written as the WinAnsi position that carries it, in
/// octal so the file stays seven-bit clean. Anything else becomes a question
/// mark, which is visibly a substitution rather than silently the wrong letter.
pub open spec fn pdf_char(c: char) -> Seq<char> {
    if c == '\\' {
        "\\\\"@
    } else if c == '(' {
        "\\("@
    } else if c == ')' {
        "\\)"@
    } else if ' ' <= c <= '~' {
        seq![c]
    } else if c == '\u{2018}' {
        "\\221"@
    } else if c == '\u{2019}' {
        "\\222"@
    } else if c == '\u{201C}' {
        "\\223"@
    } else if c == '\u{201D}' {
        "\\224"@
    } else if c == '\u{2013}' {
        "\\226"@
    } else if c == '\u{2014}' {
        "\\227"@
    } else if c == '\u{2026}' {
        "\\205"@
    } else if c == '\u{00A3}' {
        "\\243"@
    } else if c == '\u{00E9}' {
        "\\351"@
    } else {
        seq!['?']
    }
}

/// A text as it is written inside a PDF literal.
pub open spec fn pdf_text(s: Seq<char>) -> Seq<char>
    decreases s.len(),
{
    if s.len() == 0 {
        Seq::empty()
    } else {
        pdf_text(s.drop_last()) + pdf_char(s.last())
    }
}

/// Writes one character inside a PDF literal.
fn push_pdf_char(out: &mut String, c: char)
    ensures
        final(out)@ == old(out)@ + pdf_char(c),
{
    if c == '\\' {
        out.push_str("\\\\");
    } else if c == '(' {
        out.push_str("\\(");
    } else if c == ')' {
        out.push_str("\\)");
    } else if ' ' <= c && c <= '~' {
        out.push(c);
    } else if c == '\u{2018}' {
        out.push_str("\\221");
    } else if c == '\u{2019}' {
        out.push_str("\\222");
    } else if c == '\u{201C}' {
        out.push_str("\\223");
    } else if c == '\u{201D}' {
        out.push_str("\\224");
    } else if c == '\u{2013}' {
        out.push_str("\\226");
    } else if c == '\u{2014}' {
        out.push_str("\\227");
    } else if c == '\u{2026}' {
        out.push_str("\\205");
    } else if c == '\u{00A3}' {
        out.push_str("\\243");
    } else if c == '\u{00E9}' {
        out.push_str("\\351");
    } else {
        out.push('?');
    }
    assert(out@ =~= old(out)@ + pdf_char(c));
}

/// Escape a string for a PDF literal, and force it into WinAnsi.
pub fn escape_pdf_into(text: &str, out: &mut String)
    ensures
        final(out)@ == old(out)@ + pdf_text(text@),
{
    let cs = chars_of(text);
    escape_pdf_chars(cs.as_slice(), out);
}

fn escape_pdf_chars(cs: &[char], out: &mut String)
    ensures
        final(out)@ == old(out)@ + pdf_text(cs@),
{
    let mut i: usize = 0;
    let ghost start = out@;
    while i < cs.len()
        invariant
            i <= cs@.len(),
            out@ == start + pdf_text(cs@.take(i as int)),
        decreases cs@.len() - i,
    {
        assert(cs@.take(i + 1).drop_last() =~= cs@.take(i as int));
        push_pdf_char(out, cs[i]);
        assert(out@ =~= start + pdf_text(cs@.take(i + 1)));
        i += 1;
    }
    assert(cs@.take(i as int) =~= cs@);
}

/// Text inside a PDF literal is printable ASCII, so the file stays seven-bit
/// clean and cannot be mangled in transit.
pub proof fn law_pdf_text_is_seven_bit(s: Seq<char>)
    ensures
        forall|i: int| 0 <= i < pdf_text(s).len() ==> ' ' <= #[trigger] pdf_text(s)[i] <= '~',
    decreases s.len(),
{
    if s.len() > 0 {
        reveal_strlit("\\\\");
        reveal_strlit("\\(");
        reveal_strlit("\\)");
        reveal_strlit("\\221");
        reveal_strlit("\\222");
        reveal_strlit("\\223");
        reveal_strlit("\\224");
        reveal_strlit("\\226");
        reveal_strlit("\\227");
        reveal_strlit("\\205");
        reveal_strlit("\\243");
        reveal_strlit("\\351");
        law_pdf_text_is_seven_bit(s.drop_last());
        let n = pdf_text(s.drop_last()).len() as int;
        let e = pdf_char(s.last());
        assert(forall|i: int| 0 <= i < e.len() ==> ' ' <= #[trigger] e[i] <= '~');
        assert forall|i: int| 0 <= i < pdf_text(s).len() implies ' ' <= #[trigger] pdf_text(s)[i]
            <= '~' by {
            if i >= n {
                assert(pdf_text(s)[i] == e[i - n]);
            } else {
                assert(pdf_text(s)[i] == pdf_text(s.drop_last())[i]);
            }
        }
    }
}

/// The distance between two lines, in points: 1.35 times the size, rounded.
pub open spec fn leading(size: int) -> int {
    (size * 27 + 10) / 20
}

/// How many characters fit on a line. A4 leaves 495 points between the margins,
/// and every glyph in a Courier is exactly six tenths of an em. That is the
/// whole reason the PDF is set in Courier: wrapping text means knowing how wide
/// it is, and Courier is the only one of the standard fonts whose widths can be
/// known without shipping a metrics table for the face.
pub open spec fn columns_for(size: int) -> int {
    if size == 0 {
        usize::MAX as int
    } else if size > 825 {
        1
    } else {
        825int / size
    }
}

/// How many lines fit on a page, which is 722 points between the margins.
pub open spec fn rows_for(size: int) -> int {
    if leading(size) == 0 {
        usize::MAX as int
    } else if leading(size) > 722 {
        1
    } else {
        722int / leading(size)
    }
}

/// Every line of a text, wrapped.
pub open spec fn wrapped_lines(ls: Seq<Seq<char>>, columns: int) -> Seq<Seq<char>>
    decreases ls.len(),
{
    if ls.len() == 0 {
        Seq::empty()
    } else {
        wrapped_lines(ls.drop_last(), columns) + wrapped_line(ls.last(), columns)
    }
}

/// Lines dealt onto pages. A document with no lines still has its one page: one
/// with none would not be a valid file.
pub open spec fn paged(ls: Seq<Seq<char>>, rows: int) -> Seq<Seq<Seq<char>>>
    decreases ls.len(),
{
    if ls.len() <= rows || rows <= 0 {
        seq![ls]
    } else {
        seq![ls.take(rows)] + paged(ls.skip(rows), rows)
    }
}

/// The pages a text takes at a size.
pub open spec fn pdf_pages(body: Seq<char>, size: int) -> Seq<Seq<Seq<char>>> {
    paged(wrapped_lines(lines(body), columns_for(size)), rows_for(size))
}

/// The reference to the page with index `i`: objects come after the first
/// three, two to a page.
pub open spec fn kid(i: int) -> Seq<char> {
    decimal(4 + 2 * i) + " 0 R"@
}

/// The references to the first `n` pages.
pub open spec fn kids(n: int) -> Seq<char>
    decreases n,
{
    if n <= 0 {
        Seq::empty()
    } else if n == 1 {
        kid(0)
    } else {
        kids(n - 1) + seq![' '] + kid(n - 1)
    }
}

/// The lines of a page as drawing instructions.
pub open spec fn shown_lines(ls: Seq<Seq<char>>) -> Seq<char>
    decreases ls.len(),
{
    if ls.len() == 0 {
        Seq::empty()
    } else {
        shown_lines(ls.drop_last()) + (seq!['('] + pdf_text(ls.last()) + ") Tj\nT*\n"@)
    }
}

/// What is drawn on a page.
pub open spec fn page_stream(ls: Seq<Seq<char>>, size: int) -> Seq<char> {
    "BT\n/F1 "@ + decimal(size) + " Tf\n"@ + decimal(leading(size)) + " TL\n50 "@ + signed_decimal(
        782 - size,
    ) + " Td\n"@ + shown_lines(ls) + "ET"@
}

/// The object that describes the page with index `i`.
pub open spec fn page_object(i: int) -> Seq<u8> {
    encode_utf8(
        "<< /Type /Page /Parent 2 0 R /MediaBox [0 0 595 842] /Resources << /Font << /F1 3 0 R >> >> /Contents "@
            + decimal(5 + 2 * i) + " 0 R >>"@,
    )
}

/// The object that holds what is drawn on a page, with its length in bytes.
pub open spec fn content_object(ls: Seq<Seq<char>>, size: int) -> Seq<u8> {
    let stream = encode_utf8(page_stream(ls, size));
    encode_utf8("<< /Length "@ + decimal(stream.len() as int) + " >>\nstream\n"@) + stream
        + encode_utf8("\nendstream"@)
}

/// The two objects of each of the first `n` pages.
pub open spec fn page_objects(pages: Seq<Seq<Seq<char>>>, n: int, size: int) -> Seq<Seq<u8>>
    decreases n,
{
    if n <= 0 {
        Seq::empty()
    } else {
        page_objects(pages, n - 1, size).push(page_object(n - 1)).push(
            content_object(pages[n - 1], size),
        )
    }
}

/// The objects of the file: the catalog, the page tree, the font, and then a
/// page and a content stream for each page.
pub open spec fn pdf_objects(pages: Seq<Seq<Seq<char>>>, style: Style) -> Seq<Seq<u8>> {
    seq![
        encode_utf8("<< /Type /Catalog /Pages 2 0 R >>"@),
        encode_utf8(
            "<< /Type /Pages /Kids ["@ + kids(pages.len() as int) + "] /Count "@ + decimal(
                pages.len() as int,
            ) + " >>"@,
        ),
        encode_utf8(
            "<< /Type /Font /Subtype /Type1 /BaseFont /"@ + (if style.bold {
                "Courier-Bold"@
            } else {
                "Courier"@
            }) + " /Encoding /WinAnsiEncoding >>"@,
        ),
    ] + page_objects(pages, pages.len() as int, style.size as int)
}

/// The number that starts the object with index `i`.
pub open spec fn object_head(i: int) -> Seq<u8> {
    encode_utf8(decimal(i + 1) + " 0 obj\n"@)
}

/// The file up to the object with index `n`: the header, a comment of high
/// bytes that tells anything treating the file as text that it is binary, and
/// the objects before it.
pub open spec fn pdf_front(objects: Seq<Seq<u8>>, n: int) -> Seq<u8>
    decreases n,
{
    if n <= 0 {
        encode_utf8("%PDF-1.4\n"@) + seq![0x25u8, 0xE2, 0xE3, 0xCF, 0xD3, 0x0A]
    } else {
        pdf_front(objects, n - 1) + (object_head(n - 1) + objects[n - 1] + encode_utf8(
            "\nendobj\n"@,
        ))
    }
}

/// The entries of the cross-reference table for the first `n` objects: the byte
/// each one starts at.
pub open spec fn xref_entries(objects: Seq<Seq<u8>>, n: int) -> Seq<char>
    decreases n,
{
    if n <= 0 {
        Seq::empty()
    } else {
        xref_entries(objects, n - 1) + (padded(pdf_front(objects, n - 1).len() as int, 10)
            + " 00000 n \n"@)
    }
}

/// What follows the objects: the cross-reference table, and the trailer that
/// says where the table is.
pub open spec fn pdf_tail(objects: Seq<Seq<u8>>) -> Seq<char> {
    let n = objects.len() as int;
    "xref\n0 "@ + decimal(n + 1) + "\n0000000000 65535 f \n"@ + xref_entries(objects, n)
        + "trailer\n<< /Size "@ + decimal(n + 1) + " /Root 1 0 R >>\nstartxref\n"@ + decimal(
        pdf_front(objects, n).len() as int,
    ) + "\n%%EOF\n"@
}

/// A finished file.
pub open spec fn pdf_file(objects: Seq<Seq<u8>>) -> Seq<u8> {
    pdf_front(objects, objects.len() as int) + encode_utf8(pdf_tail(objects))
}

/// The views of a list of byte lists.
pub open spec fn byte_lists(v: Seq<Vec<u8>>) -> Seq<Seq<u8>> {
    v.map_values(|b: Vec<u8>| b@)
}

/// Lay the objects out and build the cross-reference table.
///
/// The xref offsets have to be the byte position of each object in the finished
/// file, so the body is built first and measured as it goes.
pub fn assemble_pdf(objects: &[Vec<u8>]) -> (r: Vec<u8>)
    ensures
        r@ == pdf_file(byte_lists(objects@)),
{
    let ghost all = byte_lists(objects@);
    let mut out: Vec<u8> = Vec::new();
    put_text(&mut out, "%PDF-1.4\n");
    assert(out@ =~= encode_utf8("%PDF-1.4\n"@));
    let comment: [u8; 6] = [0x25, 0xE2, 0xE3, 0xCF, 0xD3, 0x0A];
    put(&mut out, comment.as_slice());
    assert(comment@ =~= seq![0x25u8, 0xE2, 0xE3, 0xCF, 0xD3, 0x0A]);
    let mut table = String::new();
    let mut i: usize = 0;
    assert(table@ =~= xref_entries(all, 0));
    while i < objects.len()
        invariant
            i <= objects@.len(),
            all == byte_lists(objects@),
            out@ == pdf_front(all, i as int),
            table@ == xref_entries(all, i as int),
        decreases objects@.len() - i,
    {
        let mut entry = String::new();
        push_padded(&mut entry, out.len() as u64, 10);
        assert(entry@ =~= padded(pdf_front(all, i as int).len() as int, 10));
        entry.push_str(" 00000 n \n");
        table.push_str(entry.as_str());

        let mut head = String::new();
        push_wide(&mut head, i as u128 + 1);
        assert(head@ =~= decimal(i + 1));
        head.push_str(" 0 obj\n");
        let mut object: Vec<u8> = Vec::new();
        put_text(&mut object, head.as_str());
        assert(object@ =~= object_head(i as int));
        put(&mut object, objects[i].as_slice());
        put_text(&mut object, "\nendobj\n");
        put(&mut out, object.as_slice());
        assert(all[i as int] == objects@[i as int]@);
        i += 1;
    }
    let count: u128 = objects.len() as u128 + 1;
    let mut tail = "xref\n0 ".to_owned();
    push_wide(&mut tail, count);
    // Entry zero is the head of the free list and is always exactly this.
    tail.push_str("\n0000000000 65535 f \n");
    tail.push_str(table.as_str());
    tail.push_str("trailer\n<< /Size ");
    push_wide(&mut tail, count);
    tail.push_str(" /Root 1 0 R >>\nstartxref\n");
    push_decimal(&mut tail, out.len() as u64);
    tail.push_str("\n%%EOF\n");
    assert(tail@ == pdf_tail(all));
    put_text(&mut out, tail.as_str());
    out
}

/// Every offset in the cross-reference table is where its object stands in the
/// finished file, and `startxref` is where the table stands.
pub proof fn law_offsets_point_at_objects(objects: Seq<Seq<u8>>, i: int)
    requires
        0 <= i < objects.len(),
    ensures
        ({
            let at = pdf_front(objects, i).len() as int;
            let head = object_head(i);
            &&& at + head.len() + objects[i].len() <= pdf_file(objects).len()
            &&& pdf_file(objects).subrange(at, at + head.len()) == head
            &&& pdf_file(objects).subrange(at + head.len(), at + head.len() + objects[i].len())
                == objects[i]
        }),
        pdf_file(objects).skip(pdf_front(objects, objects.len() as int).len() as int)
            == encode_utf8(pdf_tail(objects)),
{
    let n = objects.len() as int;
    lemma_front_grows(objects, i + 1, n);
    let at = pdf_front(objects, i).len() as int;
    let head = object_head(i);
    let file = pdf_file(objects);
    let upto = pdf_front(objects, i + 1);
    let end = at + head.len() + objects[i].len();
    assert(upto.subrange(at, at + head.len()) =~= head);
    assert(upto.subrange(at + head.len(), end) =~= objects[i]);
    let front = pdf_front(objects, n);
    assert(file.subrange(at, at + head.len()) =~= upto.subrange(at, at + head.len())) by {
        assert(forall|k: int| 0 <= k < upto.len() ==> front[k] == #[trigger] upto[k]);
    }
    assert(file.subrange(at + head.len(), end) =~= upto.subrange(at + head.len(), end)) by {
        assert(forall|k: int| 0 <= k < upto.len() ==> front[k] == #[trigger] upto[k]);
    }
    assert(file.skip(front.len() as int) =~= encode_utf8(pdf_tail(objects)));
}

proof fn lemma_front_grows(objects: Seq<Seq<u8>>, i: int, n: int)
    requires
        0 <= i <= n <= objects.len(),
    ensures
        pdf_front(objects, i).len() <= pdf_front(objects, n).len(),
        forall|k: int|
            0 <= k < pdf_front(objects, i).len() ==> pdf_front(objects, n)[k]
                == #[trigger] pdf_front(objects, i)[k],
    decreases n - i,
{
    if i < n {
        lemma_front_grows(objects, i, n - 1);
    }
}

/// Every entry of the table is exactly as long as a reader expects, up to files
/// of ten thousand million bytes.
pub proof fn law_xref_entries_are_one_width(offset: int)
    requires
        0 <= offset < 10_000_000_000,
    ensures
        (padded(offset, 10) + " 00000 n \n"@).len() == 20,
{
    reveal_strlit(" 00000 n \n");
    reveal_with_fuel(pow10, 11);
    lemma_decimal_width(offset, 10, 10_000_000_000);
}

/// Ten to the power of `k`.
spec fn pow10(k: int) -> int
    decreases k,
{
    if k <= 0 {
        1
    } else {
        10 * pow10(k - 1)
    }
}

proof fn lemma_decimal_width(n: int, k: int, bound: int)
    requires
        0 <= n < bound,
        bound == pow10(k),
        1 <= k,
    ensures
        1 <= decimal(n).len() <= k,
    decreases k,
{
    reveal_with_fuel(pow10, 2);
    if n >= 10 {
        lemma_decimal_width(n / 10, k - 1, pow10(k - 1));
    }
}

/// Deals lines onto pages.
fn deal(ls: &Vec<Vec<char>>, rows: usize) -> (r: Vec<(usize, usize)>)
    requires
        rows > 0,
    ensures
        r@.len() == paged(views(ls@), rows as int).len(),
        forall|i: int|
            0 <= i < r@.len() ==> (#[trigger] r@[i]).0 <= r@[i].1 <= ls@.len() && paged(
                views(ls@),
                rows as int,
            )[i] == views(ls@).subrange(r@[i].0 as int, r@[i].1 as int),
{
    let ghost all = views(ls@);
    let ghost goal = paged(all, rows as int);
    let mut r: Vec<(usize, usize)> = Vec::new();
    let mut at: usize = 0;
    assert(all.skip(0) =~= all);
    while ls.len() - at > rows
        invariant
            rows > 0,
            at <= ls@.len(),
            all == views(ls@),
            r@.len() + paged(all.skip(at as int), rows as int).len() == goal.len(),
            forall|i: int|
                0 <= i < r@.len() ==> (#[trigger] r@[i]).0 <= r@[i].1 <= ls@.len() && goal[i]
                    == all.subrange(r@[i].0 as int, r@[i].1 as int),
            forall|i: int|
                r@.len() <= i < goal.len() ==> #[trigger] goal[i] == paged(
                    all.skip(at as int),
                    rows as int,
                )[i - r@.len()],
        decreases ls@.len() - at,
    {
        let ghost rest = all.skip(at as int);
        let ghost tail = paged(rest.skip(rows as int), rows as int);
        let ghost k = r@.len();
        assert(paged(rest, rows as int) =~= seq![rest.take(rows as int)] + tail);
        assert(goal[k as int] == rest.take(rows as int));
        assert(rest.take(rows as int) =~= all.subrange(at as int, at + rows));
        assert(rest.skip(rows as int) =~= all.skip(at + rows));
        r.push((at, at + rows));
        at = at + rows;
    }
    let ghost rest = all.skip(at as int);
    assert(paged(rest, rows as int) =~= seq![rest]);
    assert(goal[r@.len() as int] == rest);
    assert(rest =~= all.subrange(at as int, all.len() as int));
    r.push((at, ls.len()));
    r
}

/// Writes what is drawn on a page.
fn write_stream(ls: &Vec<Vec<char>>, from: usize, to: usize, size: u32) -> (r: String)
    requires
        from <= to <= ls@.len(),
    ensures
        r@ == page_stream(views(ls@).subrange(from as int, to as int), size as int),
{
    let ghost all = views(ls@).subrange(from as int, to as int);
    let spacing: u64 = (size as u64 * 27 + 10) / 20;
    let mut shown = String::new();
    let mut i: usize = from;
    assert(shown@ =~= shown_lines(all.take(0)));
    while i < to
        invariant
            from <= i <= to <= ls@.len(),
            all == views(ls@).subrange(from as int, to as int),
            shown@ == shown_lines(all.take(i - from)),
        decreases to - i,
    {
        let mut line = String::new();
        line.push('(');
        assert(line@ =~= seq!['(']);
        escape_pdf_chars(ls[i].as_slice(), &mut line);
        line.push_str(") Tj\nT*\n");
        shown.push_str(line.as_str());
        proof {
            let upto = all.take(i - from + 1);
            assert(upto.drop_last() =~= all.take(i - from));
            assert(upto.last() == ls@[i as int]@);
        }
        i += 1;
    }
    assert(all.take(i - from) =~= all);
    let mut stream = "BT\n/F1 ".to_owned();
    push_decimal(&mut stream, size as u64);
    stream.push_str(" Tf\n");
    push_decimal(&mut stream, spacing);
    stream.push_str(" TL\n50 ");
    push_signed(&mut stream, 782 - size as i64);
    stream.push_str(" Td\n");
    stream.push_str(shown.as_str());
    stream.push_str("ET");
    stream
}

/// Writes the page tree.
fn write_tree(count: usize) -> (r: String)
    requires
        count > 0,
    ensures
        r@ == "<< /Type /Pages /Kids ["@ + kids(count as int) + "] /Count "@ + decimal(
            count as int,
        ) + " >>"@,
{
    let mut list = String::new();
    let mut i: usize = 0;
    assert(list@ =~= kids(0));
    while i < count
        invariant
            i <= count,
            list@ == kids(i as int),
        decreases count - i,
    {
        let ghost before = list@;
        if i > 0 {
            list.push(' ');
        }
        let mut one = String::new();
        push_wide(&mut one, 4 + 2 * (i as u128));
        assert(one@ =~= decimal(4 + 2 * i));
        one.push_str(" 0 R");
        list.push_str(one.as_str());
        proof {
            if i == 0 {
                assert(list@ =~= kid(0));
            } else {
                assert(list@ =~= before + seq![' '] + kid(i as int));
            }
        }
        i += 1;
    }
    let mut s = "<< /Type /Pages /Kids [".to_owned();
    s.push_str(list.as_str());
    s.push_str("] /Count ");
    push_decimal(&mut s, count as u64);
    s.push_str(" >>");
    s
}

/// The bytes of a text.
fn bytes_of(text: &str) -> (r: Vec<u8>)
    ensures
        r@ == encode_utf8(text@),
{
    let mut r: Vec<u8> = Vec::new();
    put_text(&mut r, text);
    assert(r@ =~= encode_utf8(text@));
    r
}

/// Wraps every line of a text.
fn wrap_body(body: &str, columns: usize) -> (r: Vec<Vec<char>>)
    requires
        columns > 0,
    ensures
        views(r@) == wrapped_lines(lines(body@), columns as int),
{
    let cs = chars_of(body);
    let ls = split_lines(cs.as_slice());
    let ghost all = views(ls@);
    let mut r: Vec<Vec<char>> = Vec::new();
    let mut i: usize = 0;
    assert(views(r@) =~= wrapped_lines(all.take(0), columns as int));
    while i < ls.len()
        invariant
            columns > 0,
            i <= ls@.len(),
            all == views(ls@),
            views(r@) == wrapped_lines(all.take(i as int), columns as int),
        decreases ls@.len() - i,
    {
        let mut rows = wrap_chars(ls[i].as_slice(), columns);
        let ghost before = r@;
        let ghost added = rows@;
        r.append(&mut rows);
        proof {
            let upto = all.take(i + 1);
            assert(upto.drop_last() =~= all.take(i as int));
            assert(upto.last() == ls@[i as int]@);
            assert(views(r@) =~= views(before) + views(added));
        }
        i += 1;
    }
    assert(all.take(i as int) =~= all);
    r
}

/// The PDF of a text.
pub open spec fn pdf_bytes(body: Seq<char>, style: Style) -> Seq<u8> {
    pdf_file(pdf_objects(pdf_pages(body, style.size as int), style))
}

/// Sets a text as a PDF.
pub fn pdf(body: &str, style: Style) -> (r: Vec<u8>)
    ensures
        r@ == pdf_bytes(body@, style),
{
    let size = style.size;
    let spacing: u64 = (size as u64 * 27 + 10) / 20;
    let columns: usize = if size == 0 {
        usize::MAX
    } else if size > 825 {
        1
    } else {
        (825 / size) as usize
    };
    let rows: usize = if spacing == 0 {
        usize::MAX
    } else if spacing > 722 {
        1
    } else {
        (722 / spacing) as usize
    };
    proof {
        assert(columns > 0) by {
            if 0 < size <= 825 {
                assert(825int / size as int >= 1) by (nonlinear_arith)
                    requires
                        0 < size <= 825,
                ;
            }
        }
        assert(rows > 0) by {
            if 0 < spacing <= 722 {
                assert(722int / spacing as int >= 1) by (nonlinear_arith)
                    requires
                        0 < spacing <= 722,
                ;
            }
        }
    }

    let wrapped = wrap_body(body, columns);
    let pages = deal(&wrapped, rows);
    let ghost goal = pdf_pages(body@, size as int);
    proof {
        assert(views(wrapped@) == wrapped_lines(lines(body@), columns_for(size as int)));
        assert(goal == paged(views(wrapped@), rows as int));
        assert(goal.len() > 0);
    }

    // Object 1 catalog, 2 page tree, 3 font, then a page and a content stream
    // for each page.
    let mut objects: Vec<Vec<u8>> = Vec::new();
    objects.push(bytes_of("<< /Type /Catalog /Pages 2 0 R >>"));
    let tree = write_tree(pages.len());
    objects.push(bytes_of(tree.as_str()));
    let mut font = "<< /Type /Font /Subtype /Type1 /BaseFont /".to_owned();
    font.push_str(
        if style.bold {
            "Courier-Bold"
        } else {
            "Courier"
        },
    );
    font.push_str(" /Encoding /WinAnsiEncoding >>");
    objects.push(bytes_of(font.as_str()));
    let ghost base = byte_lists(objects@);
    let mut i: usize = 0;
    assert(byte_lists(objects@) =~= base + page_objects(goal, 0, size as int));
    while i < pages.len()
        invariant
            i <= pages@.len() == goal.len(),
            size == style.size,
            forall|k: int|
                0 <= k < pages@.len() ==> (#[trigger] pages@[k]).0 <= pages@[k].1 <= wrapped@.len()
                    && goal[k] == views(wrapped@).subrange(pages@[k].0 as int, pages@[k].1 as int),
            byte_lists(objects@) == base + page_objects(goal, i as int, size as int),
        decreases pages@.len() - i,
    {
        let ghost before = byte_lists(objects@);
        let mut page =
            "<< /Type /Page /Parent 2 0 R /MediaBox [0 0 595 842] /Resources << /Font << /F1 3 0 R >> >> /Contents ".to_owned();
        push_wide(&mut page, 5 + 2 * (i as u128));
        page.push_str(" 0 R >>");
        objects.push(bytes_of(page.as_str()));

        let (from, to) = pages[i];
        let stream = write_stream(&wrapped, from, to, size);
        let mut head = "<< /Length ".to_owned();
        push_decimal(&mut head, stream.as_str().as_bytes().len() as u64);
        head.push_str(" >>\nstream\n");
        let mut object = bytes_of(head.as_str());
        put_text(&mut object, stream.as_str());
        put_text(&mut object, "\nendstream");
        let ghost content = object@;
        objects.push(object);
        proof {
            assert(content == content_object(goal[i as int], size as int));
            assert(byte_lists(objects@) =~= before.push(page_object(i as int)).push(content));
            assert(byte_lists(objects@) =~= base + page_objects(goal, i + 1, size as int));
        }
        i += 1;
    }
    assert(byte_lists(objects@) =~= pdf_objects(goal, style)) by {
        assert(base =~= pdf_objects(goal, style).take(3));
    }
    assemble_pdf(objects.as_slice())
}

/// The bytes of a transcript's file in the chosen format.
pub open spec fn file_bytes(format: Format, style: Style, body: Seq<char>) -> Seq<u8> {
    match format {
        Format::Text => encode_utf8(body),
        Format::Docx => zip_bytes(docx_parts(body, style)),
        Format::Pdf => pdf_bytes(body, style),
    }
}

/// Sets `body` in the chosen format: the bytes of the file to write.
pub fn render(format: Format, style: Style, body: &str) -> (r: Vec<u8>)
    ensures
        r@ == file_bytes(format, style, body@),
{
    match format {
        Format::Text => bytes_of(body),
        Format::Docx => docx(body, style),
        Format::Pdf => pdf(body, style),
    }
}

} // verus!
