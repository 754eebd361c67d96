//! Writing what the feed says about an episode into the file itself.
//!
//! Episodes are named after the minute they were published, which sorts and
//! stays unique but tells a reader nothing. The tags are where the episode's
//! identity lives instead: the show, the title, the date and the blurb, in the
//! frames every podcast player and music library already reads.
//!
//! Only the containers that actually carry ID3 are written to. An `.m4a` or an
//! `.ogg` keeps its metadata somewhere else entirely, and prepending an ID3
//! header to one would corrupt it rather than describe it.
//!
//! Which container a file is, is decided by reading the front of it. The
//! extension can't be trusted for this: it is a guess made from the enclosure
//! URL and the MIME type, and [`crate::util::extension_for`] falls back to
//! `mp3` whenever the feed says nothing useful — so a `.mp3` here is quite
//! often an M4A from a tracking URL that declared no type at all.

use crate::feed::optional_text;
use crate::text::padded;
use crate::text::push_padded;
use crate::util::signed_padded;
use crate::util::Published;
use vstd::prelude::*;

verus! {

/// Everything worth saying about an episode, gathered from the feed and the
/// subscription it came from.
#[derive(Debug, Clone)]
pub struct Details {
    /// The podcast, as the OPML file names it — the same string the folder is
    /// named after.
    pub show: String,
    pub title: String,
    pub published: Option<Published>,
    pub description: Option<String>,
    pub feed_url: String,
}

/// What became of an episode's tags.
#[derive(Debug, Clone, Copy, PartialEq, Eq, Structural)]
pub enum Tagged {
    /// The tags are in the file.
    Written,
    /// The file isn't one that carries ID3, and was left exactly as it landed.
    Unsupported,
}

/// Enough bytes to tell the containers apart: the longest test looks at the
/// four at offset 8.
pub const MAGIC: usize = 12;

/// Whether four bytes stand at a place.
pub open spec fn four_at(head: Seq<u8>, at: int, a: u8, b: u8, c: u8, d: u8) -> bool {
    head.len() >= at + 4 && head[at] == a && head[at + 1] == b && head[at + 2] == c && head[at + 3]
        == d
}

/// Whether the bytes at the front of a file are a container that takes an ID3
/// tag: an MP3, which opens with a tag or with an MPEG frame sync — eleven set
/// bits, the same in every version and layer of MPEG audio — or an AIFF or a
/// WAV, which carry a tag in a chunk of their own.
pub open spec fn taggable(head: Seq<u8>) -> bool {
    ||| head.len() >= 3 && head[0] == 0x49 && head[1] == 0x44 && head[2] == 0x33
    ||| head.len() >= 2 && head[0] == 0xFF && head[1] >= 0xE0
    ||| four_at(head, 0, 0x46, 0x4F, 0x52, 0x4D) && (four_at(head, 8, 0x41, 0x49, 0x46, 0x46)
        || four_at(head, 8, 0x41, 0x49, 0x46, 0x43))
    ||| four_at(head, 0, 0x52, 0x49, 0x46, 0x46) && four_at(head, 8, 0x57, 0x41, 0x56, 0x45)
}

/// Whether four bytes stand at a place.
fn is_four_at(head: &[u8], at: usize, a: u8, b: u8, c: u8, d: u8) -> (r: bool)
    requires
        at <= 8,
    ensures
        r == four_at(head@, at as int, a, b, c, d),
{
    head.len() >= at + 4 && head[at] == a && head[at + 1] == b && head[at + 2] == c && head[at + 3]
        == d
}

/// Whether the bytes at the front of a file are a container that takes an ID3
/// tag — MP3, which carries one at the front of the stream, or AIFF and WAV,
/// which carry one in a chunk of their own.
///
/// Anything else is left alone. The tag writer works the layout out from these
/// same bytes and treats what it doesn't recognise as a bare stream, so handing
/// it an M4A would move the `ftyp` box off the front of the file and leave
/// something no player will open.
pub fn takes_tags(head: &[u8]) -> (r: bool)
    ensures
        r == taggable(head@),
{
    let id3 = head.len() >= 3 && head[0] == 0x49 && head[1] == 0x44 && head[2] == 0x33;
    let mpeg_sync = head.len() >= 2 && head[0] == 0xFF && head[1] & 0xE0 == 0xE0;
    proof {
        if head@.len() >= 2 {
            let b = head@[1];
            assert((b & 0xE0 == 0xE0) == (b >= 0xE0)) by (bit_vector);
        }
    }
    id3 || mpeg_sync || (is_four_at(head, 0, 0x46, 0x4F, 0x52, 0x4D) && (is_four_at(
        head,
        8,
        0x41,
        0x49,
        0x46,
        0x46,
    ) || is_four_at(head, 8, 0x41, 0x49, 0x46, 0x43))) || (is_four_at(
        head,
        0,
        0x52,
        0x49,
        0x46,
        0x46,
    ) && is_four_at(head, 8, 0x57, 0x41, 0x56, 0x45))
}

/// No more than the first twelve bytes of a file say whether it takes tags.
pub proof fn law_the_front_is_enough(file: Seq<u8>)
    ensures
        taggable(file) == taggable(if file.len() > MAGIC { file.take(MAGIC as int) } else { file }),
{
}

/// The tag of a file, as the ID3 crate holds it.
#[verifier::external_type_specification]
#[verifier::external_body]
pub struct ExTag(id3::Tag);

/// One frame of a tag. Frames of the kinds that are never written here — cover
/// art, chapters, whatever a publisher put in — are told apart by a number.
pub enum TagFrame {
    Text { id: Seq<char>, text: Seq<char> },
    Link { id: Seq<char>, url: Seq<char> },
    Comment { lang: Seq<char>, description: Seq<char>, text: Seq<char> },
    Other { id: Seq<char>, number: int },
}

impl TagFrame {
    /// The four letters that say what a frame is for.
    pub open spec fn id(self) -> Seq<char> {
        match self {
            TagFrame::Text { id, .. } => id,
            TagFrame::Link { id, .. } => id,
            TagFrame::Comment { .. } => "COMM"@,
            TagFrame::Other { id, .. } => id,
        }
    }

    /// Whether a tag has room for only one of the two: text and link frames are
    /// told apart by their letters alone, comments by their language and
    /// description.
    pub open spec fn conflicts(self, other: TagFrame) -> bool {
        match (self, other) {
            (TagFrame::Text { id: a, .. }, TagFrame::Text { id: b, .. }) => a == b,
            (TagFrame::Link { id: a, .. }, TagFrame::Link { id: b, .. }) => a == b,
            (
                TagFrame::Comment { lang: a, description: x, .. },
                TagFrame::Comment { lang: b, description: y, .. },
            ) => a == b && x == y,
            _ => false,
        }
    }

    /// Whether two frames are of the same kind.
    pub open spec fn same_kind(self, other: TagFrame) -> bool {
        match (self, other) {
            (TagFrame::Text { .. }, TagFrame::Text { .. }) => true,
            (TagFrame::Link { .. }, TagFrame::Link { .. }) => true,
            (TagFrame::Comment { .. }, TagFrame::Comment { .. }) => true,
            _ => false,
        }
    }
}

/// The frames of a tag, in the order they stand.
pub uninterp spec fn tag_frames(tag: id3::Tag) -> Seq<TagFrame>;

/// The first frame that a new one would replace, or the number of frames when
/// there is none.
pub open spec fn first_conflict(frames: Seq<TagFrame>, f: TagFrame) -> int
    decreases frames.len(),
{
    if frames.len() == 0 || frames[0].conflicts(f) {
        0
    } else {
        1 + first_conflict(frames.skip(1), f)
    }
}

/// Frames with a new one put at the end, in place of the one it conflicts with.
pub open spec fn with_frame(frames: Seq<TagFrame>, f: TagFrame) -> Seq<TagFrame> {
    let k = first_conflict(frames, f);
    if k < frames.len() {
        frames.remove(k).push(f)
    } else {
        frames.push(f)
    }
}

/// The frames with other letters than these.
pub open spec fn without_id(frames: Seq<TagFrame>, id: Seq<char>) -> Seq<TagFrame>
    decreases frames.len(),
{
    if frames.len() == 0 {
        Seq::empty()
    } else if frames.last().id() == id {
        without_id(frames.drop_last(), id)
    } else {
        without_id(frames.drop_last(), id).push(frames.last())
    }
}

/// Whether every frame with the letters of `f` is of its kind, which is how tags
/// are read from files.
pub open spec fn regular_for(frames: Seq<TagFrame>, f: TagFrame) -> bool {
    forall|i: int|
        0 <= i < frames.len() && (#[trigger] frames[i]).id() == f.id() ==> frames[i].same_kind(f)
}

/// What adding a frame does: it stands at the end, frames with other letters
/// stay as they were, and among frames of its own kind it takes the place of
/// the first one it conflicts with.
pub open spec fn added(before: Seq<TagFrame>, after: Seq<TagFrame>, f: TagFrame) -> bool {
    &&& after.len() > 0 && after.last() == f
    &&& without_id(after, f.id()) == without_id(before, f.id())
    &&& regular_for(before, f) ==> after == with_frame(before, f)
}

/// Whether these are four letters or digits.
pub open spec fn frame_letters(id: Seq<char>) -> bool {
    id.len() == 4 && forall|i: int|
        0 <= i < 4 ==> 'A' <= #[trigger] id[i] <= 'Z' || '0' <= id[i] <= '9'
}

/// Adds a text frame with `id3::TagLike::set_text`. Claims that the new frame
/// stands at the end, that at most a frame with the same letters gives way to
/// it, and that where all of those are text frames it is the first. The crate
/// panics on letters that are not three or four bytes long, so four are asked
/// for.
#[verifier::external_body]
fn set_text(tag: &mut id3::Tag, id: &str, text: &str)
    requires
        frame_letters(id@),
    ensures
        added(
            tag_frames(*old(tag)),
            tag_frames(*final(tag)),
            TagFrame::Text { id: id@, text: text@ },
        ),
{
    id3::TagLike::set_text(tag, id, text);
}

/// Adds a comment with `id3::TagLike::add_frame` and `id3::frame::Comment`.
/// Claims the same of it as [`set_text`] does of a text frame, a comment giving
/// way to one with its language and description.
#[verifier::external_body]
fn add_comment(tag: &mut id3::Tag, lang: &str, description: &str, text: &str)
    ensures
        added(
            tag_frames(*old(tag)),
            tag_frames(*final(tag)),
            TagFrame::Comment { lang: lang@, description: description@, text: text@ },
        ),
{
    id3::TagLike::add_frame(
        tag,
        id3::frame::Comment {
            lang: lang.to_string(),
            description: description.to_string(),
            text: text.to_string(),
        },
    );
}

/// Adds a link with `id3::TagLike::add_frame` and `id3::Frame::link`. Claims the
/// same of it as [`set_text`] does of a text frame. Links with the letters
/// `WCOM` and `WOAR` are compared by what they point at and are left out.
#[verifier::external_body]
fn add_link(tag: &mut id3::Tag, id: &str, url: &str)
    requires
        frame_letters(id@),
        id@ != "WCOM"@,
        id@ != "WOAR"@,
    ensures
        added(
            tag_frames(*old(tag)),
            tag_frames(*final(tag)),
            TagFrame::Link { id: id@, url: url@ },
        ),
{
    id3::TagLike::add_frame(tag, id3::Frame::link(id, url));
}

/// The moment of publication as a tag writes it: `yyyy-MM-ddTHH:mm`. A tag has
/// one byte for each part but the year.
pub open spec fn recorded_text(p: Published) -> Seq<char> {
    signed_padded(p.year as int, 4) + seq!['-'] + padded(p.month as int % 256, 2) + seq!['-']
        + padded(p.day as int % 256, 2) + seq!['T'] + padded(p.hour as int % 256, 2) + seq![':']
        + padded(p.minute as int % 256, 2)
}

/// Writes a year in at least four characters.
fn push_year(s: &mut String, year: i32)
    ensures
        final(s)@ == old(s)@ + signed_padded(year as int, 4),
{
    let ghost before = s@;
    if year < 0 {
        s.push('-');
        push_padded(s, (-(year as i64)) as u64, 3);
    } else {
        push_padded(s, year as u64, 4);
    }
    assert(s@ =~= before + signed_padded(year as int, 4));
}

/// Writes the moment of publication.
fn recorded(p: Published) -> (r: String)
    ensures
        r@ == recorded_text(p),
{
    let mut s = String::new();
    push_year(&mut s, p.year);
    s.push('-');
    push_padded(&mut s, (p.month % 256) as u64, 2);
    s.push('-');
    push_padded(&mut s, (p.day % 256) as u64, 2);
    s.push('T');
    push_padded(&mut s, (p.hour % 256) as u64, 2);
    s.push(':');
    push_padded(&mut s, (p.minute % 256) as u64, 2);
    assert(s@ =~= recorded_text(p));
    s
}

/// The frames an episode is described by, in the order they are written.
pub open spec fn described(
    show: Seq<char>,
    title: Seq<char>,
    published: Option<Published>,
    description: Option<Seq<char>>,
    feed_url: Seq<char>,
) -> Seq<TagFrame> {
    let who = seq![
        TagFrame::Text { id: "TIT2"@, text: title },
        TagFrame::Text { id: "TPE1"@, text: show },
        TagFrame::Text { id: "TPE2"@, text: show },
        TagFrame::Text { id: "TALB"@, text: show },
        TagFrame::Text { id: "TCON"@, text: "Podcast"@ },
    ];
    let when = match published {
        Some(p) => seq![
            TagFrame::Text { id: "TYER"@, text: signed_padded(p.year as int, 4) },
            TagFrame::Text { id: "TDRC"@, text: recorded_text(p) },
        ],
        None => Seq::empty(),
    };
    let what = match description {
        Some(d) if d.len() > 0 => seq![
            TagFrame::Comment { lang: "eng"@, description: Seq::empty(), text: d },
            TagFrame::Text { id: "TDES"@, text: d },
        ],
        _ => Seq::empty(),
    };
    who + when + what + seq![TagFrame::Link { id: "WFED"@, url: feed_url }]
}

/// What an episode is described by.
pub open spec fn description_of(d: Details) -> Seq<TagFrame> {
    described(d.show@, d.title@, d.published, optional_text(d.description), d.feed_url@)
}

/// Frames after others were added one by one.
pub open spec fn with_frames(frames: Seq<TagFrame>, new: Seq<TagFrame>) -> Seq<TagFrame>
    decreases new.len(),
{
    if new.len() == 0 {
        frames
    } else {
        with_frame(with_frames(frames, new.drop_last()), new.last())
    }
}

/// The frames whose letters none of the new ones has.
pub open spec fn kept(frames: Seq<TagFrame>, new: Seq<TagFrame>) -> Seq<TagFrame>
    decreases new.len(),
{
    if new.len() == 0 {
        frames
    } else {
        without_id(kept(frames, new.drop_last()), new.last().id())
    }
}

/// Whether every frame of a tag that shares its letters with a new one is of
/// that one's kind, which is how tags are read from files.
pub open spec fn regular(frames: Seq<TagFrame>, new: Seq<TagFrame>) -> bool {
    forall|j: int| 0 <= j < new.len() ==> regular_for(frames, #[trigger] new[j])
}

proof fn lemma_without_push(frames: Seq<TagFrame>, f: TagFrame, id: Seq<char>)
    ensures
        without_id(frames.push(f), id) == if f.id() == id {
            without_id(frames, id)
        } else {
            without_id(frames, id).push(f)
        },
{
    assert(frames.push(f).drop_last() =~= frames);
}

proof fn lemma_without_twice(frames: Seq<TagFrame>, a: Seq<char>, b: Seq<char>)
    ensures
        without_id(without_id(frames, a), b) == without_id(without_id(frames, b), a),
    decreases frames.len(),
{
    if frames.len() > 0 {
        let front = frames.drop_last();
        let f = frames.last();
        lemma_without_twice(front, a, b);
        if f.id() != a {
            lemma_without_push(without_id(front, a), f, b);
        }
        if f.id() != b {
            lemma_without_push(without_id(front, b), f, a);
        }
    }
}

proof fn lemma_without_again(frames: Seq<TagFrame>, id: Seq<char>)
    ensures
        without_id(without_id(frames, id), id) == without_id(frames, id),
    decreases frames.len(),
{
    if frames.len() > 0 {
        lemma_without_again(frames.drop_last(), id);
        if frames.last().id() != id {
            lemma_without_push(without_id(frames.drop_last(), id), frames.last(), id);
        }
    }
}

/// Taking out the letters of the new frames and then one more comes to the same
/// as taking out that one first.
proof fn lemma_kept_without(frames: Seq<TagFrame>, new: Seq<TagFrame>, id: Seq<char>)
    ensures
        without_id(kept(frames, new), id) == kept(without_id(frames, id), new),
    decreases new.len(),
{
    if new.len() > 0 {
        let front = new.drop_last();
        lemma_kept_without(frames, front, id);
        lemma_without_twice(kept(frames, front), new.last().id(), id);
    }
}

/// One more frame added changes nothing of what is kept.
proof fn lemma_kept_step(
    start: Seq<TagFrame>,
    before: Seq<TagFrame>,
    after: Seq<TagFrame>,
    new: Seq<TagFrame>,
    f: TagFrame,
)
    requires
        kept(before, new) == kept(start, new),
        without_id(after, f.id()) == without_id(before, f.id()),
    ensures
        kept(after, new.push(f)) == kept(start, new.push(f)),
{
    assert(new.push(f).drop_last() =~= new);
    lemma_kept_without(after, new, f.id());
    lemma_kept_without(before, new, f.id());
}

proof fn lemma_first_conflict(frames: Seq<TagFrame>, f: TagFrame)
    ensures
        0 <= first_conflict(frames, f) <= frames.len(),
    decreases frames.len(),
{
    if frames.len() > 0 {
        lemma_first_conflict(frames.skip(1), f);
    }
}

/// Adding a regular frame leaves a tag regular for another.
proof fn lemma_regular_step(before: Seq<TagFrame>, f: TagFrame, g: TagFrame)
    requires
        regular_for(before, g),
        f.id() == g.id() ==> f.same_kind(g),
    ensures
        regular_for(with_frame(before, f), g),
{
    lemma_first_conflict(before, f);
    let k = first_conflict(before, f);
    let after = with_frame(before, f);
    assert forall|i: int| 0 <= i < after.len() && (#[trigger] after[i]).id() == g.id() implies
        after[i].same_kind(g) by {
        if i < after.len() - 1 {
            if k < before.len() {
                let j = if i < k { i } else { i + 1 };
                assert(after[i] == before[j]);
            } else {
                assert(after[i] == before[i]);
            }
        }
    }
}

/// What has been added so far: the first `n` of the frames in `all`, one after
/// another.
spec fn progress(start: Seq<TagFrame>, now: Seq<TagFrame>, all: Seq<TagFrame>, n: int) -> bool {
    &&& 0 <= n <= all.len()
    &&& kept(now, all.take(n)) == kept(start, all.take(n))
    &&& regular(start, all) ==> now == with_frames(start, all.take(n)) && regular(now, all)
    &&& forall|j: int| 0 <= j < n ==> now.contains(#[trigger] all[j])
}

/// No two frames share their letters.
spec fn apart(all: Seq<TagFrame>) -> bool {
    forall|i: int, j: int|
        0 <= i < all.len() && 0 <= j < all.len() && (#[trigger] all[i]).id() == (
        #[trigger] all[j]).id() ==> i == j
}

proof fn lemma_progress(
    start: Seq<TagFrame>,
    before: Seq<TagFrame>,
    after: Seq<TagFrame>,
    all: Seq<TagFrame>,
    n: int,
)
    requires
        progress(start, before, all, n),
        n < all.len(),
        added(before, after, all[n]),
        all[n].same_kind(all[n]),
        apart(all),
    ensures
        progress(start, after, all, n + 1),
{
    let f = all[n];
    lemma_kept_step(start, before, after, all.take(n), f);
    assert(all.take(n + 1) =~= all.take(n).push(f));
    assert(all.take(n + 1).drop_last() =~= all.take(n));
    if regular(start, all) {
        assert(regular_for(before, all[n]));
        assert(after == with_frame(before, f));
        assert forall|j: int| 0 <= j < all.len() implies regular_for(after, #[trigger] all[j]) by {
            assert(regular_for(before, all[j]));
            lemma_regular_step(before, f, all[j]);
        }
    }
    assert forall|j: int| 0 <= j < n + 1 implies after.contains(#[trigger] all[j]) by {
        if j < n {
            assert(before.contains(all[j]));
            assert(all[j].id() != f.id());
            lemma_without_keeps(before, f.id(), all[j]);
            lemma_without_holds(after, f.id(), all[j]);
        } else {
            assert(after[after.len() - 1] == f);
        }
    }
}

proof fn lemma_without_holds(frames: Seq<TagFrame>, id: Seq<char>, f: TagFrame)
    requires
        without_id(frames, id).contains(f),
    ensures
        frames.contains(f),
    decreases frames.len(),
{
    if frames.len() > 0 {
        let front = frames.drop_last();
        let r = without_id(frames, id);
        let inner = without_id(front, id);
        let k = choose|k: int| 0 <= k < r.len() && r[k] == f;
        if k < inner.len() {
            assert(inner[k] == f);
            lemma_without_holds(front, id, f);
            let m = choose|m: int| 0 <= m < front.len() && front[m] == f;
            assert(frames[m] == f);
        } else {
            assert(frames[frames.len() - 1] == f);
        }
    }
}

proof fn lemma_ids()
    ensures
        "TIT2"@.len() == 4,
        "TIT2"@[0] == 'T' && "TIT2"@[1] == 'I' && "TIT2"@[2] == 'T' && "TIT2"@[3] == '2',
        "TPE1"@.len() == 4,
        "TPE1"@[0] == 'T' && "TPE1"@[1] == 'P' && "TPE1"@[2] == 'E' && "TPE1"@[3] == '1',
        "TPE2"@.len() == 4,
        "TPE2"@[0] == 'T' && "TPE2"@[1] == 'P' && "TPE2"@[2] == 'E' && "TPE2"@[3] == '2',
        "TALB"@.len() == 4,
        "TALB"@[0] == 'T' && "TALB"@[1] == 'A' && "TALB"@[2] == 'L' && "TALB"@[3] == 'B',
        "TCON"@.len() == 4,
        "TCON"@[0] == 'T' && "TCON"@[1] == 'C' && "TCON"@[2] == 'O' && "TCON"@[3] == 'N',
        "TYER"@.len() == 4,
        "TYER"@[0] == 'T' && "TYER"@[1] == 'Y' && "TYER"@[2] == 'E' && "TYER"@[3] == 'R',
        "TDRC"@.len() == 4,
        "TDRC"@[0] == 'T' && "TDRC"@[1] == 'D' && "TDRC"@[2] == 'R' && "TDRC"@[3] == 'C',
        "COMM"@.len() == 4,
        "COMM"@[0] == 'C' && "COMM"@[1] == 'O' && "COMM"@[2] == 'M' && "COMM"@[3] == 'M',
        "TDES"@.len() == 4,
        "TDES"@[0] == 'T' && "TDES"@[1] == 'D' && "TDES"@[2] == 'E' && "TDES"@[3] == 'S',
        "WFED"@.len() == 4,
        "WFED"@[0] == 'W' && "WFED"@[1] == 'F' && "WFED"@[2] == 'E' && "WFED"@[3] == 'D',
        "WCOM"@[1] == 'C' && "WOAR"@[1] == 'O',
{
    reveal_strlit("TIT2");
    reveal_strlit("TPE1");
    reveal_strlit("TPE2");
    reveal_strlit("TALB");
    reveal_strlit("TCON");
    reveal_strlit("TYER");
    reveal_strlit("TDRC");
    reveal_strlit("COMM");
    reveal_strlit("TDES");
    reveal_strlit("WFED");
    reveal_strlit("WCOM");
    reveal_strlit("WOAR");
}

/// No two of the frames an episode is described by share their letters.
proof fn lemma_described_apart(details: Details)
    ensures
        apart(description_of(details)),
{
    lemma_ids();
    let all = description_of(details);
    assert forall|i: int, j: int|
        0 <= i < all.len() && 0 <= j < all.len() && (#[trigger] all[i]).id() == (
        #[trigger] all[j]).id() implies i == j by {
        let a = all[i].id();
        let b = all[j].id();
        assert(a[0] == b[0] && a[1] == b[1] && a[2] == b[2] && a[3] == b[3]);
    }
}

/// Adds the next of the frames in `all`, which is a text frame.
fn add_next(
    tag: &mut id3::Tag,
    id: &str,
    text: &str,
    Ghost(start): Ghost<Seq<TagFrame>>,
    Ghost(all): Ghost<Seq<TagFrame>>,
    Ghost(n): Ghost<int>,
)
    requires
        frame_letters(id@),
        progress(start, tag_frames(*old(tag)), all, n),
        n < all.len(),
        all[n] == (TagFrame::Text { id: id@, text: text@ }),
        apart(all),
    ensures
        progress(start, tag_frames(*final(tag)), all, n + 1),
{
    let ghost before = tag_frames(*tag);
    set_text(tag, id, text);
    proof {
        lemma_progress(start, before, tag_frames(*tag), all, n);
    }
}

/// Puts what is known of an episode into its tag. Frames of other kinds than
/// those written here stay as they were, so cover art a publisher embedded —
/// which we have no way of putting back — survives.
pub fn describe(tag: &mut id3::Tag, details: &Details)
    ensures
        kept(tag_frames(*final(tag)), description_of(*details)) == kept(
            tag_frames(*old(tag)),
            description_of(*details),
        ),
        forall|j: int|
            0 <= j < description_of(*details).len() ==> tag_frames(*final(tag)).contains(
                #[trigger] description_of(*details)[j],
            ),
        regular(tag_frames(*old(tag)), description_of(*details)) ==> tag_frames(*final(tag))
            == with_frames(tag_frames(*old(tag)), description_of(*details)),
{
    let ghost start = tag_frames(*tag);
    let ghost all = description_of(*details);
    proof {
        lemma_ids();
        lemma_described_apart(*details);
        assert(all.take(0) =~= Seq::empty());
    }
    // Players file podcasts under the show, not under a per-episode artist, and
    // the feed's own author field is as often the network as the presenter.
    add_next(tag, "TIT2", details.title.as_str(), Ghost(start), Ghost(all), Ghost(0));
    add_next(tag, "TPE1", details.show.as_str(), Ghost(start), Ghost(all), Ghost(1));
    add_next(tag, "TPE2", details.show.as_str(), Ghost(start), Ghost(all), Ghost(2));
    add_next(tag, "TALB", details.show.as_str(), Ghost(start), Ghost(all), Ghost(3));
    add_next(tag, "TCON", "Podcast", Ghost(start), Ghost(all), Ghost(4));
    let ghost mut n: int = 5;
    if let Some(published) = details.published {
        let mut year = String::new();
        push_year(&mut year, published.year);
        assert(year@ =~= signed_padded(published.year as int, 4));
        add_next(tag, "TYER", year.as_str(), Ghost(start), Ghost(all), Ghost(n));
        let when = recorded(published);
        add_next(tag, "TDRC", when.as_str(), Ghost(start), Ghost(all), Ghost(n + 1));
        proof {
            n = n + 2;
        }
    }
    if let Some(description) = &details.description {
        if !description.as_str().is_empty() {
            proof {
                reveal_strlit("");
                assert(""@ =~= Seq::<char>::empty());
            }
            let ghost before = tag_frames(*tag);
            add_comment(tag, "eng", "", description.as_str());
            proof {
                lemma_progress(start, before, tag_frames(*tag), all, n);
            }
            // The frame podcast players look in for the episode notes.
            add_next(tag, "TDES", description.as_str(), Ghost(start), Ghost(all), Ghost(n + 1));
            proof {
                n = n + 2;
            }
        }
    }
    // Where the episode came from, so a file that has been moved somewhere else
    // still says which podcast to go back to.
    let ghost before = tag_frames(*tag);
    add_link(tag, "WFED", details.feed_url.as_str());
    proof {
        lemma_progress(start, before, tag_frames(*tag), all, n);
        assert(all.take(n + 1) =~= all);
    }
}

/// What a publisher put into a tag under other letters than ours — cover art
/// above all — is among the frames that stay.
pub proof fn law_other_frames_survive(frames: Seq<TagFrame>, new: Seq<TagFrame>, i: int)
    requires
        0 <= i < frames.len(),
        forall|j: int| 0 <= j < new.len() ==> (#[trigger] new[j]).id() != frames[i].id(),
    ensures
        kept(frames, new).contains(frames[i]),
    decreases new.len(),
{
    if new.len() > 0 {
        let front = new.drop_last();
        assert forall|j: int| 0 <= j < front.len() implies (#[trigger] front[j]).id()
            != frames[i].id() by {
            assert(front[j] == new[j]);
        }
        law_other_frames_survive(frames, front, i);
        assert(new[new.len() - 1] == new.last());
        lemma_without_keeps(kept(frames, front), new.last().id(), frames[i]);
    }
}

proof fn lemma_without_keeps(frames: Seq<TagFrame>, id: Seq<char>, f: TagFrame)
    requires
        frames.contains(f),
        f.id() != id,
    ensures
        without_id(frames, id).contains(f),
    decreases frames.len(),
{
    let front = frames.drop_last();
    if frames.last() == f {
        let r = without_id(frames, id);
        assert(r[r.len() - 1] == f);
    } else {
        let k = choose|k: int| 0 <= k < frames.len() && frames[k] == f;
        assert(front[k] == f);
        lemma_without_keeps(front, id, f);
        if frames.last().id() != id {
            let inner = without_id(front, id);
            let m = choose|m: int| 0 <= m < inner.len() && inner[m] == f;
            assert(without_id(frames, id)[m] == f);
        }
    }
}

/// An episode's tag says what it is called and which podcast it is of, under the
/// letters players look under: the title, the podcast as artist, as album artist
/// and as album, the genre, and where the podcast is to be found.
pub proof fn law_tags_say_whose_episode_it_is(d: Details)
    ensures
        ({
            let frames = description_of(d);
            &&& frames.contains(TagFrame::Text { id: "TIT2"@, text: d.title@ })
            &&& frames.contains(TagFrame::Text { id: "TPE1"@, text: d.show@ })
            &&& frames.contains(TagFrame::Text { id: "TPE2"@, text: d.show@ })
            &&& frames.contains(TagFrame::Text { id: "TALB"@, text: d.show@ })
            &&& frames.contains(TagFrame::Text { id: "TCON"@, text: "Podcast"@ })
            &&& frames.contains(TagFrame::Link { id: "WFED"@, url: d.feed_url@ })
        }),
{
    let frames = description_of(d);
    assert(frames[0] == (TagFrame::Text { id: "TIT2"@, text: d.title@ }));
    assert(frames[1] == (TagFrame::Text { id: "TPE1"@, text: d.show@ }));
    assert(frames[2] == (TagFrame::Text { id: "TPE2"@, text: d.show@ }));
    assert(frames[3] == (TagFrame::Text { id: "TALB"@, text: d.show@ }));
    assert(frames[4] == (TagFrame::Text { id: "TCON"@, text: "Podcast"@ }));
    assert(frames[frames.len() - 1] == (TagFrame::Link { id: "WFED"@, url: d.feed_url@ }));
}

/// A tag says when an episode came out, and what its feed says of it, exactly
/// where the feed says so; of an episode without a date or a blurb it says
/// nothing in their place.
pub proof fn law_tags_say_no_more_than_the_feed(d: Details)
    ensures
        ({
            let frames = description_of(d);
            let blurb = optional_text(d.description);
            &&& forall|t: Seq<char>| #[trigger]
                frames.contains(TagFrame::Text { id: "TDRC"@, text: t }) <==> (d.published matches Some(
                    p,
                ) && t == recorded_text(p))
            &&& forall|t: Seq<char>| #[trigger]
                frames.contains(TagFrame::Text { id: "TDES"@, text: t }) <==> t.len() > 0 && blurb
                    == Some(t)
            &&& forall|l: Seq<char>, k: Seq<char>, t: Seq<char>| #[trigger]
                frames.contains(TagFrame::Comment { lang: l, description: k, text: t }) ==> blurb
                    == Some(t)
            &&& forall|t: Seq<char>|
                t.len() > 0 && blurb == Some(t) ==> #[trigger] frames.contains(
                    TagFrame::Comment { lang: "eng"@, description: Seq::empty(), text: t },
                )
        }),
{
    lemma_ids();
    let frames = description_of(d);
    let blurb = optional_text(d.description);
    assert forall|t: Seq<char>| #[trigger]
        frames.contains(TagFrame::Text { id: "TDRC"@, text: t }) <==> (d.published matches Some(p)
            && t == recorded_text(p)) by {
        let f = TagFrame::Text { id: "TDRC"@, text: t };
        if d.published matches Some(p) && t == recorded_text(p) {
            assert(frames[6] == f);
        }
        if frames.contains(f) {
            let k = choose|k: int| 0 <= k < frames.len() && frames[k] == f;
            assert(frames[k].id()[1] == 'D' && frames[k].id()[2] == 'R');
        }
    }
    let n: int = if d.published is Some {
        7
    } else {
        5
    };
    assert forall|t: Seq<char>| #[trigger]
        frames.contains(TagFrame::Text { id: "TDES"@, text: t }) <==> t.len() > 0 && blurb == Some(
            t,
        ) by {
        let f = TagFrame::Text { id: "TDES"@, text: t };
        if t.len() > 0 && blurb == Some(t) {
            assert(frames[n + 1] == f);
        }
        if frames.contains(f) {
            let k = choose|k: int| 0 <= k < frames.len() && frames[k] == f;
            assert(frames[k].id()[1] == 'D' && frames[k].id()[2] == 'E');
        }
    }
    assert forall|t: Seq<char>|
        t.len() > 0 && blurb == Some(t) implies #[trigger] frames.contains(
        TagFrame::Comment { lang: "eng"@, description: Seq::empty(), text: t },
    ) by {
        assert(frames[n] == (TagFrame::Comment {
            lang: "eng"@,
            description: Seq::empty(),
            text: t,
        }));
    }
}

} // verus!
