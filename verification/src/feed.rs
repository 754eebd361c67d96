//! RSS / Atom podcast feed parsing.
//!
//! We only care about the part of a feed that describes downloadable media:
//! each item's title, enclosure URL, size and date.

use crate::opml::is_among;
use crate::text::chars_of;
use crate::text::lower;
use crate::text::owned;
use crate::text::parse_unsigned;
use crate::text::same_ignoring_case;
use crate::text::same_str;
use crate::text::string_of;
use crate::text::to_lower;
use crate::text::trim;
use crate::text::trimmed;
use crate::text::unsigned_number;
use crate::text::views;
use crate::util::atom_date;
use crate::util::http_url;
use crate::util::is_http;
use crate::util::iso8601;
use crate::util::rfc2822;
use crate::util::rss_date;
use crate::util::strip_html;
use crate::util::stripped;
use crate::util::Published;
use crate::xml::attribute;
use crate::xml::find_attribute;
use crate::xml::node_list;
use crate::xml::parse_document;
use crate::xml::trim_text;
use crate::xml::trimmed_text;
use crate::xml::without_mark;
use crate::xml::xml_nodes;
use crate::xml::Node;
use crate::xml::XmlNode;
use vstd::prelude::*;

verus! {

#[derive(Debug, Clone, PartialEq, Eq)]
pub struct Episode {
    pub title: String,
    pub url: String,
    /// Declared size in bytes, when the feed provides a believable one.
    pub length: Option<u64>,
    pub mime: Option<String>,
    /// When it was published, when we could parse the date. This is what the
    /// file is named after, so it is wanted to the minute rather than the day.
    pub published: Option<Published>,
    /// The episode's own blurb, with any markup taken out of it. Goes into the
    /// file's tags, which is where a reader will look for it now that the file
    /// name is a timestamp.
    pub description: Option<String>,
}

/// The text of an optional string.
pub open spec fn optional_text(s: Option<String>) -> Option<Seq<char>> {
    match s {
        Some(t) => Some(t@),
        None => None,
    }
}

/// What an episode says.
pub struct Item {
    pub title: Seq<char>,
    pub url: Seq<char>,
    pub length: Option<u64>,
    pub mime: Option<Seq<char>>,
    pub published: Option<Published>,
    pub description: Option<Seq<char>>,
}

impl View for Episode {
    type V = Item;

    open spec fn view(&self) -> Item {
        Item {
            title: self.title@,
            url: self.url@,
            length: self.length,
            mime: optional_text(self.mime),
            published: self.published,
            description: optional_text(self.description),
        }
    }
}

/// What a list of episodes says.
pub open spec fn items(v: Seq<Episode>) -> Seq<Item> {
    v.map_values(|e: Episode| e@)
}

/// Deliberately not carrying the channel's own `<title>`: folder names come
/// from the OPML entry instead, so they can be worked out before a single feed
/// is fetched. That keeps them stable from run to run and lets collisions be
/// resolved up front rather than by whichever feed happens to finish first.
#[derive(Debug, Clone)]
pub struct Feed {
    pub episodes: Vec<Episode>,
}

impl Default for Feed {
    fn default() -> (r: Self)
        ensures
            r.episodes@ == Seq::<Episode>::empty(),
    {
        Feed { episodes: Vec::new() }
    }
}

/// Why a feed could not be read.
#[derive(Debug)]
pub enum FeedError {
    /// The feed is not XML; the text says why.
    Xml(String),
}

impl FeedError {
    /// The error in words.
    pub fn message(&self) -> (r: String)
        ensures
            match self {
                FeedError::Xml(e) => r@ == "feed is not valid XML: "@ + e@,
            },
    {
        match self {
            FeedError::Xml(e) => {
                let mut s = owned("feed is not valid XML: ");
                s.push_str(e.as_str());
                s
            },
        }
    }
}

/// Where the nodes below the one at `i` end. They follow it directly, and none
/// of their parents stands before it.
pub open spec fn subtree_end(nodes: Seq<Node>, i: int, j: int) -> int
    decreases nodes.len() - j,
{
    if j >= nodes.len() {
        nodes.len() as int
    } else {
        match nodes[j].parent {
            Some(p) if p >= i => subtree_end(nodes, i, j + 1),
            _ => j,
        }
    }
}

/// Finds the end of what is below a node.
fn find_end(nodes: &Vec<XmlNode>, i: usize) -> (end: usize)
    requires
        i < nodes@.len(),
    ensures
        end == subtree_end(node_list(nodes@), i as int, i + 1),
        i < end <= nodes@.len(),
{
    let ghost all = node_list(nodes@);
    let count: usize = nodes.len();
    let mut j: usize = i + 1;
    while j < count
        invariant
            i < j <= count == nodes@.len(),
            all == node_list(nodes@),
            subtree_end(all, i as int, i + 1) == subtree_end(all, i as int, j as int),
        decreases nodes@.len() - j,
    {
        assert(all[j as int] == nodes@[j as int]@);
        match nodes[j].parent {
            Some(p) => {
                if p < i {
                    return j;
                }
            },
            None => return j,
        }
        j += 1;
    }
    j
}

/// Whether the node at `j` is an element right below the one at `i`.
pub open spec fn child_element(nodes: Seq<Node>, i: int, j: int) -> bool {
    nodes[j].is_element && nodes[j].parent == Some(i)
}

/// Whether a node is an element right below another.
fn is_child_element(nodes: &Vec<XmlNode>, i: usize, j: usize) -> (b: bool)
    requires
        j < nodes@.len(),
    ensures
        b == child_element(node_list(nodes@), i as int, j as int),
{
    assert(node_list(nodes@)[j as int] == nodes@[j as int]@);
    nodes[j].is_element && match nodes[j].parent {
        Some(p) => p == i,
        None => false,
    }
}

/// The text of the nodes from `j` up to `end`, one after another: CDATA
/// sections split an element's text into several nodes.
pub open spec fn gathered_text(nodes: Seq<Node>, j: int, end: int) -> Seq<char>
    decreases end - j,
{
    if j >= end {
        Seq::empty()
    } else {
        gathered_text(nodes, j, end - 1) + (if nodes[end - 1].is_text {
            nodes[end - 1].text
        } else {
            Seq::empty()
        })
    }
}

/// An element's text, trimmed. An empty element doesn't count as a value.
pub open spec fn element_value(nodes: Seq<Node>, i: int) -> Option<Seq<char>> {
    trimmed_text(Some(gathered_text(nodes, i, subtree_end(nodes, i, i + 1))))
}

/// Concatenate an element's text, which CDATA sections split into several nodes.
fn element_text(nodes: &Vec<XmlNode>, i: usize) -> (r: Option<String>)
    requires
        i < nodes@.len(),
    ensures
        optional_text(r) == element_value(node_list(nodes@), i as int),
{
    let ghost all = node_list(nodes@);
    let end = find_end(nodes, i);
    let mut buf = String::new();
    let mut j: usize = i;
    assert(buf@ =~= gathered_text(all, i as int, i as int));
    while j < end
        invariant
            i <= j <= end <= nodes@.len(),
            all == node_list(nodes@),
            buf@ == gathered_text(all, i as int, j as int),
        decreases end - j,
    {
        let ghost before = buf@;
        assert(all[j as int] == nodes@[j as int]@);
        if nodes[j].is_text {
            buf.push_str(nodes[j].text.as_str());
        } else {
            assert(before + Seq::<char>::empty() =~= before);
        }
        j += 1;
    }
    trim_text(Some(buf.as_str()))
}

/// Whether the element at `j` is a child of the one at `i` with this name,
/// whatever the case.
pub open spec fn named_child(nodes: Seq<Node>, i: int, j: int, name: Seq<char>) -> bool {
    child_element(nodes, i, j) && lower(nodes[j].name) == lower(name)
}

/// Whether an element belongs to the feed itself rather than to an extension
/// such as `itunes:`.
pub open spec fn plain_element(node: Node) -> bool {
    match node.namespace {
        None => true,
        Some(n) => n == "http://www.w3.org/2005/Atom"@,
    }
}

/// The first of the nodes from `j` up to `end` that is a plain child of this
/// name.
pub open spec fn plain_child(nodes: Seq<Node>, i: int, j: int, end: int, name: Seq<char>) -> Option<
    int,
>
    decreases end - j,
{
    if j >= end {
        None
    } else if named_child(nodes, i, j, name) && plain_element(nodes[j]) {
        Some(j)
    } else {
        plain_child(nodes, i, j + 1, end, name)
    }
}

/// The first text that any child of this name has, from `j` up to `end`.
pub open spec fn any_text(nodes: Seq<Node>, i: int, j: int, end: int, name: Seq<char>) -> Option<
    Seq<char>,
>
    decreases end - j,
{
    if j >= end {
        None
    } else if named_child(nodes, i, j, name) && element_value(nodes, j) is Some {
        element_value(nodes, j)
    } else {
        any_text(nodes, i, j + 1, end, name)
    }
}

/// The text of a node's child of this name: that of the first plain one, or
/// else of the first from an extension namespace that has any.
pub open spec fn child_value(nodes: Seq<Node>, i: int, name: Seq<char>) -> Option<Seq<char>> {
    let end = subtree_end(nodes, i, i + 1);
    match plain_child(nodes, i, i + 1, end, name) {
        Some(j) => element_value(nodes, j),
        None => any_text(nodes, i, i + 1, end, name),
    }
}

/// Whether an element belongs to the feed itself.
fn is_plain(node: &XmlNode) -> (b: bool)
    ensures
        b == plain_element(node@),
{
    match &node.namespace {
        None => true,
        Some(n) => same_str(n.as_str(), "http://www.w3.org/2005/Atom"),
    }
}

/// Text of the first child with this local name, preferring an unnamespaced or
/// Atom element over one from an extension namespace such as `itunes:`.
fn child_text(nodes: &Vec<XmlNode>, i: usize, name: &str) -> (r: Option<String>)
    requires
        i < nodes@.len(),
    ensures
        optional_text(r) == child_value(node_list(nodes@), i as int, name@),
{
    let ghost all = node_list(nodes@);
    let wanted = chars_of(name);
    let end = find_end(nodes, i);
    let mut fallback: Option<String> = None;
    let mut j: usize = i + 1;
    while j < end
        invariant
            i < j <= end <= nodes@.len(),
            end == subtree_end(all, i as int, i + 1),
            wanted@ == name@,
            all == node_list(nodes@),
            plain_child(all, i as int, i + 1, end as int, name@) == plain_child(
                all,
                i as int,
                j as int,
                end as int,
                name@,
            ),
            any_text(all, i as int, i + 1, end as int, name@) == match fallback {
                Some(t) => Some(t@),
                None => any_text(all, i as int, j as int, end as int, name@),
            },
        decreases end - j,
    {
        assert(all[j as int] == nodes@[j as int]@);
        if is_child_element(nodes, i, j) {
            let cs = chars_of(nodes[j].name.as_str());
            if same_ignoring_case(cs.as_slice(), wanted.as_slice()) {
                let text = element_text(nodes, j);
                if is_plain(&nodes[j]) {
                    return text;
                }
                if fallback.is_none() {
                    fallback = text;
                }
            }
        }
        j += 1;
    }
    fallback
}

/// The media an item carries: where it is, how big it claims to be, and what
/// kind it claims to be.
pub struct Media {
    pub url: Seq<char>,
    pub length: Option<u64>,
    pub mime: Option<Seq<char>>,
}

/// The attribute that holds the URL of a media attachment, for a node that is
/// one: an RSS `<enclosure>`, or an Atom `<link rel="enclosure">`.
pub open spec fn media_attribute(node: Node) -> Option<Seq<char>> {
    if node.name == "enclosure"@ {
        Some("url"@)
    } else if node.name == "link"@ {
        match attribute(node.attributes, "rel"@) {
            Some(r) if lower(r) == lower("enclosure"@) => Some("href"@),
            _ => None,
        }
    } else {
        None
    }
}

/// The size a node declares. Feeds routinely declare a length of 0, or a
/// placeholder, when they don't actually know it; those count as unknown.
pub open spec fn declared_length(node: Node) -> Option<u64> {
    match attribute(node.attributes, "length"@) {
        Some(l) => match unsigned_number(trim(l), u64::MAX as int) {
            Some(n) if n > 0 => Some(n as u64),
            _ => None,
        },
        None => None,
    }
}

/// The media attachment among the children of `i` from `j` up to `end`. One
/// that does not say where it is ends the search; one that names anything but
/// `http` or `https` is passed over, since a feed is a file from outside, and
/// an enclosure that names a `file://` is asking us to read the disk and write
/// what we find into a podcast folder.
pub open spec fn media_from(nodes: Seq<Node>, i: int, j: int, end: int) -> Option<Media>
    decreases end - j,
{
    if j >= end {
        None
    } else if !child_element(nodes, i, j) || media_attribute(nodes[j]) is None {
        media_from(nodes, i, j + 1, end)
    } else {
        match attribute(nodes[j].attributes, media_attribute(nodes[j])->0) {
            None => None,
            Some(url) => if http_url(trim(url)) {
                Some(
                    Media {
                        url: trim(url),
                        length: declared_length(nodes[j]),
                        mime: trimmed_text(attribute(nodes[j].attributes, "type"@)),
                    },
                )
            } else {
                media_from(nodes, i, j + 1, end)
            },
        }
    }
}

/// The media attachment of an item.
pub open spec fn media_of(nodes: Seq<Node>, i: int) -> Option<Media> {
    media_from(nodes, i, i + 1, subtree_end(nodes, i, i + 1))
}

/// Reads the size a node declares.
fn read_length(node: &XmlNode) -> (r: Option<u64>)
    ensures
        r == declared_length(node@),
{
    match find_attribute(node, "length") {
        Some(l) => {
            let cs = chars_of(l);
            match parse_unsigned(trimmed(cs.as_slice()), u64::MAX) {
                Some(n) => if n > 0 {
                    Some(n)
                } else {
                    None
                },
                None => None,
            }
        },
        None => None,
    }
}

/// Whether a node is a media attachment, and which attribute its URL is in.
fn url_attribute(node: &XmlNode) -> (r: Option<&'static str>)
    ensures
        match r {
            Some(a) => media_attribute(node@) == Some(a@),
            None => media_attribute(node@) is None,
        },
{
    if same_str(node.name.as_str(), "enclosure") {
        return Some("url");
    }
    if same_str(node.name.as_str(), "link") {
        if let Some(rel) = find_attribute(node, "rel") {
            let cs = chars_of(rel);
            let wanted = chars_of("enclosure");
            if same_ignoring_case(cs.as_slice(), wanted.as_slice()) {
                return Some("href");
            }
        }
    }
    None
}

/// Find the media attachment for an item: an RSS `<enclosure>`, or an Atom
/// `<link rel="enclosure">`.
fn enclosure(nodes: &Vec<XmlNode>, i: usize) -> (r: Option<(String, Option<u64>, Option<String>)>)
    requires
        i < nodes@.len(),
    ensures
        match r {
            Some((url, length, mime)) => media_of(node_list(nodes@), i as int) == Some(
                Media { url: url@, length, mime: optional_text(mime) },
            ),
            None => media_of(node_list(nodes@), i as int) is None,
        },
{
    let ghost all = node_list(nodes@);
    let end = find_end(nodes, i);
    let mut j: usize = i + 1;
    while j < end
        invariant
            i < j <= end <= nodes@.len(),
            all == node_list(nodes@),
            media_of(all, i as int) == media_from(all, i as int, j as int, end as int),
        decreases end - j,
    {
        assert(all[j as int] == nodes@[j as int]@);
        if is_child_element(nodes, i, j) {
            let node = &nodes[j];
            if let Some(name) = url_attribute(node) {
                match find_attribute(node, name) {
                    None => return None,
                    Some(url) => {
                        let cs = chars_of(url);
                        let bare = trimmed(cs.as_slice());
                        if is_http(bare) {
                            let length = read_length(node);
                            let mime = trim_text(find_attribute(node, "type"));
                            return Some((string_of(bare), length, mime));
                        }
                    },
                }
            }
        }
        j += 1;
    }
    None
}

/// When an item says it was published: RSS's `pubDate`, or else Atom's
/// `published` or `updated`.
pub open spec fn published_at(nodes: Seq<Node>, i: int) -> Option<Published> {
    let rss = match child_value(nodes, i, "pubDate"@) {
        Some(d) => rss_date(d),
        None => None,
    };
    let published = match child_value(nodes, i, "published"@) {
        Some(d) => atom_date(d),
        None => None,
    };
    let updated = match child_value(nodes, i, "updated"@) {
        Some(d) => atom_date(d),
        None => None,
    };
    if rss is Some {
        rss
    } else if published is Some {
        published
    } else {
        updated
    }
}

/// An item's blurb, with the markup taken out. `itunes:summary` is plain text
/// where `description` is often HTML, but it is also the one publishers leave
/// stale, so the feed's own description comes first.
pub open spec fn blurb(nodes: Seq<Node>, i: int) -> Option<Seq<char>> {
    let given = match child_value(nodes, i, "description"@) {
        Some(d) => Some(d),
        None => match child_value(nodes, i, "summary"@) {
            Some(d) => Some(d),
            None => child_value(nodes, i, "content"@),
        },
    };
    match given {
        Some(d) if stripped(d).len() > 0 => Some(stripped(d)),
        _ => None,
    }
}

/// The episode that an item describes, when it has any media attached.
pub open spec fn item_at(nodes: Seq<Node>, i: int) -> Option<Item> {
    match media_of(nodes, i) {
        None => None,
        Some(m) => Some(
            Item {
                title: match child_value(nodes, i, "title"@) {
                    Some(t) => t,
                    None => "Untitled Episode"@,
                },
                url: m.url,
                length: m.length,
                mime: m.mime,
                published: published_at(nodes, i),
                description: blurb(nodes, i),
            },
        ),
    }
}

/// What an episode is told from others by: its guid, which is the author's own
/// identity claim, or else its URL, whatever the case.
pub open spec fn identity(nodes: Seq<Node>, i: int, url: Seq<char>) -> Seq<char> {
    match child_value(nodes, i, "guid"@) {
        Some(g) => lower(g),
        None => lower(url),
    }
}

/// The episodes read so far, and what they are told from others by.
pub struct Reading {
    pub items: Seq<Item>,
    pub keys: Seq<Seq<char>>,
}

/// Whether the node at `j` is an item of the container at `c`.
pub open spec fn is_item(nodes: Seq<Node>, c: int, j: int) -> bool {
    child_element(nodes, c, j) && (nodes[j].name == "item"@ || nodes[j].name == "entry"@)
}

/// The episodes of a container among the nodes up to `j`. A feed may list the
/// same media twice; the first is kept.
pub open spec fn reading(nodes: Seq<Node>, c: int, j: int) -> Reading
    decreases j - c,
{
    if j <= c + 1 {
        Reading { items: Seq::empty(), keys: Seq::empty() }
    } else {
        let before = reading(nodes, c, j - 1);
        match item_at(nodes, j - 1) {
            Some(item) if is_item(nodes, c, j - 1) => {
                let key = identity(nodes, j - 1, item.url);
                if before.keys.contains(key) {
                    before
                } else {
                    Reading { items: before.items.push(item), keys: before.keys.push(key) }
                }
            },
            _ => before,
        }
    }
}

/// The first of the nodes from `j` up to `end` that is an element right below
/// `i`, of any name or of one in particular.
pub open spec fn first_child(nodes: Seq<Node>, i: int, j: int, end: int, name: Option<Seq<char>>) -> Option<
    int,
>
    decreases end - j,
{
    if j >= end {
        None
    } else if child_element(nodes, i, j) && (name is None || nodes[j].name == name->0) {
        Some(j)
    } else {
        first_child(nodes, i, j + 1, end, name)
    }
}

/// The node that holds the items: RSS nests everything under `<channel>`, and
/// Atom puts it on the root `<feed>`.
pub open spec fn container(nodes: Seq<Node>) -> Option<int> {
    match first_child(nodes, 0, 1, nodes.len() as int, None) {
        None => None,
        Some(root) => match first_child(
            nodes,
            root,
            root + 1,
            subtree_end(nodes, root, root + 1),
            Some("channel"@),
        ) {
            Some(channel) => Some(channel),
            None => Some(root),
        },
    }
}

/// The episodes of a feed.
pub open spec fn feed_items(nodes: Seq<Node>) -> Seq<Item> {
    match container(nodes) {
        None => Seq::empty(),
        Some(c) => reading(nodes, c, subtree_end(nodes, c, c + 1)).items,
    }
}

/// Finds the first child element of a name.
fn find_child(nodes: &Vec<XmlNode>, i: usize, end: usize, name: Option<&str>) -> (r: Option<usize>)
    requires
        i < end <= nodes@.len(),
    ensures
        match r {
            Some(j) => first_child(
                node_list(nodes@),
                i as int,
                i + 1,
                end as int,
                crate::util::text_of(name),
            ) == Some(j as int) && i < j < end,
            None => first_child(
                node_list(nodes@),
                i as int,
                i + 1,
                end as int,
                crate::util::text_of(name),
            ) is None,
        },
{
    let ghost all = node_list(nodes@);
    let ghost wanted = crate::util::text_of(name);
    let mut j: usize = i + 1;
    while j < end
        invariant
            i < j <= end <= nodes@.len(),
            all == node_list(nodes@),
            wanted == crate::util::text_of(name),
            first_child(all, i as int, i + 1, end as int, wanted) == first_child(
                all,
                i as int,
                j as int,
                end as int,
                wanted,
            ),
        decreases end - j,
    {
        assert(all[j as int] == nodes@[j as int]@);
        if is_child_element(nodes, i, j) {
            let matches_name = match name {
                None => true,
                Some(n) => same_str(nodes[j].name.as_str(), n),
            };
            if matches_name {
                return Some(j);
            }
        }
        j += 1;
    }
    None
}

/// Reads when an item says it was published.
fn read_published(nodes: &Vec<XmlNode>, i: usize) -> (r: Option<Published>)
    requires
        i < nodes@.len(),
    ensures
        r == published_at(node_list(nodes@), i as int),
{
    if let Some(d) = child_text(nodes, i, "pubDate") {
        let p = rfc2822(d.as_str());
        if p.is_some() {
            return p;
        }
    }
    if let Some(d) = child_text(nodes, i, "published") {
        let p = iso8601(d.as_str());
        if p.is_some() {
            return p;
        }
    }
    match child_text(nodes, i, "updated") {
        Some(d) => iso8601(d.as_str()),
        None => None,
    }
}

/// Reads an item's blurb.
fn read_blurb(nodes: &Vec<XmlNode>, i: usize) -> (r: Option<String>)
    requires
        i < nodes@.len(),
    ensures
        optional_text(r) == blurb(node_list(nodes@), i as int),
{
    let given = match child_text(nodes, i, "description") {
        Some(d) => Some(d),
        None => match child_text(nodes, i, "summary") {
            Some(d) => Some(d),
            None => child_text(nodes, i, "content"),
        },
    };
    match given {
        Some(d) => {
            let plain = strip_html(d.as_str());
            if plain.as_str().is_empty() {
                None
            } else {
                Some(plain)
            }
        },
        None => None,
    }
}

/// The episodes in a parsed document.
pub fn feed_in(nodes: &Vec<XmlNode>) -> (r: Feed)
    ensures
        items(r.episodes@) == feed_items(node_list(nodes@)),
{
    let ghost all = node_list(nodes@);
    let mut episodes: Vec<Episode> = Vec::new();
    if nodes.len() == 0 {
        assert(items(episodes@) =~= Seq::<Item>::empty());
        return Feed { episodes };
    }
    let root = match find_child(nodes, 0, nodes.len(), None) {
        Some(r) => r,
        None => {
            assert(items(episodes@) =~= Seq::<Item>::empty());
            return Feed { episodes };
        },
    };
    // RSS nests everything under <channel>; Atom puts it on the root <feed>.
    let c: usize = match find_child(nodes, root, find_end(nodes, root), Some("channel")) {
        Some(channel) => channel,
        None => root,
    };
    assert(container(all) == Some(c as int));
    let end = find_end(nodes, c);
    let mut seen: Vec<Vec<char>> = Vec::new();
    let mut j: usize = c + 1;
    assert(items(episodes@) =~= Seq::<Item>::empty());
    assert(views(seen@) =~= Seq::<Seq<char>>::empty());
    while j < end
        invariant
            c < j <= end <= nodes@.len(),
            all == node_list(nodes@),
            items(episodes@) == reading(all, c as int, j as int).items,
            views(seen@) == reading(all, c as int, j as int).keys,
        decreases end - j,
    {
        assert(all[j as int] == nodes@[j as int]@);
        let ghost before = episodes@;
        let ghost before_keys = seen@;
        if is_child_element(nodes, c, j) && (same_str(nodes[j].name.as_str(), "item") || same_str(
            nodes[j].name.as_str(),
            "entry",
        )) {
            if let Some((url, length, mime)) = enclosure(nodes, j) {
                // A feed may list the same media twice; the guid is the author's
                // own identity claim, so prefer it and fall back to the URL.
                let key = match child_text(nodes, j, "guid") {
                    Some(g) => {
                        let cs = chars_of(g.as_str());
                        to_lower(cs.as_slice())
                    },
                    None => {
                        let cs = chars_of(url.as_str());
                        to_lower(cs.as_slice())
                    },
                };
                if !is_among(&seen, key.as_slice()) {
                    let title = match child_text(nodes, j, "title") {
                        Some(t) => t,
                        None => owned("Untitled Episode"),
                    };
                    let published = read_published(nodes, j);
                    let description = read_blurb(nodes, j);
                    let episode = Episode { title, url, length, mime, published, description };
                    let ghost key_text = key@;
                    let ghost said = episode@;
                    seen.push(key);
                    episodes.push(episode);
                    assert(items(episodes@) =~= items(before).push(said));
                    assert(views(seen@) =~= views(before_keys).push(key_text));
                    assert(item_at(all, j as int) == Some(said));
                }
            }
        }
        j += 1;
    }
    Feed { episodes }
}

/// The episodes in the text of a feed.
pub fn parse(text: &str) -> (r: Result<Feed, FeedError>)
    ensures
        match xml_nodes(without_mark(text@)) {
            Err(why) => r matches Err(FeedError::Xml(e)) && e@ == why,
            Ok(nodes) => r matches Ok(f) && items(f.episodes@) == feed_items(nodes),
        },
{
    match parse_document(text) {
        Ok(nodes) => Ok(feed_in(&nodes)),
        Err(e) => Err(FeedError::Xml(e)),
    }
}

/// Whatever a feed says, every episode read from it can be fetched over `http`
/// or `https`, and no declared size is zero.
pub proof fn law_episodes_are_fetchable(nodes: Seq<Node>, k: int)
    requires
        0 <= k < feed_items(nodes).len(),
    ensures
        http_url(feed_items(nodes)[k].url),
        feed_items(nodes)[k].length != Some(0u64),
{
    let c = container(nodes)->0;
    lemma_reading(nodes, c, subtree_end(nodes, c, c + 1));
}

/// Whether the node at `k` is a child of the one at `i` that goes by a name, and
/// belongs to the feed's own vocabulary: no namespace at all, or Atom's.
pub open spec fn own_child(nodes: Seq<Node>, i: int, k: int, name: Seq<char>) -> bool {
    &&& i < k < subtree_end(nodes, i, i + 1)
    &&& nodes[k].is_element
    &&& nodes[k].parent == Some(i)
    &&& lower(nodes[k].name) == lower(name)
    &&& (nodes[k].namespace is None || nodes[k].namespace == Some(
        "http://www.w3.org/2005/Atom"@,
    ))
}

/// The feed's own elements come before those of an extension such as `itunes:`.
/// Where an item has one of a name, its value is that of the first of them, and
/// nothing an extension puts beside it counts.
pub proof fn law_own_elements_come_first(nodes: Seq<Node>, i: int, k: int, name: Seq<char>)
    requires
        own_child(nodes, i, k, name),
        forall|j: int| i < j < k ==> !(#[trigger] own_child(nodes, i, j, name)),
    ensures
        child_value(nodes, i, name) == element_value(nodes, k),
{
    lemma_plain_child(nodes, i, i + 1, subtree_end(nodes, i, i + 1), k, name);
}

proof fn lemma_plain_child(
    nodes: Seq<Node>,
    i: int,
    from: int,
    end: int,
    k: int,
    name: Seq<char>,
)
    requires
        i < from <= k < end,
        end == subtree_end(nodes, i, i + 1),
        own_child(nodes, i, k, name),
        forall|j: int| from <= j < k ==> !(#[trigger] own_child(nodes, i, j, name)),
    ensures
        plain_child(nodes, i, from, end, name) == Some(k),
    decreases k - from,
{
    if from < k {
        assert(!own_child(nodes, i, from, name));
        lemma_plain_child(nodes, i, from + 1, end, k, name);
    }
}

/// Where an item has no element of a name but in extensions, the first of those
/// that holds any text is its value; with none that does, it has no value.
pub proof fn law_extensions_fill_in(nodes: Seq<Node>, i: int, name: Seq<char>)
    requires
        forall|j: int| !(#[trigger] own_child(nodes, i, j, name)),
    ensures
        match child_value(nodes, i, name) {
            Some(t) => exists|k: int|
                {
                    &&& i < k < subtree_end(nodes, i, i + 1)
                    &&& #[trigger] named_child(nodes, i, k, name)
                    &&& element_value(nodes, k) == Some(t)
                    &&& forall|j: int|
                        i < j < k && #[trigger] named_child(nodes, i, j, name) ==> element_value(
                            nodes,
                            j,
                        ) is None
                },
            None => forall|j: int|
                i < j < subtree_end(nodes, i, i + 1) && #[trigger] named_child(nodes, i, j, name)
                    ==> element_value(nodes, j) is None,
        },
{
    lemma_no_plain_child(nodes, i, i + 1, subtree_end(nodes, i, i + 1), name);
    lemma_any_text(nodes, i, i + 1, subtree_end(nodes, i, i + 1), name);
}

proof fn lemma_no_plain_child(nodes: Seq<Node>, i: int, from: int, end: int, name: Seq<char>)
    requires
        i < from,
        end == subtree_end(nodes, i, i + 1),
        forall|j: int| !(#[trigger] own_child(nodes, i, j, name)),
    ensures
        plain_child(nodes, i, from, end, name) is None,
    decreases end - from,
{
    if from < end {
        assert(!own_child(nodes, i, from, name));
        lemma_no_plain_child(nodes, i, from + 1, end, name);
    }
}

proof fn lemma_any_text(nodes: Seq<Node>, i: int, from: int, end: int, name: Seq<char>)
    ensures
        match any_text(nodes, i, from, end, name) {
            Some(t) => exists|k: int|
                {
                    &&& from <= k < end
                    &&& #[trigger] named_child(nodes, i, k, name)
                    &&& element_value(nodes, k) == Some(t)
                    &&& forall|j: int|
                        from <= j < k && #[trigger] named_child(nodes, i, j, name)
                            ==> element_value(nodes, j) is None
                },
            None => forall|j: int|
                from <= j < end && #[trigger] named_child(nodes, i, j, name) ==> element_value(
                    nodes,
                    j,
                ) is None,
        },
    decreases end - from,
{
    if from < end {
        lemma_any_text(nodes, i, from + 1, end, name);
        if named_child(nodes, i, from, name) && element_value(nodes, from) is Some {
            assert(named_child(nodes, i, from, name));
        }
    }
}

/// Whether the node at `k` is the first child of the one at `i` that goes by a
/// name in the feed's own vocabulary.
pub open spec fn first_own(nodes: Seq<Node>, i: int, k: int, name: Seq<char>) -> bool {
    own_child(nodes, i, k, name) && forall|j: int|
        i < j < k ==> !(#[trigger] own_child(nodes, i, j, name))
}

/// An episode is called what its item's title says. One whose title says nothing
/// is untitled.
pub proof fn law_titles_are_the_items_own(nodes: Seq<Node>, i: int, k: int)
    requires
        item_at(nodes, i) is Some,
        first_own(nodes, i, k, "title"@),
    ensures
        match element_value(nodes, k) {
            Some(t) => (item_at(nodes, i)->0).title == t,
            None => (item_at(nodes, i)->0).title == "Untitled Episode"@,
        },
{
    law_own_elements_come_first(nodes, i, k, "title"@);
}

/// An episode's blurb is its item's description, with the markup taken out,
/// whatever summary or content stands beside it.
pub proof fn law_descriptions_come_first(nodes: Seq<Node>, i: int, k: int)
    requires
        item_at(nodes, i) is Some,
        first_own(nodes, i, k, "description"@),
        element_value(nodes, k) is Some,
    ensures
        ({
            let plain = stripped(element_value(nodes, k)->0);
            (item_at(nodes, i)->0).description == (if plain.len() > 0 {
                Some(plain)
            } else {
                None
            })
        }),
{
    law_own_elements_come_first(nodes, i, k, "description"@);
}

/// Without a description the summary stands in, and without either the content.
pub proof fn law_summaries_stand_in(nodes: Seq<Node>, i: int, k: int)
    requires
        item_at(nodes, i) is Some,
        forall|j: int| !(#[trigger] named_child(nodes, i, j, "description"@)),
    ensures
        first_own(nodes, i, k, "summary"@) && element_value(nodes, k) is Some && stripped(
            element_value(nodes, k)->0,
        ).len() > 0 ==> (item_at(nodes, i)->0).description == Some(
            stripped(element_value(nodes, k)->0),
        ),
        (forall|j: int| !(#[trigger] named_child(nodes, i, j, "summary"@))) && first_own(
            nodes,
            i,
            k,
            "content"@,
        ) && element_value(nodes, k) is Some && stripped(element_value(nodes, k)->0).len() > 0
            ==> (item_at(nodes, i)->0).description == Some(stripped(element_value(nodes, k)->0)),
{
    lemma_nothing_named(nodes, i, "description"@);
    if first_own(nodes, i, k, "summary"@) {
        law_own_elements_come_first(nodes, i, k, "summary"@);
    }
    if forall|j: int| !(#[trigger] named_child(nodes, i, j, "summary"@)) {
        lemma_nothing_named(nodes, i, "summary"@);
    }
    if first_own(nodes, i, k, "content"@) {
        law_own_elements_come_first(nodes, i, k, "content"@);
    }
}

proof fn lemma_nothing_named(nodes: Seq<Node>, i: int, name: Seq<char>)
    requires
        forall|j: int| !(#[trigger] named_child(nodes, i, j, name)),
    ensures
        child_value(nodes, i, name) is None,
{
    assert forall|j: int| !(#[trigger] own_child(nodes, i, j, name)) by {
        assert(!named_child(nodes, i, j, name));
    }
    law_extensions_fill_in(nodes, i, name);
}

/// An episode came out when its `pubDate` says, if that can be read; else when
/// its `published` says, and else when its `updated` says.
pub proof fn law_dates_are_tried_in_order(nodes: Seq<Node>, i: int, k: int)
    requires
        item_at(nodes, i) is Some,
        element_value(nodes, k) is Some,
    ensures
        ({
            let said = element_value(nodes, k)->0;
            let published = (item_at(nodes, i)->0).published;
            let undated = forall|j: int| !(#[trigger] named_child(nodes, i, j, "pubDate"@));
            let unpublished = forall|j: int| !(#[trigger] named_child(nodes, i, j, "published"@));
            &&& first_own(nodes, i, k, "pubDate"@) && rss_date(said) is Some ==> published
                == rss_date(said)
            &&& undated && first_own(nodes, i, k, "published"@) && atom_date(said) is Some
                ==> published == atom_date(said)
            &&& undated && unpublished && first_own(nodes, i, k, "updated"@) ==> published
                == atom_date(said)
        }),
{
    if first_own(nodes, i, k, "pubDate"@) {
        law_own_elements_come_first(nodes, i, k, "pubDate"@);
    }
    if first_own(nodes, i, k, "published"@) {
        law_own_elements_come_first(nodes, i, k, "published"@);
    }
    if first_own(nodes, i, k, "updated"@) {
        law_own_elements_come_first(nodes, i, k, "updated"@);
    }
    if forall|j: int| !(#[trigger] named_child(nodes, i, j, "pubDate"@)) {
        lemma_nothing_named(nodes, i, "pubDate"@);
    }
    if forall|j: int| !(#[trigger] named_child(nodes, i, j, "published"@)) {
        lemma_nothing_named(nodes, i, "published"@);
    }
}

/// Text that is split over several nodes runs together in order, and nothing but
/// text counts.
pub proof fn law_split_text_runs_together(nodes: Seq<Node>, j: int, m: int, end: int)
    requires
        j <= m <= end,
    ensures
        gathered_text(nodes, j, end) == gathered_text(nodes, j, m) + gathered_text(nodes, m, end),
        gathered_text(nodes, j, j) == Seq::<char>::empty(),
        gathered_text(nodes, j, j + 1) == (if nodes[j].is_text {
            nodes[j].text
        } else {
            Seq::empty()
        }),
    decreases end - m,
{
    assert(gathered_text(nodes, j, j) =~= Seq::empty());
    assert(gathered_text(nodes, j, j + 1) =~= (if nodes[j].is_text {
        nodes[j].text
    } else {
        Seq::empty()
    }));
    if m < end {
        law_split_text_runs_together(nodes, j, m, end - 1);
    }
    assert(gathered_text(nodes, j, end) =~= gathered_text(nodes, j, m) + gathered_text(
        nodes,
        m,
        end,
    ));
}

/// An element says what stands below it and nothing that stands after: the text
/// of the nodes up to the first that is not below it.
pub proof fn law_elements_say_what_is_in_them(nodes: Seq<Node>, i: int, end: int)
    requires
        0 <= i < end <= nodes.len(),
        forall|j: int| i < j < end ==> ((#[trigger] nodes[j]).parent matches Some(p) && p >= i),
        end < nodes.len() ==> !(nodes[end].parent matches Some(p) && p >= i),
    ensures
        ({
            let said = trim(gathered_text(nodes, i, end));
            element_value(nodes, i) == (if said.len() > 0 {
                Some(said)
            } else {
                None
            })
        }),
{
    lemma_subtree_end(nodes, i, i + 1, end);
}

proof fn lemma_subtree_end(nodes: Seq<Node>, i: int, j: int, end: int)
    requires
        0 <= i < j <= end <= nodes.len(),
        forall|k: int| j <= k < end ==> ((#[trigger] nodes[k]).parent matches Some(p) && p >= i),
        end < nodes.len() ==> !(nodes[end].parent matches Some(p) && p >= i),
    ensures
        subtree_end(nodes, i, j) == end,
    decreases end - j,
{
    if j < end {
        assert(nodes[j].parent matches Some(p) && p >= i);
        lemma_subtree_end(nodes, i, j + 1, end);
    }
}

/// Whether an element offers media: an RSS `enclosure`, or an Atom `link` whose
/// relation is one. `at` is the attribute its URL is in.
pub open spec fn offers_media(node: Node, at: Seq<char>) -> bool {
    ||| node.name == "enclosure"@ && at == "url"@
    ||| node.name == "link"@ && at == "href"@ && (attribute(node.attributes, "rel"@) matches Some(r)
        && lower(r) == "enclosure"@)
}

/// An item's media is the first it offers over `http` or `https`: the URL it
/// gives, the size if it gives one that is not zero, and the kind if it gives
/// one. What it offers elsewhere is passed over.
pub proof fn law_media_is_the_first_that_can_be_fetched(
    nodes: Seq<Node>,
    i: int,
    k: int,
    at: Seq<char>,
    url: Seq<char>,
)
    requires
        i < k < subtree_end(nodes, i, i + 1),
        nodes[k].is_element && nodes[k].parent == Some(i),
        offers_media(nodes[k], at),
        attribute(nodes[k].attributes, at) == Some(url),
        http_url(trim(url)),
        forall|j: int, a: Seq<char>|
            i < j < k && (#[trigger] nodes[j]).is_element && nodes[j].parent == Some(i)
                && #[trigger] offers_media(nodes[j], a) ==> (attribute(nodes[j].attributes, a)
                matches Some(u) && !http_url(trim(u))),
    ensures
        media_of(nodes, i) matches Some(m) && {
            &&& m.url == trim(url)
            &&& match attribute(nodes[k].attributes, "length"@) {
                Some(l) => match unsigned_number(trim(l), u64::MAX as int) {
                    Some(n) => if n == 0 {
                        m.length is None
                    } else {
                        m.length == Some(n as u64)
                    },
                    None => m.length is None,
                },
                None => m.length is None,
            }
            &&& match attribute(nodes[k].attributes, "type"@) {
                Some(t) if trim(t).len() > 0 => m.mime == Some(trim(t)),
                _ => m.mime is None,
            }
        },
{
    lemma_lower_literals();
    lemma_first_media(nodes, i, i + 1, subtree_end(nodes, i, i + 1), k, at, url);
}

proof fn lemma_lower_literals()
    ensures
        lower("enclosure"@) == "enclosure"@,
        "enclosure"@ != "link"@,
{
    reveal_strlit("enclosure");
    reveal_strlit("link");
    assert(lower("enclosure"@) =~= "enclosure"@);
    assert("enclosure"@.len() != "link"@.len());
}

proof fn lemma_first_media(
    nodes: Seq<Node>,
    i: int,
    from: int,
    end: int,
    k: int,
    at: Seq<char>,
    url: Seq<char>,
)
    requires
        i < from <= k < end,
        nodes[k].is_element && nodes[k].parent == Some(i),
        offers_media(nodes[k], at),
        attribute(nodes[k].attributes, at) == Some(url),
        http_url(trim(url)),
        forall|j: int, a: Seq<char>|
            from <= j < k && (#[trigger] nodes[j]).is_element && nodes[j].parent == Some(i)
                && #[trigger] offers_media(nodes[j], a) ==> (attribute(nodes[j].attributes, a)
                matches Some(u) && !http_url(trim(u))),
    ensures
        media_from(nodes, i, from, end) == Some(
            Media {
                url: trim(url),
                length: declared_length(nodes[k]),
                mime: trimmed_text(attribute(nodes[k].attributes, "type"@)),
            },
        ),
    decreases k - from,
{
    lemma_lower_literals();
    if from < k {
        if child_element(nodes, i, from) {
            if let Some(a) = media_attribute(nodes[from]) {
                assert(offers_media(nodes[from], a));
            }
        }
        lemma_first_media(nodes, i, from + 1, end, k, at, url);
    } else {
        assert(media_attribute(nodes[k]) == Some(at));
    }
}

/// An item that offers nothing is no episode.
pub proof fn law_items_without_media_are_left_out(nodes: Seq<Node>, i: int)
    requires
        forall|j: int, a: Seq<char>|
            i < j && (#[trigger] nodes[j]).is_element && nodes[j].parent == Some(i) ==> !(
            #[trigger] offers_media(nodes[j], a)),
    ensures
        item_at(nodes, i) is None,
{
    lemma_no_media(nodes, i, i + 1, subtree_end(nodes, i, i + 1));
}

proof fn lemma_no_media(nodes: Seq<Node>, i: int, from: int, end: int)
    requires
        i < from,
        forall|j: int, a: Seq<char>|
            i < j && (#[trigger] nodes[j]).is_element && nodes[j].parent == Some(i) ==> !(
            #[trigger] offers_media(nodes[j], a)),
    ensures
        media_from(nodes, i, from, end) is None,
    decreases end - from,
{
    lemma_lower_literals();
    if from < end {
        if child_element(nodes, i, from) {
            if let Some(a) = media_attribute(nodes[from]) {
                assert(offers_media(nodes[from], a));
            }
        }
        lemma_no_media(nodes, i, from + 1, end);
    }
}

/// Whether the node at `j` is an RSS item or an Atom entry right below `c`.
pub open spec fn item_element(nodes: Seq<Node>, c: int, j: int) -> bool {
    &&& nodes[j].is_element
    &&& nodes[j].parent == Some(c)
    &&& (nodes[j].name == "item"@ || nodes[j].name == "entry"@)
}

/// The episodes of a feed are those of the first channel below its root, and
/// where there is no channel those of the root itself.
pub proof fn law_items_are_the_channels(nodes: Seq<Node>, root: int, channel: int)
    requires
        0 < root < nodes.len(),
        nodes[root].is_element && nodes[root].parent == Some(0int),
        forall|j: int| 0 < j < root ==> !(#[trigger] nodes[j]).is_element || nodes[j].parent != Some(
            0int,
        ),
    ensures
        root < channel < subtree_end(nodes, root, root + 1) && nodes[channel].is_element
            && nodes[channel].parent == Some(root) && nodes[channel].name == "channel"@ && (forall|
            j: int,
        |
            root < j < channel && (#[trigger] nodes[j]).is_element && nodes[j].parent == Some(root)
                ==> nodes[j].name != "channel"@) ==> feed_items(nodes) == reading(
            nodes,
            channel,
            subtree_end(nodes, channel, channel + 1),
        ).items,
        (forall|j: int|
            root < j && (#[trigger] nodes[j]).is_element && nodes[j].parent == Some(root)
                ==> nodes[j].name != "channel"@) ==> feed_items(nodes) == reading(
            nodes,
            root,
            subtree_end(nodes, root, root + 1),
        ).items,
{
    lemma_first_child(nodes, 0, 1, nodes.len() as int, None, root);
    let end = subtree_end(nodes, root, root + 1);
    if root < channel < end && nodes[channel].is_element && nodes[channel].parent == Some(root)
        && nodes[channel].name == "channel"@ && (forall|j: int|
        root < j < channel && (#[trigger] nodes[j]).is_element && nodes[j].parent == Some(root)
            ==> nodes[j].name != "channel"@) {
        lemma_first_child(nodes, root, root + 1, end, Some("channel"@), channel);
    }
    if forall|j: int|
        root < j && (#[trigger] nodes[j]).is_element && nodes[j].parent == Some(root)
            ==> nodes[j].name != "channel"@ {
        lemma_no_child(nodes, root, root + 1, end, "channel"@);
    }
}

proof fn lemma_first_child(
    nodes: Seq<Node>,
    i: int,
    from: int,
    end: int,
    name: Option<Seq<char>>,
    k: int,
)
    requires
        i < from <= k < end,
        child_element(nodes, i, k),
        name matches Some(n) ==> nodes[k].name == n,
        forall|j: int|
            from <= j < k && #[trigger] child_element(nodes, i, j) ==> (name matches Some(n)
                && nodes[j].name != n),
    ensures
        first_child(nodes, i, from, end, name) == Some(k),
    decreases k - from,
{
    if from < k {
        assert(child_element(nodes, i, from) ==> (name matches Some(n) && nodes[from].name != n));
        lemma_first_child(nodes, i, from + 1, end, name, k);
    }
}

proof fn lemma_no_child(nodes: Seq<Node>, i: int, from: int, end: int, name: Seq<char>)
    requires
        i < from,
        forall|j: int|
            i < j && (#[trigger] nodes[j]).is_element && nodes[j].parent == Some(i)
                ==> nodes[j].name != name,
    ensures
        first_child(nodes, i, from, end, Some(name)) is None,
    decreases end - from,
{
    if from < end {
        lemma_no_child(nodes, i, from + 1, end, name);
    }
}

/// Every item with media is listed once, the first of those that are the same
/// episode: same guid, or where there is none same URL. What is listed keeps the
/// order of the feed.
pub proof fn law_every_item_is_listed(nodes: Seq<Node>, c: int, end: int) -> (places: Seq<int>)
    ensures
        places.len() == reading(nodes, c, end).items.len(),
        forall|k: int, l: int|
            0 <= k < l < places.len() ==> #[trigger] places[k] < #[trigger] places[l]
                && !same_episode(nodes, places[k], places[l]),
        forall|k: int|
            0 <= k < places.len() ==> c < #[trigger] places[k] < end && item_element(
                nodes,
                c,
                places[k],
            ) && item_at(nodes, places[k]) == Some(reading(nodes, c, end).items[k]),
        forall|j: int|
            c < j < end && #[trigger] item_element(nodes, c, j) && item_at(nodes, j) is Some ==> exists|
                k: int,
            |
                0 <= k < places.len() && #[trigger] places[k] <= j && same_episode(
                    nodes,
                    places[k],
                    j,
                ),
{
    let places = lemma_listed(nodes, c, end);
    law_episodes_are_distinct(nodes, c, end);
    let keys = reading(nodes, c, end).keys;
    assert forall|j: int| #[trigger] item_element(nodes, c, j) == is_item(nodes, c, j) by {}
    assert forall|k: int, l: int| 0 <= k < l < places.len() implies #[trigger] places[k]
        < #[trigger] places[l] && !same_episode(nodes, places[k], places[l]) by {
        assert(keys[k] != keys[l]);
    }
    places
}

proof fn lemma_listed(nodes: Seq<Node>, c: int, end: int) -> (places: Seq<int>)
    ensures
        places.len() == reading(nodes, c, end).items.len(),
        places.len() == reading(nodes, c, end).keys.len(),
        forall|k: int, l: int|
            0 <= k < l < places.len() ==> #[trigger] places[k] < #[trigger] places[l],
        forall|k: int|
            0 <= k < places.len() ==> c < #[trigger] places[k] < end && is_item(
                nodes,
                c,
                places[k],
            ) && item_at(nodes, places[k]) == Some(reading(nodes, c, end).items[k]) && reading(
                nodes,
                c,
                end,
            ).keys[k] == identity(nodes, places[k], (item_at(nodes, places[k])->0).url),
        forall|j: int|
            c < j < end && #[trigger] is_item(nodes, c, j) && item_at(nodes, j) is Some ==> exists|
                k: int,
            |
                0 <= k < places.len() && #[trigger] places[k] <= j && same_episode(
                    nodes,
                    places[k],
                    j,
                ),
    decreases end - c,
{
    if end <= c + 1 {
        Seq::empty()
    } else {
        let j = end - 1;
        let before = lemma_listed(nodes, c, j);
        let was = reading(nodes, c, j);
        let now = reading(nodes, c, end);
        let places = if now.items.len() > was.items.len() {
            before.push(j)
        } else {
            before
        };
        assert forall|i: int| c < i < end && #[trigger] is_item(nodes, c, i) && item_at(
            nodes,
            i,
        ) is Some implies exists|k: int|
            0 <= k < places.len() && #[trigger] places[k] <= i && same_episode(
                nodes,
                places[k],
                i,
            ) by {
            if i < j {
                let k = choose|k: int|
                    0 <= k < before.len() && #[trigger] before[k] <= i && same_episode(
                        nodes,
                        before[k],
                        i,
                    );
                assert(places[k] == before[k]);
            } else if places.len() > before.len() {
                assert(places[before.len() as int] == j);
            } else {
                let key = identity(nodes, j, (item_at(nodes, j)->0).url);
                assert(was.keys.contains(key));
                let k = choose|k: int| 0 <= k < was.keys.len() && was.keys[k] == key;
                assert(places[k] == before[k]);
            }
        }
        places
    }
}

/// Whether two items are the same episode: they have the same guid, whatever the
/// case, or where there is none the same URL.
pub open spec fn same_episode(nodes: Seq<Node>, a: int, b: int) -> bool {
    match (item_at(nodes, a), item_at(nodes, b)) {
        (Some(x), Some(y)) => lower(
            match child_value(nodes, a, "guid"@) {
                Some(g) => g,
                None => x.url,
            },
        ) == lower(
            match child_value(nodes, b, "guid"@) {
                Some(g) => g,
                None => y.url,
            },
        ),
        _ => false,
    }
}

/// No two episodes of a feed share what they are told apart by.
pub proof fn law_episodes_are_distinct(nodes: Seq<Node>, c: int, end: int)
    ensures
        reading(nodes, c, end).keys.len() == reading(nodes, c, end).items.len(),
        reading(nodes, c, end).keys.no_duplicates(),
    decreases end - c,
{
    if end > c + 1 {
        law_episodes_are_distinct(nodes, c, end - 1);
        let before = reading(nodes, c, end - 1).keys;
        let after = reading(nodes, c, end).keys;
        if after.len() > before.len() {
            let key = after.last();
            assert(!before.contains(key));
            assert forall|i: int, j: int|
                0 <= i < after.len() && 0 <= j < after.len() && i != j implies after[i]
                != after[j] by {
                if i < before.len() && j == before.len() {
                    assert(before.contains(before[i]));
                }
                if j < before.len() && i == before.len() {
                    assert(before.contains(before[j]));
                }
            }
        }
    }
}

proof fn lemma_reading(nodes: Seq<Node>, c: int, end: int)
    ensures
        forall|k: int|
            0 <= k < reading(nodes, c, end).items.len() ==> http_url(
                (#[trigger] reading(nodes, c, end).items[k]).url,
            ) && reading(nodes, c, end).items[k].length != Some(0u64),
    decreases end - c,
{
    if end > c + 1 {
        lemma_reading(nodes, c, end - 1);
        let before = reading(nodes, c, end - 1).items;
        let after = reading(nodes, c, end).items;
        assert(forall|k: int| 0 <= k < before.len() ==> #[trigger] after[k] == before[k]);
        if after.len() > before.len() {
            lemma_media(nodes, end - 1, end, subtree_end(nodes, end - 1, end));
        }
    }
}

proof fn lemma_media(nodes: Seq<Node>, i: int, j: int, end: int)
    ensures
        match media_from(nodes, i, j, end) {
            Some(m) => http_url(m.url) && m.length != Some(0u64),
            None => true,
        },
    decreases end - j,
{
    if j < end {
        lemma_media(nodes, i, j + 1, end);
    }
}

} // verus!
