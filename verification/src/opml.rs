//! OPML subscription-list parsing.
//!
//! Every podcast app exports a slightly different OPML dialect, so we stay
//! permissive: walk the whole tree and treat any `outline` carrying a feed URL
//! attribute as a subscription, regardless of nesting or `type`.

use crate::text::chars_of;
use crate::text::lower;
use crate::text::owned;
use crate::text::same;
use crate::text::same_str;
use crate::text::string_of;
use crate::text::to_lower;
use crate::text::trim;
use crate::text::trimmed;
use crate::text::views;
use crate::util::http_url;
use crate::util::is_http;
use crate::xml::attribute;
use crate::xml::find_attribute;
use crate::xml::node_list;
use crate::xml::parse_document;
use crate::xml::trim_text;
use crate::xml::trimmed_text;
use crate::xml::without_mark;
use crate::xml::xml_nodes;
use crate::xml::Node;
use crate::xml::XmlNode;
use vstd::prelude::*;

verus! {

#[derive(Debug, Clone, PartialEq, Eq)]
pub struct Subscription {
    pub title: String,
    pub url: String,
}

/// What a subscription says.
pub struct Listing {
    pub title: Seq<char>,
    pub url: Seq<char>,
}

impl View for Subscription {
    type V = Listing;

    open spec fn view(&self) -> Listing {
        Listing { title: self.title@, url: self.url@ }
    }
}

/// What a list of subscriptions says.
pub open spec fn listings(v: Seq<Subscription>) -> Seq<Listing> {
    v.map_values(|s: Subscription| s@)
}

/// Why a subscription list could not be read.
#[derive(Debug)]
pub enum OpmlError {
    /// The file could not be read; the text says why.
    Io(String),
    /// The file is not XML; the text says why.
    Xml(String),
    Empty,
}

impl OpmlError {
    /// The error in words.
    pub fn message(&self) -> (r: String)
        ensures
            match self {
                OpmlError::Io(e) => r@ == "could not read file: "@ + e@,
                OpmlError::Xml(e) => r@ == "not valid XML: "@ + e@,
                OpmlError::Empty => r@ == "no feeds found in this OPML file"@,
            },
    {
        match self {
            OpmlError::Io(e) => {
                let mut s = owned("could not read file: ");
                s.push_str(e.as_str());
                s
            },
            OpmlError::Xml(e) => {
                let mut s = owned("not valid XML: ");
                s.push_str(e.as_str());
                s
            },
            OpmlError::Empty => owned("no feeds found in this OPML file"),
        }
    }
}

/// The URL an outline gives for its feed, if it gives one: a container outline
/// (a folder or a category) gives none.
pub open spec fn outline_url(node: Node) -> Option<Seq<char>> {
    match attribute(node.attributes, "xmlUrl"@) {
        Some(u) => Some(u),
        None => attribute(node.attributes, "url"@),
    }
}

/// What an outline calls its feed.
pub open spec fn outline_title(node: Node) -> Seq<char> {
    let given = match attribute(node.attributes, "text"@) {
        Some(t) => Some(t),
        None => attribute(node.attributes, "title"@),
    };
    match trimmed_text(given) {
        Some(t) => t,
        None => "Untitled Podcast"@,
    }
}

/// The subscription that a node is, if it is one: an `outline` with a URL that
/// can be fetched.
pub open spec fn subscription(node: Node) -> Option<Listing> {
    if !node.is_element || node.name != "outline"@ {
        None
    } else {
        match outline_url(node) {
            Some(u) if http_url(trim(u)) => Some(
                Listing { title: outline_title(node), url: trim(u) },
            ),
            _ => None,
        }
    }
}

/// Whether a URL is among those listed, whatever the case.
pub open spec fn listed(subs: Seq<Listing>, url: Seq<char>) -> bool {
    exists|i: int| 0 <= i < subs.len() && lower(#[trigger] subs[i].url) == lower(url)
}

/// The subscriptions among the first `n` nodes. The same feed can appear in
/// several categories; the first is kept.
pub open spec fn subscriptions(nodes: Seq<Node>, n: int) -> Seq<Listing>
    decreases n,
{
    if n <= 0 {
        Seq::empty()
    } else {
        let before = subscriptions(nodes, n - 1);
        match subscription(nodes[n - 1]) {
            Some(s) if !listed(before, s.url) => before.push(s),
            _ => before,
        }
    }
}

/// Reads a subscription off a node.
fn read_outline(node: &XmlNode) -> (r: Option<Subscription>)
    ensures
        match r {
            Some(s) => subscription(node@) == Some(s@),
            None => subscription(node@) is None,
        },
{
    if !node.is_element || !same_str(node.name.as_str(), "outline") {
        return None;
    }
    let url = match find_attribute(node, "xmlUrl") {
        Some(u) => u,
        None => match find_attribute(node, "url") {
            Some(u) => u,
            // A container outline (a folder/category), not a feed.
            None => return None,
        },
    };
    let cs = chars_of(url);
    let bare = trimmed(cs.as_slice());
    if !is_http(bare) {
        return None;
    }
    let given = match find_attribute(node, "text") {
        Some(t) => Some(t),
        None => find_attribute(node, "title"),
    };
    let title = match trim_text(given) {
        Some(t) => t,
        None => owned("Untitled Podcast"),
    };
    Some(Subscription { title, url: string_of(bare) })
}

/// The subscriptions in a parsed document.
pub fn subscriptions_in(nodes: &Vec<XmlNode>) -> (r: Result<Vec<Subscription>, OpmlError>)
    ensures
        match r {
            Ok(subs) => listings(subs@) == subscriptions(node_list(nodes@), nodes@.len() as int)
                && subs@.len() > 0,
            Err(e) => e is Empty && subscriptions(node_list(nodes@), nodes@.len() as int).len()
                == 0,
        },
{
    let ghost all = node_list(nodes@);
    let mut subs: Vec<Subscription> = Vec::new();
    let mut seen: Vec<Vec<char>> = Vec::new();
    let mut i: usize = 0;
    assert(listings(subs@) =~= subscriptions(all, 0));
    while i < nodes.len()
        invariant
            i <= nodes@.len(),
            all == node_list(nodes@),
            listings(subs@) == subscriptions(all, i as int),
            seen@.len() == subs@.len(),
            forall|k: int| 0 <= k < seen@.len() ==> (#[trigger] seen@[k])@ == lower(subs@[k].url@),
        decreases nodes@.len() - i,
    {
        let ghost before = subs@;
        let ghost old_listings = listings(subs@);
        assert(all[i as int] == nodes@[i as int]@);
        if let Some(s) = read_outline(&nodes[i]) {
            // The same feed can appear in several categories; keep the first.
            let cs = chars_of(s.url.as_str());
            let key = to_lower(cs.as_slice());
            if !is_among(&seen, key.as_slice()) {
                proof {
                    assert forall|k: int| 0 <= k < old_listings.len() implies lower(
                        #[trigger] old_listings[k].url,
                    ) != lower(s.url@) by {
                        assert(old_listings[k] == subs@[k]@);
                        assert(seen@[k]@ == lower(subs@[k].url@));
                        assert(views(seen@)[k] == seen@[k]@);
                    }
                }
                seen.push(key);
                subs.push(s);
                assert(listings(subs@) =~= old_listings.push(s@));
            } else {
                proof {
                    let k = choose|k: int| 0 <= k < seen@.len() && views(seen@)[k] == key@;
                    assert(views(seen@).contains(key@));
                    assert(views(seen@)[k] == seen@[k]@);
                    assert(old_listings[k] == subs@[k]@);
                    assert(lower(old_listings[k].url) == lower(s.url@));
                }
            }
        }
        i += 1;
    }
    if subs.len() == 0 {
        return Err(OpmlError::Empty);
    }
    Ok(subs)
}

/// Whether a text is among those in a list.
pub fn is_among(list: &Vec<Vec<char>>, key: &[char]) -> (b: bool)
    ensures
        b == views(list@).contains(key@),
{
    let mut i: usize = 0;
    while i < list.len()
        invariant
            i <= list@.len(),
            forall|k: int| 0 <= k < i ==> #[trigger] views(list@)[k] != key@,
        decreases list@.len() - i,
    {
        if same(list[i].as_slice(), key) {
            assert(views(list@)[i as int] == key@);
            return true;
        }
        assert(views(list@)[i as int] == list@[i as int]@);
        i += 1;
    }
    false
}

/// The subscriptions in the text of a list.
pub fn parse_str(text: &str) -> (r: Result<Vec<Subscription>, OpmlError>)
    ensures
        match xml_nodes(without_mark(text@)) {
            Err(why) => r matches Err(OpmlError::Xml(e)) && e@ == why,
            Ok(nodes) => {
                let subs = subscriptions(nodes, nodes.len() as int);
                match r {
                    Ok(v) => subs.len() > 0 && listings(v@) == subs,
                    Err(e) => subs.len() == 0 && e is Empty,
                }
            },
        },
{
    match parse_document(text) {
        Ok(nodes) => subscriptions_in(&nodes),
        Err(e) => Err(OpmlError::Xml(e)),
    }
}

/// Whatever a list says, what is read from it can be fetched: every URL is
/// `http` or `https` with no space around it, no URL is listed twice whatever
/// its case, and no title is blank.
pub proof fn law_subscriptions_are_distinct_and_fetchable(nodes: Seq<Node>, n: int)
    ensures
        forall|i: int| 0 <= i < subscriptions(nodes, n).len() ==> http_url(
            (#[trigger] subscriptions(nodes, n)[i]).url,
        ) && subscriptions(nodes, n)[i].title.len() > 0,
        forall|i: int, j: int|
            0 <= i < j < subscriptions(nodes, n).len() ==> lower(
                (#[trigger] subscriptions(nodes, n)[i]).url,
            ) != lower((#[trigger] subscriptions(nodes, n)[j]).url),
    decreases n,
{
    reveal_strlit("Untitled Podcast");
    if n > 0 {
        law_subscriptions_are_distinct_and_fetchable(nodes, n - 1);
        let before = subscriptions(nodes, n - 1);
        let r = subscriptions(nodes, n);
        assert(forall|i: int| 0 <= i < before.len() ==> #[trigger] r[i] == before[i]);
        if r.len() > before.len() {
            let s = r.last();
            assert(http_url(s.url) && s.title.len() > 0);
            assert forall|i: int| 0 <= i < before.len() implies lower((#[trigger] r[i]).url)
                != lower(s.url) by {
                assert(lower(before[i].url) != lower(s.url));
            }
        }
    }
}

/// A feed is listed as soon as any outline of the document names it.
pub proof fn law_every_feed_is_listed(nodes: Seq<Node>, n: int, k: int)
    requires
        0 <= k < n,
        subscription(nodes[k]) is Some,
    ensures
        listed(subscriptions(nodes, n), (subscription(nodes[k])->0).url),
    decreases n,
{
    let url = (subscription(nodes[k])->0).url;
    let before = subscriptions(nodes, n - 1);
    let after = subscriptions(nodes, n);
    if k == n - 1 {
        if !listed(before, url) {
            assert(after[before.len() as int].url == url);
        }
    } else {
        law_every_feed_is_listed(nodes, n - 1, k);
        let i = choose|i: int| 0 <= i < before.len() && lower(#[trigger] before[i].url) == lower(url);
        assert(after[i] == before[i]);
    }
}

/// An outline names its feed by its `xmlUrl`, or without one by its `url`, in any
/// case of letters and with the space around it taken off; and it is listed only
/// under a URL that can be fetched.
pub proof fn law_outlines_name_their_feed(node: Node, url: Seq<char>)
    requires
        node.is_element,
        node.name == "outline"@,
        attribute(node.attributes, "xmlUrl"@) == Some(url) || (attribute(
            node.attributes,
            "xmlUrl"@,
        ) is None && attribute(node.attributes, "url"@) == Some(url)),
    ensures
        match subscription(node) {
            Some(s) => s.url == trim(url) && http_url(trim(url)),
            None => !http_url(trim(url)),
        },
{
}

/// A podcast is called what its outline's `text` says, or without one its
/// `title`; one that says nothing is untitled.
pub proof fn law_outlines_name_their_podcast(node: Node, said: Option<Seq<char>>)
    requires
        subscription(node) is Some,
        attribute(node.attributes, "text"@) is Some ==> said == attribute(
            node.attributes,
            "text"@,
        ),
        attribute(node.attributes, "text"@) is None ==> said == attribute(
            node.attributes,
            "title"@,
        ),
    ensures
        (subscription(node)->0).title == (match said {
            Some(t) => if trim(t).len() > 0 {
                trim(t)
            } else {
                "Untitled Podcast"@
            },
            None => "Untitled Podcast"@,
        }),
{
}

/// Every outline that names a feed is listed once, in the order of the list, and
/// a feed named twice goes by what it is first called.
pub proof fn law_the_first_outline_counts(nodes: Seq<Node>, n: int) -> (places: Seq<int>)
    ensures
        places.len() == subscriptions(nodes, n).len(),
        forall|k: int, l: int|
            0 <= k < l < places.len() ==> #[trigger] places[k] < #[trigger] places[l],
        forall|k: int|
            0 <= k < places.len() ==> 0 <= #[trigger] places[k] < n && subscription(
                nodes[places[k]],
            ) == Some(subscriptions(nodes, n)[k]),
        forall|j: int|
            0 <= j < n && subscription(#[trigger] nodes[j]) is Some ==> exists|k: int|
                0 <= k < places.len() && #[trigger] places[k] <= j && lower(
                    (subscription(nodes[places[k]])->0).url,
                ) == lower((subscription(nodes[j])->0).url),
    decreases n,
{
    if n <= 0 {
        Seq::empty()
    } else {
        let j = n - 1;
        let before = law_the_first_outline_counts(nodes, j);
        let was = subscriptions(nodes, j);
        let places = if subscriptions(nodes, n).len() > was.len() {
            before.push(j)
        } else {
            before
        };
        assert forall|i: int| 0 <= i < n && subscription(#[trigger] nodes[i]) is Some implies exists|
            k: int,
        |
            0 <= k < places.len() && #[trigger] places[k] <= i && lower(
                (subscription(nodes[places[k]])->0).url,
            ) == lower((subscription(nodes[i])->0).url) by {
            if i < j {
                let k = choose|k: int|
                    0 <= k < before.len() && #[trigger] before[k] <= i && lower(
                        (subscription(nodes[before[k]])->0).url,
                    ) == lower((subscription(nodes[i])->0).url);
                assert(places[k] == before[k]);
            } else if places.len() > before.len() {
                assert(places[before.len() as int] == j);
            } else {
                let url = (subscription(nodes[j])->0).url;
                assert(listed(was, url));
                let k = choose|k: int|
                    0 <= k < was.len() && lower(#[trigger] was[k].url) == lower(url);
                assert(places[k] == before[k]);
            }
        }
        places
    }
}

} // verus!
