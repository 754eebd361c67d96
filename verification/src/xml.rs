//! XML documents as plain lists of nodes.
//!
//! The parser's own tree is opaque, so what the rest of the program reads of a
//! document is taken out of it once: every node, in document order, with its
//! parent, its name, its text and its attributes.

use crate::text::chars_of;
use crate::text::lower;
use crate::text::same;
use crate::text::strip_start;
use crate::text::string_of;
use crate::text::stripped_start;
use crate::text::to_lower;
use crate::text::trim;
use crate::text::trimmed;
use vstd::prelude::*;

verus! {

/// One attribute of an element, its name without a prefix.
#[derive(Debug, Clone)]
pub struct XmlAttribute {
    pub name: String,
    pub value: String,
}

/// One node of a document.
#[derive(Debug, Clone)]
pub struct XmlNode {
    /// The place of the node this one is a child of.
    pub parent: Option<usize>,
    pub is_element: bool,
    pub is_text: bool,
    /// An element's name, without a prefix; nothing for other nodes.
    pub name: String,
    pub namespace: Option<String>,
    /// The text of a text node or a comment; of an element, the text it begins
    /// with. Nothing for other nodes, and where there is none.
    pub text: String,
    pub attributes: Vec<XmlAttribute>,
}

/// What an attribute holds.
pub struct Attribute {
    pub name: Seq<char>,
    pub value: Seq<char>,
}

/// What a node holds.
pub struct Node {
    pub parent: Option<int>,
    pub is_element: bool,
    pub is_text: bool,
    pub name: Seq<char>,
    pub namespace: Option<Seq<char>>,
    pub text: Seq<char>,
    pub attributes: Seq<Attribute>,
}

impl View for XmlAttribute {
    type V = Attribute;

    open spec fn view(&self) -> Attribute {
        Attribute { name: self.name@, value: self.value@ }
    }
}

impl View for XmlNode {
    type V = Node;

    open spec fn view(&self) -> Node {
        Node {
            parent: match self.parent {
                Some(p) => Some(p as int),
                None => None,
            },
            is_element: self.is_element,
            is_text: self.is_text,
            name: self.name@,
            namespace: match self.namespace {
                Some(n) => Some(n@),
                None => None,
            },
            text: self.text@,
            attributes: self.attributes@.map_values(|a: XmlAttribute| a@),
        }
    }
}

/// What a list of nodes holds.
pub open spec fn node_list(v: Seq<XmlNode>) -> Seq<Node> {
    v.map_values(|n: XmlNode| n@)
}

/// What parsing gave: the nodes, or why there are none.
pub open spec fn nodes_result(r: Result<Vec<XmlNode>, String>) -> Result<Seq<Node>, Seq<char>> {
    match r {
        Ok(nodes) => Ok(node_list(nodes@)),
        Err(e) => Err(e@),
    }
}

/// The nodes of the document that a text is, or why it is not XML.
pub uninterp spec fn xml_nodes(text: Seq<char>) -> Result<Seq<Node>, Seq<char>>;

/// Parses a text with `roxmltree::Document::parse` and takes the nodes out of
/// the document in the order of `Document::descendants`, which is the order of
/// their ids. Of an error it takes the words that `roxmltree::Error` gives
/// through `Display`. Claims only that the outcome depends on nothing but the
/// text: the same nodes every time, or the same words every time.
#[verifier::external_body]
fn parse_nodes(text: &str) -> (r: Result<Vec<XmlNode>, String>)
    ensures
        nodes_result(r) == xml_nodes(text@),
{
    let doc = roxmltree::Document::parse(text).map_err(|e| e.to_string())?;
    Ok(doc.descendants().map(|n| XmlNode {
        parent: n.parent().map(|p| p.id().get_usize()),
        is_element: n.is_element(),
        is_text: n.is_text(),
        name: n.tag_name().name().to_string(),
        namespace: n.tag_name().namespace().map(|s| s.to_string()),
        text: n.text().unwrap_or_default().to_string(),
        attributes: n.attributes().map(|a| XmlAttribute {
            name: a.name().to_string(),
            value: a.value().to_string(),
        }).collect(),
    }).collect())
}

/// A text without the byte-order marks in front. Some exports carry one, which
/// the parser rejects as junk before the declaration.
pub open spec fn without_mark(text: Seq<char>) -> Seq<char> {
    strip_start(text, '\u{feff}')
}

/// The nodes of a document, which may start with a byte-order mark.
pub fn parse_document(text: &str) -> (r: Result<Vec<XmlNode>, String>)
    ensures
        nodes_result(r) == xml_nodes(without_mark(text@)),
{
    let cs = chars_of(text);
    let bare = string_of(stripped_start(cs.as_slice(), '\u{feff}'));
    parse_nodes(bare.as_str())
}

/// The value of the first attribute with this name, whatever the case. The
/// casing of attributes is inconsistent in the wild (`xmlUrl`, `xmlurl`,
/// `XMLURL`).
pub open spec fn attribute(attrs: Seq<Attribute>, name: Seq<char>) -> Option<Seq<char>>
    decreases attrs.len(),
{
    if attrs.len() == 0 {
        None
    } else if lower(attrs[0].name) == lower(name) {
        Some(attrs[0].value)
    } else {
        attribute(attrs.skip(1), name)
    }
}

/// Looks an attribute up, whatever the case of its name.
pub fn find_attribute<'a>(node: &'a XmlNode, name: &str) -> (r: Option<&'a str>)
    ensures
        match r {
            Some(v) => attribute(node@.attributes, name@) == Some(v@),
            None => attribute(node@.attributes, name@) is None,
        },
{
    let wanted = chars_of(name);
    let wanted = to_lower(wanted.as_slice());
    let mut i: usize = 0;
    let ghost all = node@.attributes;
    assert(all.skip(0) =~= all);
    while i < node.attributes.len()
        invariant
            i <= node.attributes@.len(),
            all == node@.attributes,
            wanted@ == lower(name@),
            attribute(all, name@) == attribute(all.skip(i as int), name@),
        decreases node.attributes@.len() - i,
    {
        let a = &node.attributes[i];
        let cs = chars_of(a.name.as_str());
        let low = to_lower(cs.as_slice());
        assert(all.skip(i as int)[0] == a@);
        assert(all.skip(i as int).skip(1) =~= all.skip(i + 1));
        if same(low.as_slice(), wanted.as_slice()) {
            return Some(a.value.as_str());
        }
        i += 1;
    }
    None
}

/// A text trimmed, unless nothing is left of it.
pub open spec fn trimmed_text(s: Option<Seq<char>>) -> Option<Seq<char>> {
    match s {
        Some(t) if trim(t).len() > 0 => Some(trim(t)),
        _ => None,
    }
}

/// Trims a text, and drops it when nothing is left.
pub fn trim_text(s: Option<&str>) -> (r: Option<String>)
    ensures
        match r {
            Some(t) => trimmed_text(crate::util::text_of(s)) == Some(t@),
            None => trimmed_text(crate::util::text_of(s)) is None,
        },
{
    match s {
        Some(t) => {
            let cs = chars_of(t);
            let bare = trimmed(cs.as_slice());
            if bare.len() > 0 {
                Some(string_of(bare))
            } else {
                None
            }
        },
        None => None,
    }
}

/// An attribute is found by its name whatever the case, and the first of a name
/// is the one that counts.
pub proof fn law_attributes_go_by_name(attrs: Seq<Attribute>, name: Seq<char>, k: int)
    requires
        0 <= k < attrs.len(),
        lower(attrs[k].name) == lower(name),
        forall|j: int| 0 <= j < k ==> lower(#[trigger] attrs[j].name) != lower(name),
    ensures
        attribute(attrs, name) == Some(attrs[k].value),
    decreases k,
{
    if k > 0 {
        assert(lower(attrs[0].name) != lower(name));
        let rest = attrs.skip(1);
        assert forall|j: int| 0 <= j < k - 1 implies lower(#[trigger] rest[j].name) != lower(
            name,
        ) by {
            assert(rest[j] == attrs[j + 1]);
        }
        law_attributes_go_by_name(rest, name, k - 1);
    }
}

/// Where no attribute goes by a name, there is none.
pub proof fn law_no_attribute_no_value(attrs: Seq<Attribute>, name: Seq<char>)
    requires
        forall|j: int| 0 <= j < attrs.len() ==> lower(#[trigger] attrs[j].name) != lower(name),
    ensures
        attribute(attrs, name) is None,
    decreases attrs.len(),
{
    if attrs.len() > 0 {
        assert(lower(attrs[0].name) != lower(name));
        let rest = attrs.skip(1);
        assert forall|j: int| 0 <= j < rest.len() implies lower(#[trigger] rest[j].name) != lower(
            name,
        ) by {
            assert(rest[j] == attrs[j + 1]);
        }
        law_no_attribute_no_value(rest, name);
    }
}

} // verus!
