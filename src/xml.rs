//! The element tree of an XML document, as the loader and the AST builder
//! read it, and the one call into the XML parser.
use vstd::prelude::*;
use crate::text::{chars_of, same_text};

verus! {

#[verifier::external_type_specification]
#[verifier::external_body]
pub struct ExElement(xmltree::Element);

/// An element: its local name, its attributes in key order, and its children.
#[derive(Debug)]
pub struct XmlElement {
    pub name: String,
    pub attributes: Vec<(String, String)>,
    pub children: Vec<XmlNode>,
}

/// A child node of an element.
#[derive(Debug)]
pub enum XmlNode {
    Element(XmlElement),
    Comment(String),
    CData(String),
    Text(String),
    ProcessingInstruction(String, Option<String>),
}

/// Model of an element.
pub struct XElem {
    pub name: Seq<char>,
    pub attributes: Seq<(Seq<char>, Seq<char>)>,
    pub children: Seq<XNode>,
}

/// Model of a child node.
pub enum XNode {
    Element(XElem),
    Comment(Seq<char>),
    CData(Seq<char>),
    Text(Seq<char>),
    ProcessingInstruction(Seq<char>, Option<Seq<char>>),
}

pub open spec fn elem_model(e: XmlElement) -> XElem
    decreases e,
{
    XElem {
        name: e.name@,
        attributes: e.attributes@.map_values(|a: (String, String)| (a.0@, a.1@)),
        children: nodes_model(e.children@),
    }
}

pub open spec fn node_model(n: XmlNode) -> XNode
    decreases n,
{
    match n {
        XmlNode::Element(e) => XNode::Element(elem_model(e)),
        XmlNode::Comment(s) => XNode::Comment(s@),
        XmlNode::CData(s) => XNode::CData(s@),
        XmlNode::Text(s) => XNode::Text(s@),
        XmlNode::ProcessingInstruction(t, d) => XNode::ProcessingInstruction(
            t@,
            match d {
                Some(d) => Some(d@),
                None => None,
            },
        ),
    }
}

pub open spec fn nodes_model(s: Seq<XmlNode>) -> Seq<XNode>
    decreases s,
{
    if s.len() == 0 {
        seq![]
    } else {
        nodes_model(s.drop_last()).push(node_model(s.last()))
    }
}

impl View for XmlElement {
    type V = XElem;

    open spec fn view(&self) -> XElem {
        elem_model(*self)
    }
}

pub proof fn lemma_nodes_model(s: Seq<XmlNode>)
    ensures
        nodes_model(s).len() == s.len(),
        forall|i: int| 0 <= i < s.len() ==> #[trigger] nodes_model(s)[i] == node_model(s[i]),
    decreases s.len(),
{
    if s.len() > 0 {
        lemma_nodes_model(s.drop_last());
        assert forall|i: int| 0 <= i < s.len() implies #[trigger] nodes_model(s)[i] == node_model(
            s[i],
        ) by {
            if i < s.len() - 1 {
                assert(s.drop_last()[i] == s[i]);
            }
        }
    }
}

/// The root element of the XML document `text`, attributes in key order,
/// or the parser's message where `text` is not a well-formed document.
pub uninterp spec fn xml_document_of(text: Seq<char>) -> Result<XElem, Seq<char>>;

/// Relies on `xmltree::Element::parse` (built with sorted attributes): it
/// gives the document's root element, or an error whose message names the
/// fault and its place in the text, as a function of the text alone. The XML reader rejects a text without a root element, so
/// the parse never reaches its `unreachable!`.
#[verifier::external_body]
pub(crate) fn parse_xml(text: &str) -> (r: Result<XmlElement, String>)
    ensures
        xml_document_of(text@) == match r {
            Ok(e) => Ok(e@),
            Err(m) => Err::<XElem, Seq<char>>(m@),
        },
{
    match xmltree::Element::parse(text.as_bytes()) {
        Ok(root) => Ok(tree_of(root)),
        Err(e) => Err(e.to_string()),
    }
}

/// Moves an element that `xmltree` built into the library's own tree, node
/// for node, keeping the attribute order of its map; used by `parse_xml`
/// only, which states what the result is.
#[verifier::external_body]
fn tree_of(e: xmltree::Element) -> XmlElement {
    XmlElement {
        name: e.name,
        attributes: e.attributes.into_iter().collect(),
        children: e.children.into_iter().map(|n| match n {
            xmltree::XMLNode::Element(c) => XmlNode::Element(tree_of(c)),
            xmltree::XMLNode::Comment(s) => XmlNode::Comment(s),
            xmltree::XMLNode::CData(s) => XmlNode::CData(s),
            xmltree::XMLNode::Text(s) => XmlNode::Text(s),
            xmltree::XMLNode::ProcessingInstruction(t, d) => XmlNode::ProcessingInstruction(t, d),
        }).collect(),
    }
}

/// The first child element named `name` (`Element::get_child`).
pub open spec fn child_named(nodes: Seq<XNode>, name: Seq<char>) -> Option<XElem>
    decreases nodes.len(),
{
    if nodes.len() == 0 {
        None
    } else {
        match nodes[0] {
            XNode::Element(c) if c.name == name => Some(c),
            _ => child_named(nodes.drop_first(), name),
        }
    }
}

/// The value of the attribute `key`.
pub open spec fn attribute_of(attrs: Seq<(Seq<char>, Seq<char>)>, key: Seq<char>) -> Option<
    Seq<char>,
>
    decreases attrs.len(),
{
    if attrs.len() == 0 {
        None
    } else if attrs[0].0 == key {
        Some(attrs[0].1)
    } else {
        attribute_of(attrs.drop_first(), key)
    }
}

/// The text and CDATA children, concatenated (`Element::get_text`, with
/// the empty text where there is none).
pub open spec fn text_of(nodes: Seq<XNode>) -> Seq<char>
    decreases nodes.len(),
{
    if nodes.len() == 0 {
        seq![]
    } else {
        let rest = text_of(nodes.drop_last());
        match nodes.last() {
            XNode::Text(t) => rest + t,
            XNode::CData(t) => rest + t,
            _ => rest,
        }
    }
}

/// The first child node, where it is an element.
pub open spec fn leading_element(nodes: Seq<XNode>) -> Option<XElem> {
    if nodes.len() > 0 {
        match nodes[0] {
            XNode::Element(c) => Some(c),
            _ => None,
        }
    } else {
        None
    }
}

impl XmlElement {
    /// The first child element named `name`.
    pub fn child(&self, name: &str) -> (r: Option<&XmlElement>)
        ensures
            child_named(self@.children, name@) == match r {
                Some(c) => Some(c@),
                None => None::<XElem>,
            },
    {
        let ghost m = self@.children;
        proof {
            lemma_nodes_model(self.children@);
        }
        let mut i: usize = 0;
        assert(m.subrange(0, m.len() as int) =~= m);
        while i < self.children.len()
            invariant
                i <= self.children.len(),
                m == self@.children,
                m.len() == self.children@.len(),
                forall|k: int| 0 <= k < m.len() ==> #[trigger] m[k] == node_model(self.children@[k]),
                child_named(m, name@) == child_named(m.subrange(i as int, m.len() as int), name@),
            decreases self.children.len() - i,
        {
            let ghost rest = m.subrange(i as int, m.len() as int);
            assert(rest[0] == m[i as int]);
            assert(rest.drop_first() =~= m.subrange(i + 1, m.len() as int));
            match &self.children[i] {
                XmlNode::Element(c) => {
                    if same_text(c.name.as_str(), name) {
                        return Some(c);
                    }
                },
                _ => {},
            }
            i = i + 1;
        }
        None
    }

    /// The value of the attribute `key`.
    pub fn attribute(&self, key: &str) -> (r: Option<&String>)
        ensures
            attribute_of(self@.attributes, key@) == match r {
                Some(v) => Some(v@),
                None => None::<Seq<char>>,
            },
    {
        let ghost m = self@.attributes;
        let mut i: usize = 0;
        assert(m.subrange(0, m.len() as int) =~= m);
        while i < self.attributes.len()
            invariant
                i <= self.attributes.len(),
                m == self@.attributes,
                m.len() == self.attributes@.len(),
                forall|k: int|
                    0 <= k < m.len() ==> #[trigger] m[k] == (
                        self.attributes@[k].0@,
                        self.attributes@[k].1@,
                    ),
                attribute_of(m, key@) == attribute_of(m.subrange(i as int, m.len() as int), key@),
            decreases self.attributes.len() - i,
        {
            let ghost rest = m.subrange(i as int, m.len() as int);
            assert(rest[0] == m[i as int]);
            assert(rest.drop_first() =~= m.subrange(i + 1, m.len() as int));
            let (k, v) = &self.attributes[i];
            if same_text(k.as_str(), key) {
                return Some(v);
            }
            i = i + 1;
        }
        None
    }

    /// The concatenated text of the element's text and CDATA children.
    pub fn text(&self) -> (r: Vec<char>)
        ensures
            r@ == text_of(self@.children),
    {
        let ghost m = self@.children;
        proof {
            lemma_nodes_model(self.children@);
        }
        let mut r: Vec<char> = Vec::new();
        let mut i: usize = 0;
        while i < self.children.len()
            invariant
                i <= self.children.len(),
                m == self@.children,
                m.len() == self.children@.len(),
                forall|k: int| 0 <= k < m.len() ==> #[trigger] m[k] == node_model(self.children@[k]),
                r@ == text_of(m.take(i as int)),
            decreases self.children.len() - i,
        {
            assert(m.take(i + 1).drop_last() =~= m.take(i as int));
            assert(m.take(i + 1).last() == m[i as int]);
            match &self.children[i] {
                XmlNode::Text(t) => {
                    let cs = chars_of(t.as_str());
                    let mut j: usize = 0;
                    let ghost before = r@;
                    while j < cs.len()
                        invariant
                            j <= cs.len(),
                            r@ == before + cs@.take(j as int),
                        decreases cs.len() - j,
                    {
                        r.push(cs[j]);
                        j = j + 1;
                        assert(r@ =~= before + cs@.take(j as int));
                    }
                    assert(cs@.take(j as int) =~= cs@);
                },
                XmlNode::CData(t) => {
                    let cs = chars_of(t.as_str());
                    let mut j: usize = 0;
                    let ghost before = r@;
                    while j < cs.len()
                        invariant
                            j <= cs.len(),
                            r@ == before + cs@.take(j as int),
                        decreases cs.len() - j,
                    {
                        r.push(cs[j]);
                        j = j + 1;
                        assert(r@ =~= before + cs@.take(j as int));
                    }
                    assert(cs@.take(j as int) =~= cs@);
                },
                _ => {},
            }
            i = i + 1;
        }
        assert(m.take(i as int) =~= m);
        r
    }

    /// The first child node, where it is an element.
    pub fn leading(&self) -> (r: Option<&XmlElement>)
        ensures
            leading_element(self@.children) == match r {
                Some(c) => Some(c@),
                None => None::<XElem>,
            },
    {
        proof {
            lemma_nodes_model(self.children@);
        }
        if self.children.len() > 0 {
            match &self.children[0] {
                XmlNode::Element(c) => Some(c),
                _ => None,
            }
        } else {
            None
        }
    }
}

} // verus!
