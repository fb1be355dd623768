use vstd::prelude::*;
use crate::errors::DatabaseIntegrityError;

verus! {

// The document tree the codec reads and writes: elements with a name,
// an optional `Protected` attribute (the only attribute the format
// reads), and a sequence of child elements and text runs. The mapping
// between raw bytes and this tree is the work of the `xmltree` crate,
// behind the trusted boundary at the end of this file.

/// An element of the document tree.
#[derive(Debug, PartialEq)]
pub struct XmlElement {
    pub name: String,
    pub protected: Option<String>,
    pub children: Vec<XmlNode>,
}

/// A child of an element: a nested element or a text run.
#[derive(Debug, PartialEq)]
pub enum XmlNode {
    Elem(XmlElement),
    Text(String),
}

/// The abstract form of an element.
#[verifier::ext_equal]
pub struct XmlElementView {
    pub name: Seq<char>,
    pub protected: Option<Seq<char>>,
    pub children: Seq<XmlNodeView>,
}

/// The abstract form of an element child.
#[verifier::ext_equal]
pub enum XmlNodeView {
    Elem(XmlElementView),
    Text(Seq<char>),
}

/// The abstract form of a sequence of element children.
pub open spec fn xml_nodes_view(s: Seq<XmlNode>) -> Seq<XmlNodeView>
    decreases s,
{
    Seq::new(
        s.len(),
        |i: int|
            if 0 <= i < s.len() {
                xml_node_view(s[i])
            } else {
                arbitrary()
            },
    )
}

/// The abstract form of an element.
pub open spec fn xml_element_view(e: XmlElement) -> XmlElementView
    decreases e,
{
    XmlElementView {
        name: e.name@,
        protected: match e.protected {
            Some(p) => Some(p@),
            None => None,
        },
        children: xml_nodes_view(e.children@),
    }
}

/// The abstract form of an element child.
pub open spec fn xml_node_view(n: XmlNode) -> XmlNodeView
    decreases n,
{
    match n {
        XmlNode::Elem(e) => XmlNodeView::Elem(xml_element_view(e)),
        XmlNode::Text(t) => XmlNodeView::Text(t@),
    }
}

impl View for XmlElement {
    type V = XmlElementView;

    open spec fn view(&self) -> XmlElementView {
        xml_element_view(*self)
    }
}

impl View for XmlNode {
    type V = XmlNodeView;

    open spec fn view(&self) -> XmlNodeView {
        xml_node_view(*self)
    }
}

/// The element tree of the `xmltree` crate.
#[verifier::external_type_specification]
#[verifier::external_body]
pub struct ExElement(xmltree::Element);

/// The document tree that raw bytes parse to: the root element with its
/// `Protected` attributes and its element and text children (comments
/// and processing instructions dropped, CDATA read as text), or `None`
/// where the bytes are not a well-formed document.
pub uninterp spec fn xml_tree_of(bytes: Seq<u8>) -> Option<XmlElementView>;

/// The raw bytes a document tree is written to, indented, or `None`
/// where the tree cannot be emitted (a name that is not a valid XML
/// name).
pub uninterp spec fn xml_bytes_of(t: XmlElementView) -> Option<Seq<u8>>;

/// The document tree of an `xmltree` element. Keeps the `Protected`
/// attribute, drops comments and processing instructions, reads CDATA
/// as text: converting, one node for one node.
#[verifier::external_body]
fn from_xmltree(e: &xmltree::Element) -> (r: XmlElement) {
    let mut children: Vec<XmlNode> = Vec::new();
    for c in e.children.iter() {
        match c {
            xmltree::XMLNode::Element(el) => children.push(XmlNode::Elem(from_xmltree(el))),
            xmltree::XMLNode::Text(t) => children.push(XmlNode::Text(t.clone())),
            xmltree::XMLNode::CData(t) => children.push(XmlNode::Text(t.clone())),
            _ => {},
        }
    }
    XmlElement {
        name: e.name.clone(),
        protected: e.attributes.get("Protected").cloned(),
        children,
    }
}

/// The `xmltree` element of a document tree: converting, one node for
/// one node.
#[verifier::external_body]
fn to_xmltree(e: &XmlElement) -> (r: xmltree::Element) {
    let mut el = xmltree::Element::new(&e.name);
    if let Some(p) = &e.protected {
        el.attributes.insert("Protected".to_string(), p.clone());
    }
    for c in e.children.iter() {
        match c {
            XmlNode::Elem(child) => el.children.push(xmltree::XMLNode::Element(to_xmltree(child))),
            XmlNode::Text(t) => el.children.push(xmltree::XMLNode::Text(t.clone())),
        }
    }
    el
}

/// Relies on xmltree::Element::parse: deterministic in the bytes; what
/// it accepts and the tree it builds are named by `xml_tree_of`.
#[verifier::external_body]
pub(crate) fn parse_xml_bytes(xml: &[u8]) -> (r: Result<XmlElement, DatabaseIntegrityError>)
    ensures
        match r {
            Ok(t) => xml_tree_of(xml@) == Some(t@),
            Err(e) => xml_tree_of(xml@) is None && e == DatabaseIntegrityError::XmlParse,
        },
{
    match xmltree::Element::parse(xml) {
        Ok(el) => Ok(from_xmltree(&el)),
        Err(_) => Err(DatabaseIntegrityError::XmlParse),
    }
}

/// Relies on xmltree's `write_with_config` over the `xml` crate's
/// emitter: deterministic in the tree; the indented document it emits
/// is named by `xml_bytes_of`.
#[verifier::external_body]
pub(crate) fn write_xml_bytes(root: &XmlElement) -> (r: Result<Vec<u8>, DatabaseIntegrityError>)
    ensures
        match r {
            Ok(out) => xml_bytes_of(root@) == Some(out@),
            Err(e) => xml_bytes_of(root@) is None && e == DatabaseIntegrityError::XmlWrite,
        },
{
    let el = to_xmltree(root);
    let mut out: Vec<u8> = Vec::new();
    let config = xmltree::EmitterConfig::new().perform_indent(true);
    match el.write_with_config(&mut out, config) {
        Ok(()) => Ok(out),
        Err(_) => Err(DatabaseIntegrityError::XmlWrite),
    }
}

} // verus!
