//! The parsed XML document model the converter walks: elements with their
//! attributes and children, text runs, and a catch-all for node kinds the
//! schema rejects (comments, processing instructions). Each node carries the
//! source position its diagnostics report.
//!
//! Parsing itself is the XML parser's job; `parse_xml` wraps it and returns
//! this model of the document's root element.

use vstd::prelude::*;

verus! {

/// A line/column position in the source text.
#[derive(Debug, PartialEq, Eq, Clone, Copy, Structural)]
pub struct TextPosition {
    pub row: u32,
    pub col: u32,
}

/// One node of the parsed document.
#[derive(Debug)]
pub enum XmlNode {
    Element {
        tag: String,
        attrs: Vec<(String, String)>,
        children: Vec<XmlNode>,
        pos: TextPosition,
    },
    Text { text: String, pos: TextPosition },
    Other { pos: TextPosition },
}

/// The ghost counterpart of [`XmlNode`].
#[verifier::ext_equal]
pub enum XmlNodeView {
    Element {
        tag: Seq<char>,
        attrs: Seq<(Seq<char>, Seq<char>)>,
        children: Seq<XmlNodeView>,
        pos: TextPosition,
    },
    Text { text: Seq<char>, pos: TextPosition },
    Other { pos: TextPosition },
}

/// The view of an attribute list: each name/value pair as character
/// sequences, in document order.
pub open spec fn attrs_view(attrs: Seq<(String, String)>) -> Seq<(Seq<char>, Seq<char>)> {
    Seq::new(attrs.len(), |i: int| (attrs[i].0@, attrs[i].1@))
}

/// The view of a node, spelled out variant by variant.
pub open spec fn xml_view(n: XmlNode) -> XmlNodeView
    decreases n,
{
    match n {
        XmlNode::Element { tag, attrs, children, pos } => XmlNodeView::Element {
            tag: tag@,
            attrs: attrs_view(attrs@),
            children: Seq::new(
                children@.len(),
                |i: int|
                    if 0 <= i < children@.len() {
                        xml_view(children@[i])
                    } else {
                        XmlNodeView::Other { pos: TextPosition { row: 0, col: 0 } }
                    },
            ),
            pos: pos,
        },
        XmlNode::Text { text, pos } => XmlNodeView::Text { text: text@, pos: pos },
        XmlNode::Other { pos } => XmlNodeView::Other { pos: pos },
    }
}

impl View for XmlNode {
    type V = XmlNodeView;

    open spec fn view(&self) -> XmlNodeView {
        xml_view(*self)
    }
}

impl XmlNodeView {
    /// The source position the node reports in diagnostics.
    pub open spec fn position(self) -> TextPosition {
        match self {
            XmlNodeView::Element { pos, .. } => pos,
            XmlNodeView::Text { pos, .. } => pos,
            XmlNodeView::Other { pos } => pos,
        }
    }
}

/// What parsing a document yields: the model of its root element, or the
/// parser's diagnostic message. Parsing is a function of the input text
/// alone, so the outcome bears a name the parse wrapper's contract speaks of.
pub uninterp spec fn parsed_document(s: Seq<char>) -> Result<XmlNodeView, Seq<char>>;

#[verifier::external_type_specification]
#[verifier::external_body]
pub struct ExRoxmlNode<'a, 'input: 'a>(roxmltree::Node<'a, 'input>);

/// Relies on `roxmltree::Node` accessors (`node_type`, `tag_name`,
/// `attributes`, `children`, `text`, `range`) and
/// `roxmltree::Document::text_pos_at` to mirror one parsed node and its
/// descendants into the model, one for one and in document order.
#[verifier::external_body]
fn model_node(node: roxmltree::Node) -> XmlNode {
    let p = node.document().text_pos_at(node.range().start);
    let pos = TextPosition { row: p.row, col: p.col };
    match node.node_type() {
        roxmltree::NodeType::Element => XmlNode::Element {
            tag: node.tag_name().name().to_string(),
            attrs: node.attributes().map(|a| (a.name().to_string(), a.value().to_string())).collect(),
            children: node.children().map(model_node).collect(),
            pos,
        },
        roxmltree::NodeType::Text => XmlNode::Text {
            text: node.text().unwrap_or("").to_string(),
            pos,
        },
        _ => XmlNode::Other { pos },
    }
}

/// Relies on `roxmltree::Document::parse`: the parse outcome is a
/// deterministic function of the input text; on success,
/// `Document::root_element` returns the document's root element node.
#[verifier::external_body]
pub fn parse_xml(text: &str) -> (r: Result<XmlNode, String>)
    ensures
        match r {
            Ok(root) => parsed_document(text@) == Ok::<XmlNodeView, Seq<char>>(root@) && root@
                is Element,
            Err(m) => parsed_document(text@) == Err::<XmlNodeView, Seq<char>>(m@),
        },
{
    match roxmltree::Document::parse(text) {
        Ok(doc) => Ok(model_node(doc.root_element())),
        Err(e) => Err(format!("{}", e)),
    }
}

} // verus!
