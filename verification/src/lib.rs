//! Conversion between an XML representation of a rich-text block document and
//! the nested JSON block tree consumed by the editor, together with a
//! serializer that renders a CRDT XML fragment snapshot back into literal XML
//! text.

use vstd::prelude::*;

pub mod block;
pub mod content;
pub mod converter;
pub mod json;
pub mod laws;
pub mod serialize;
pub mod style;
pub mod text;
pub mod xml;

pub use block::Block;
pub use content::{BasicContent, Content, TableCell, TableContent, TableRow};
pub use converter::{convert_blockgroup, Error};
pub use json::JsonValue;
pub use serialize::{escape_xml_text, fragment_xml, AttrValue, FragmentNode, Mark, MarkValue,
    RunInsert, TextRun};
pub use style::Style;
pub use xml::{parse_xml, TextPosition, XmlNode};

use crate::block::{blocks_json_vec, lemma_blocks_json_from, spec_blocks_json_from};
use crate::converter::{blocks_view, spec_convert_xml, ErrorView};
use crate::json::{arr_view, lemma_array_view, JsonView};

verus! {

/// What `serde_json::to_string` renders a value of this JSON model as: a
/// deterministic function of the value.
pub uninterp spec fn json_text_of(v: JsonView) -> Seq<char>;

/// What `serde_json::to_string_pretty` renders a value of this JSON model as:
/// a deterministic function of the value.
pub uninterp spec fn json_text_pretty_of(v: JsonView) -> Seq<char>;

#[verifier::external_type_specification]
#[verifier::external_body]
pub struct ExSerdeValue(serde_json::Value);

/// Relies on `serde_json::Value`'s constructors: builds the serde value that
/// mirrors this tree, variant for variant.
#[verifier::external_body]
fn to_serde_value(v: &JsonValue) -> serde_json::Value {
    match v {
        JsonValue::Null => serde_json::Value::Null,
        JsonValue::Bool(b) => serde_json::Value::Bool(*b),
        JsonValue::Num(n) => serde_json::Value::from(*n),
        JsonValue::Str(s) => serde_json::Value::String(s.clone()),
        JsonValue::Array(a) => serde_json::Value::Array(a.iter().map(to_serde_value).collect()),
        JsonValue::Object(o) => serde_json::Value::Object(
            o.iter().map(|(k, x)| (k.clone(), to_serde_value(x))).collect(),
        ),
    }
}

/// Relies on `serde_json::to_string`: what it renders is a function of the
/// value alone, and rendering a `serde_json::Value` cannot fail (its keys are
/// strings and this model holds no non-finite numbers).
#[verifier::external_body]
fn render_json(v: &JsonValue) -> (r: String)
    ensures
        r@ == json_text_of(v@),
{
    serde_json::to_string(&to_serde_value(v)).unwrap()
}

/// Relies on `serde_json::to_string_pretty`: as for `to_string`, the rendering
/// is a function of the value alone and cannot fail.
#[verifier::external_body]
fn render_json_pretty(v: &JsonValue) -> (r: String)
    ensures
        r@ == json_text_pretty_of(v@),
{
    serde_json::to_string_pretty(&to_serde_value(v)).unwrap()
}

/// Convert a block-document XML text into the JSON block tree.
pub fn convert_to_value(xml: String) -> (r: Result<JsonValue, Error>)
    ensures
        match r {
            Result::Ok(v) => spec_convert_xml(xml@) == Result::<JsonView, ErrorView>::Ok(v@),
            Result::Err(e) => spec_convert_xml(xml@) == Result::<JsonView, ErrorView>::Err(e@),
        },
{
    match parse_xml(xml.as_str()) {
        Result::Err(m) => Result::Err(Error::ParseError(m)),
        Result::Ok(root) => {
            proof {
                match root {
                    XmlNode::Element { .. } => {},
                    XmlNode::Text { .. } => {
                        assert(false);
                    },
                    XmlNode::Other { .. } => {
                        assert(false);
                    },
                }
            }
            match convert_blockgroup(&root) {
                Result::Err(e) => Result::Err(e),
                Result::Ok(blocks) => {
                    let arr = blocks_json_vec(&blocks);
                    let ghost arrv = arr;
                    let r = JsonValue::Array(arr);
                    proof {
                        lemma_array_view(arrv);
                        lemma_blocks_json_from(blocks_view(blocks@), 0);
                        assert(arr_view(arrv@) =~= spec_blocks_json_from(
                            blocks_view(blocks@),
                            0,
                        ));
                    }
                    Result::Ok(r)
                },
            }
        },
    }
}

/// Convert a block-document XML text into the JSON block tree, rendered as a
/// JSON string.
pub fn convert_to_json(xml: String) -> (r: Result<String, Error>)
    ensures
        match r {
            Result::Ok(s) => spec_convert_xml(xml@) matches Result::Ok(j) && s@ == json_text_of(
                j,
            ),
            Result::Err(e) => spec_convert_xml(xml@) == Result::<JsonView, ErrorView>::Err(e@),
        },
{
    match convert_to_value(xml) {
        Result::Ok(v) => Result::Ok(render_json(&v)),
        Result::Err(e) => Result::Err(e),
    }
}

/// Convert a block-document XML text into the JSON block tree, rendered as a
/// pretty-printed JSON string.
pub fn convert_to_json_pretty(xml: String) -> (r: Result<String, Error>)
    ensures
        match r {
            Result::Ok(s) => spec_convert_xml(xml@) matches Result::Ok(j) && s@
                == json_text_pretty_of(j),
            Result::Err(e) => spec_convert_xml(xml@) == Result::<JsonView, ErrorView>::Err(e@),
        },
{
    match convert_to_value(xml) {
        Result::Ok(v) => Result::Ok(render_json_pretty(&v)),
        Result::Err(e) => Result::Err(e),
    }
}

} // verus!
