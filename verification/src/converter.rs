//! The XML-to-block-tree converter: walks the parsed document model and
//! builds the ordered sequence of top-level blocks, recursing into nested
//! block groups, accumulating inline styles, and handing tables to the table
//! sub-converter.

use vstd::prelude::*;

use crate::block::{spec_apply_attrs_from, spec_blocks_json_from, Block, BlockView};
use crate::content::{
    attrs_as_entries, basic_view, insert_all, BasicContent, BasicContentView, Content,
    ContentView, TableCell, TableCellView, TableContent, TableRow,
};
use crate::json::{insert_entry, JsonValue, JsonView};
use crate::style::{duplicate_styles, styles_view, Style, StyleView};
use crate::text::{
    is_all_whitespace, parse_u32, spec_all_whitespace, spec_parse_uint, spec_strip_brackets,
    str_eq, strip_brackets,
};
use crate::xml::{attrs_view, xml_view, TextPosition, XmlNode, XmlNodeView};

verus! {

/// Why a conversion failed: the input was not well-formed XML at all, or it
/// was well-formed but violated this schema's structural expectations at the
/// given source position.
#[derive(Debug)]
pub enum Error {
    ParseError(String),
    MalformedDocument(String, TextPosition),
}

/// The ghost counterpart of [`Error`].
#[verifier::ext_equal]
pub enum ErrorView {
    ParseError(Seq<char>),
    MalformedDocument(Seq<char>, TextPosition),
}

impl View for Error {
    type V = ErrorView;

    open spec fn view(&self) -> ErrorView {
        match self {
            Error::ParseError(m) => ErrorView::ParseError(m@),
            Error::MalformedDocument(m, p) => ErrorView::MalformedDocument(m@, *p),
        }
    }
}

/// The views of a list of parsed nodes.
pub open spec fn nodes_view(ns: Seq<XmlNode>) -> Seq<XmlNodeView> {
    Seq::new(ns.len(), |i: int| xml_view(ns[i]))
}

/// The tag names of the recognized style wrappers.
pub open spec fn spec_is_style_tag(tag: Seq<char>) -> bool {
    tag == "bold"@ || tag == "italic"@ || tag == "underline"@ || tag == "strike"@ || tag
        == "code"@ || tag == "textColor"@ || tag == "backgroundColor"@
}

/// The value of the first attribute named `name` at or after index `i`.
pub open spec fn spec_attr_from(
    attrs: Seq<(Seq<char>, Seq<char>)>,
    name: Seq<char>,
    i: int,
) -> Option<Seq<char>>
    decreases attrs.len() - i,
{
    if i < 0 || i >= attrs.len() {
        Option::None
    } else if attrs[i].0 == name {
        Option::Some(attrs[i].1)
    } else {
        spec_attr_from(attrs, name, i + 1)
    }
}

/// The value of the first attribute named `name`.
pub open spec fn spec_attr(attrs: Seq<(Seq<char>, Seq<char>)>, name: Seq<char>) -> Option<
    Seq<char>,
> {
    spec_attr_from(attrs, name, 0)
}

/// The mark a style-wrapper tag contributes: the color-bearing wrappers read
/// their `stringValue` attribute, defaulting to the literal `default`.
pub open spec fn spec_style_of_tag(tag: Seq<char>, attrs: Seq<(Seq<char>, Seq<char>)>) -> StyleView {
    if tag == "bold"@ {
        StyleView::Bold
    } else if tag == "italic"@ {
        StyleView::Italic
    } else if tag == "underline"@ {
        StyleView::Underline
    } else if tag == "strike"@ {
        StyleView::Strike
    } else if tag == "code"@ {
        StyleView::Code
    } else if tag == "textColor"@ {
        StyleView::TextColor(
            match spec_attr(attrs, "stringValue"@) {
                Option::Some(v) => v,
                Option::None => "default"@,
            },
        )
    } else {
        StyleView::BackgroundColor(
            match spec_attr(attrs, "stringValue"@) {
                Option::Some(v) => v,
                Option::None => "default"@,
            },
        )
    }
}

/// A child a style wrapper keeps: an element, or a text run that is not all
/// whitespace (formatted XML may indent a wrapper's single real child).
pub open spec fn spec_kept(n: XmlNodeView) -> bool {
    match n {
        XmlNodeView::Element { .. } => true,
        XmlNodeView::Text { text, .. } => !spec_all_whitespace(text),
        XmlNodeView::Other { .. } => false,
    }
}

/// The index of the first kept child at or after `i`, or the length when none
/// remains.
pub open spec fn spec_first_kept_from(ns: Seq<XmlNodeView>, i: int) -> int
    decreases ns.len() - i,
{
    if i < 0 || i >= ns.len() {
        ns.len() as int
    } else if spec_kept(ns[i]) {
        i
    } else {
        spec_first_kept_from(ns, i + 1)
    }
}

/// The index of the first element child at or after `i`, or the length when
/// none remains.
pub open spec fn spec_first_elem_from(ns: Seq<XmlNodeView>, i: int) -> int
    decreases ns.len() - i,
{
    if i < 0 || i >= ns.len() {
        ns.len() as int
    } else if ns[i] is Element {
        i
    } else {
        spec_first_elem_from(ns, i + 1)
    }
}

pub proof fn lemma_first_kept_bounds(ns: Seq<XmlNodeView>, i: int)
    requires
        0 <= i <= ns.len(),
    ensures
        i <= spec_first_kept_from(ns, i) <= ns.len(),
        spec_first_kept_from(ns, i) < ns.len() ==> spec_kept(ns[spec_first_kept_from(ns, i)]),
    decreases ns.len() - i,
{
    if i < ns.len() && !spec_kept(ns[i]) {
        lemma_first_kept_bounds(ns, i + 1);
    }
}

pub proof fn lemma_first_elem_bounds(ns: Seq<XmlNodeView>, i: int)
    requires
        0 <= i <= ns.len(),
    ensures
        i <= spec_first_elem_from(ns, i) <= ns.len(),
        spec_first_elem_from(ns, i) < ns.len() ==> ns[spec_first_elem_from(ns, i)] is Element,
    decreases ns.len() - i,
{
    if i < ns.len() && !(ns[i] is Element) {
        lemma_first_elem_bounds(ns, i + 1);
    }
}

/// Convert one inline content node under the given style stack.
///
/// A text run becomes a `text` leaf carrying its literal text and a snapshot
/// of the stack. A style-wrapper element contributes its mark to the stack
/// and must wrap exactly one kept child, which is converted in its place. Any
/// other element becomes an inline node with its attributes as string props
/// and its children converted under the same stack; the stack does not mark
/// the node itself. Any other node kind is a structural error.
pub open spec fn spec_convert_content(n: XmlNodeView, styles: Seq<StyleView>) -> Result<
    BasicContentView,
    ErrorView,
>
    decreases n, 2int,
{
    match n {
        XmlNodeView::Text { text, pos } => Result::Ok(
            BasicContentView {
                kind: "text"@,
                props: seq![("text"@, JsonView::Str(text))],
                content: Option::None,
                styles: styles,
            },
        ),
        XmlNodeView::Other { pos } => Result::Err(
            ErrorView::MalformedDocument("Unsupported node type in content position"@, pos),
        ),
        XmlNodeView::Element { tag, attrs, children, pos } => {
            if spec_is_style_tag(tag) {
                let f = spec_first_kept_from(children, 0);
                if !(0 <= f < children.len()) {
                    Result::Err(ErrorView::MalformedDocument("style tag with no children"@, pos))
                } else if spec_first_kept_from(children, f + 1) < children.len() {
                    Result::Err(
                        ErrorView::MalformedDocument("style tag with more than one child"@, pos),
                    )
                } else {
                    spec_convert_content(children[f], styles.push(spec_style_of_tag(tag, attrs)))
                }
            } else {
                let props = insert_all(Seq::empty(), attrs_as_entries(attrs));
                if children.len() == 0 {
                    Result::Ok(
                        BasicContentView {
                            kind: tag,
                            props: props,
                            content: Option::None,
                            styles: Seq::empty(),
                        },
                    )
                } else {
                    match spec_convert_content_list(children, 0, styles) {
                        Result::Ok(cs) => Result::Ok(
                            BasicContentView {
                                kind: tag,
                                props: props,
                                content: Option::Some(cs),
                                styles: Seq::empty(),
                            },
                        ),
                        Result::Err(e) => Result::Err(e),
                    }
                }
            }
        },
    }
}

/// Convert the nodes of `ns` from index `i` on, stopping at the first error.
pub open spec fn spec_convert_content_list(
    ns: Seq<XmlNodeView>,
    i: int,
    styles: Seq<StyleView>,
) -> Result<Seq<BasicContentView>, ErrorView>
    decreases ns, 1int, ns.len() - i,
{
    if i < 0 || i >= ns.len() {
        Result::Ok(Seq::empty())
    } else {
        match spec_convert_content(ns[i], styles) {
            Result::Err(e) => Result::Err(e),
            Result::Ok(head) => match spec_convert_content_list(ns, i + 1, styles) {
                Result::Ok(rest) => Result::Ok(seq![head] + rest),
                Result::Err(e) => Result::Err(e),
            },
        }
    }
}

/// Convert one table cell: `colspan` and `rowspan` are required positive
/// integers, `colwidth` an optional bracketed integer, and the cell must hold
/// a paragraph element whose children become the cell's content.
pub open spec fn spec_convert_table_cell(n: XmlNodeView) -> Result<TableCellView, ErrorView>
    decreases n, 2int,
{
    match n {
        XmlNodeView::Element { tag, attrs, children, pos } => {
            let colspan = match spec_attr(attrs, "colspan"@) {
                Option::None => Option::None,
                Option::Some(v) => match spec_parse_uint(v) {
                    Option::Some(x) => if x <= u32::MAX {
                        Option::Some(x as u32)
                    } else {
                        Option::None
                    },
                    Option::None => Option::None,
                },
            };
            let rowspan = match spec_attr(attrs, "rowspan"@) {
                Option::None => Option::None,
                Option::Some(v) => match spec_parse_uint(v) {
                    Option::Some(x) => if x <= u32::MAX {
                        Option::Some(x as u32)
                    } else {
                        Option::None
                    },
                    Option::None => Option::None,
                },
            };
            if colspan is None {
                Result::Err(ErrorView::MalformedDocument("Invalid colspan"@, pos))
            } else if rowspan is None {
                Result::Err(ErrorView::MalformedDocument("Invalid rowspan"@, pos))
            } else {
                let colwidth = match spec_attr(attrs, "colwidth"@) {
                    Option::None => Result::Ok(Option::None),
                    Option::Some(v) => match spec_parse_uint(spec_strip_brackets(v, '[', ']')) {
                        Option::Some(x) => if x <= u32::MAX {
                            Result::Ok(Option::Some(x as u32))
                        } else {
                            Result::Err(())
                        },
                        Option::None => Result::Err(()),
                    },
                };
                match colwidth {
                    Result::Err(_) => Result::Err(
                        ErrorView::MalformedDocument("Invalid colwidth"@, pos),
                    ),
                    Result::Ok(cw) => {
                        let pe = spec_first_elem_from(children, 0);
                        if !(0 <= pe < children.len()) {
                            Result::Err(
                                ErrorView::MalformedDocument(
                                    "table cell with no table paragraph"@,
                                    pos,
                                ),
                            )
                        } else {
                            match children[pe] {
                                XmlNodeView::Element { children: pchildren, .. } => {
                                    match spec_convert_content_list(pchildren, 0, Seq::empty()) {
                                        Result::Err(e) => Result::Err(e),
                                        Result::Ok(cs) => Result::Ok(
                                            TableCellView {
                                                content: cs,
                                                colspan: colspan->0,
                                                rowspan: rowspan->0,
                                                colwidth: cw,
                                            },
                                        ),
                                    }
                                },
                                _ => arbitrary(),
                            }
                        }
                    },
                }
            }
        },
        _ => arbitrary(),
    }
}

/// Convert the element children of a row from index `i` on into cells.
pub open spec fn spec_convert_table_cells(ns: Seq<XmlNodeView>, i: int) -> Result<
    Seq<TableCellView>,
    ErrorView,
>
    decreases ns, 1int, ns.len() - i,
{
    if i < 0 || i >= ns.len() {
        Result::Ok(Seq::empty())
    } else if !(ns[i] is Element) {
        spec_convert_table_cells(ns, i + 1)
    } else {
        match spec_convert_table_cell(ns[i]) {
            Result::Err(e) => Result::Err(e),
            Result::Ok(cell) => match spec_convert_table_cells(ns, i + 1) {
                Result::Ok(rest) => Result::Ok(seq![cell] + rest),
                Result::Err(e) => Result::Err(e),
            },
        }
    }
}

/// Convert the element children of a table from index `i` on into rows.
pub open spec fn spec_convert_table_rows(ns: Seq<XmlNodeView>, i: int) -> Result<
    Seq<Seq<TableCellView>>,
    ErrorView,
>
    decreases ns, 1int, ns.len() - i,
{
    if i < 0 || i >= ns.len() {
        Result::Ok(Seq::empty())
    } else if !(ns[i] is Element) {
        spec_convert_table_rows(ns, i + 1)
    } else {
        let row = match ns[i] {
            XmlNodeView::Element { children, .. } => spec_convert_table_cells(children, 0),
            _ => arbitrary(),
        };
        match row {
            Result::Err(e) => Result::Err(e),
            Result::Ok(cells) => match spec_convert_table_rows(ns, i + 1) {
                Result::Ok(rest) => Result::Ok(seq![cells] + rest),
                Result::Err(e) => Result::Err(e),
            },
        }
    }
}

/// Convert one block container: its attributes become block props (with the
/// type name still empty), its first element child names the block's type and
/// contributes its own attributes, a `table` block hands its children to the
/// table sub-converter, any other block converts its children as inline
/// content with a fresh style stack, and a second element child is expanded
/// recursively as the block's nested children.
pub open spec fn spec_convert_block_container(n: XmlNodeView) -> Result<BlockView, ErrorView>
    decreases n, 4int,
{
    match n {
        XmlNodeView::Element { tag, attrs, children, pos } => {
            let folded0 = spec_apply_attrs_from(Seq::empty(), Seq::empty(), Seq::empty(), attrs, 0);
            let fe = spec_first_elem_from(children, 0);
            if !(0 <= fe < children.len()) {
                Result::Err(ErrorView::MalformedDocument("blockcontainer with no children"@, pos))
            } else {
                match children[fe] {
                    XmlNodeView::Element { tag: btag, attrs: battrs, children: bchildren, .. } => {
                        let folded1 = spec_apply_attrs_from(
                            btag,
                            folded0.0,
                            folded0.1,
                            battrs,
                            0,
                        );
                        if btag == "table"@ {
                            match spec_convert_table_rows(bchildren, 0) {
                                Result::Err(e) => Result::Err(e),
                                Result::Ok(rows) => Result::Ok(
                                    BlockView {
                                        id: folded1.1,
                                        kind: btag,
                                        props: folded1.0,
                                        content: Option::Some(ContentView::Table(rows)),
                                        children: Seq::empty(),
                                    },
                                ),
                            }
                        } else {
                            match spec_convert_content_list(bchildren, 0, Seq::empty()) {
                                Result::Err(e) => Result::Err(e),
                                Result::Ok(cs) => {
                                    let se = spec_first_elem_from(children, fe + 1);
                                    let kids = if 0 <= se < children.len() {
                                        spec_convert_blockgroup(children[se])
                                    } else {
                                        Result::Ok(Seq::empty())
                                    };
                                    match kids {
                                        Result::Err(e) => Result::Err(e),
                                        Result::Ok(ks) => Result::Ok(
                                            BlockView {
                                                id: folded1.1,
                                                kind: btag,
                                                props: folded1.0,
                                                content: Option::Some(ContentView::Basic(cs)),
                                                children: ks,
                                            },
                                        ),
                                    }
                                },
                            }
                        }
                    },
                    _ => arbitrary(),
                }
            }
        },
        _ => arbitrary(),
    }
}

/// Convert the element children of a block group from index `i` on, each a
/// block container.
pub open spec fn spec_convert_blockgroup_list(ns: Seq<XmlNodeView>, i: int) -> Result<
    Seq<BlockView>,
    ErrorView,
>
    decreases ns, 3int, ns.len() - i,
{
    if i < 0 || i >= ns.len() {
        Result::Ok(Seq::empty())
    } else if !(ns[i] is Element) {
        spec_convert_blockgroup_list(ns, i + 1)
    } else {
        match spec_convert_block_container(ns[i]) {
            Result::Err(e) => Result::Err(e),
            Result::Ok(b) => match spec_convert_blockgroup_list(ns, i + 1) {
                Result::Ok(rest) => Result::Ok(seq![b] + rest),
                Result::Err(e) => Result::Err(e),
            },
        }
    }
}

/// Convert a block group: each element child is a block container.
pub open spec fn spec_convert_blockgroup(n: XmlNodeView) -> Result<Seq<BlockView>, ErrorView>
    decreases n, 5int,
{
    match n {
        XmlNodeView::Element { children, .. } => spec_convert_blockgroup_list(children, 0),
        _ => arbitrary(),
    }
}

/// Convert a whole document text: parse it, expand the root block group, and
/// project the blocks into the output JSON array.
pub open spec fn spec_convert_xml(s: Seq<char>) -> Result<JsonView, ErrorView> {
    match crate::xml::parsed_document(s) {
        Result::Err(m) => Result::Err(ErrorView::ParseError(m)),
        Result::Ok(root) => match spec_convert_blockgroup(root) {
            Result::Err(e) => Result::Err(e),
            Result::Ok(blocks) => Result::Ok(JsonView::Array(spec_blocks_json_from(blocks, 0))),
        },
    }
}

/// The views of a list of basic nodes.
pub open spec fn basics_view(cs: Seq<BasicContent>) -> Seq<BasicContentView> {
    Seq::new(cs.len(), |i: int| basic_view(cs[i]))
}

/// The views of a list of cells.
pub open spec fn cells_view(cs: Seq<TableCell>) -> Seq<TableCellView> {
    Seq::new(cs.len(), |i: int| cs[i]@)
}

/// The views of a list of rows.
pub open spec fn rows_view(rs: Seq<TableRow>) -> Seq<Seq<TableCellView>> {
    Seq::new(rs.len(), |i: int| cells_view(rs[i]@))
}

/// The views of a list of blocks.
pub open spec fn blocks_view(bs: Seq<Block>) -> Seq<BlockView> {
    Seq::new(bs.len(), |i: int| bs[i]@)
}

/// An element's view decomposes into the views of its parts.
proof fn lemma_element_view(n: XmlNode)
    requires
        n is Element,
    ensures
        (match (n, xml_view(n)) {
            (
                XmlNode::Element { tag, attrs, children, pos },
                XmlNodeView::Element { tag: tv, attrs: av, children: cv, pos: pv },
            ) => tv == tag@ && av == attrs_view(attrs@) && cv == nodes_view(children@) && pv
                == pos,
            _ => false,
        }),
{
    match (n, xml_view(n)) {
        (
            XmlNode::Element { tag, attrs, children, pos },
            XmlNodeView::Element { tag: tv, attrs: av, children: cv, pos: pv },
        ) => {
            assert(cv =~= nodes_view(children@));
        },
        _ => {},
    }
}

/// Whether a style wrapper keeps this child.
fn node_kept(n: &XmlNode) -> (r: bool)
    ensures
        r == spec_kept(xml_view(*n)),
{
    match n {
        XmlNode::Element { .. } => true,
        XmlNode::Text { text, .. } => !is_all_whitespace(text.as_str()),
        XmlNode::Other { .. } => false,
    }
}

/// The index of the first kept child at or after `from`, or the length.
#[verifier::loop_isolation(false)]
fn first_kept_idx(ns: &Vec<XmlNode>, from: usize) -> (r: usize)
    requires
        from <= ns@.len(),
    ensures
        r as int == spec_first_kept_from(nodes_view(ns@), from as int),
        r <= ns@.len(),
{
    let ghost nv = nodes_view(ns@);
    let n = ns.len();
    let mut i: usize = from;
    while i < n
        invariant
            from <= i <= n,
            n == ns@.len(),
            spec_first_kept_from(nv, from as int) == spec_first_kept_from(nv, i as int),
        decreases n - i,
    {
        proof {
            assert(nv[i as int] == xml_view(ns@[i as int]));
        }
        if node_kept(&ns[i]) {
            return i;
        }
        i += 1;
    }
    i
}

/// The index of the first element child at or after `from`, or the length.
#[verifier::loop_isolation(false)]
fn first_elem_idx(ns: &Vec<XmlNode>, from: usize) -> (r: usize)
    requires
        from <= ns@.len(),
    ensures
        r as int == spec_first_elem_from(nodes_view(ns@), from as int),
        r <= ns@.len(),
{
    let ghost nv = nodes_view(ns@);
    let n = ns.len();
    let mut i: usize = from;
    while i < n
        invariant
            from <= i <= n,
            n == ns@.len(),
            spec_first_elem_from(nv, from as int) == spec_first_elem_from(nv, i as int),
        decreases n - i,
    {
        proof {
            assert(nv[i as int] == xml_view(ns@[i as int]));
        }
        let is_elem = match &ns[i] {
            XmlNode::Element { .. } => true,
            _ => false,
        };
        if is_elem {
            return i;
        }
        i += 1;
    }
    i
}

/// Whether the tag names a style wrapper.
fn is_style_tag(tag: &str) -> (r: bool)
    ensures
        r == spec_is_style_tag(tag@),
{
    str_eq(tag, "bold") || str_eq(tag, "italic") || str_eq(tag, "underline") || str_eq(
        tag,
        "strike",
    ) || str_eq(tag, "code") || str_eq(tag, "textColor") || str_eq(tag, "backgroundColor")
}

/// The value of the first attribute with the given name.
#[verifier::loop_isolation(false)]
fn find_attr(attrs: &Vec<(String, String)>, name: &str) -> (r: Option<String>)
    ensures
        match r {
            Option::Some(v) => spec_attr(attrs_view(attrs@), name@) == Option::Some(v@),
            Option::None => spec_attr(attrs_view(attrs@), name@) is None,
        },
{
    let ghost av = attrs_view(attrs@);
    let n = attrs.len();
    let mut i: usize = 0;
    while i < n
        invariant
            i <= n,
            n == attrs@.len(),
            spec_attr_from(av, name@, 0) == spec_attr_from(av, name@, i as int),
        decreases n - i,
    {
        proof {
            assert(av[i as int] == (attrs@[i as int].0@, attrs@[i as int].1@));
        }
        if str_eq(attrs[i].0.as_str(), name) {
            return Option::Some(attrs[i].1.clone());
        }
        i += 1;
    }
    Option::None
}

/// The mark a style-wrapper tag contributes.
fn style_of_tag(tag: &String, attrs: &Vec<(String, String)>) -> (r: Style)
    requires
        spec_is_style_tag(tag@),
    ensures
        r@ == spec_style_of_tag(tag@, attrs_view(attrs@)),
{
    if str_eq(tag.as_str(), "bold") {
        Style::Bold
    } else if str_eq(tag.as_str(), "italic") {
        Style::Italic
    } else if str_eq(tag.as_str(), "underline") {
        Style::Underline
    } else if str_eq(tag.as_str(), "strike") {
        Style::Strike
    } else if str_eq(tag.as_str(), "code") {
        Style::Code
    } else {
        let color = match find_attr(attrs, "stringValue") {
            Option::Some(v) => v,
            Option::None => String::from_str("default"),
        };
        if str_eq(tag.as_str(), "textColor") {
            Style::TextColor(color)
        } else {
            Style::BackgroundColor(color)
        }
    }
}

/// Convert one inline content node under the given style stack.
#[verifier::loop_isolation(false)]
fn convert_content(n: &XmlNode, styles: &Vec<Style>) -> (r: Result<BasicContent, Error>)
    ensures
        match r {
            Result::Ok(c) => spec_convert_content(xml_view(*n), styles_view(styles@))
                == Result::<BasicContentView, ErrorView>::Ok(c@),
            Result::Err(e) => spec_convert_content(xml_view(*n), styles_view(styles@))
                == Result::<BasicContentView, ErrorView>::Err(e@),
        },
    decreases n, 2int,
{
    match n {
        XmlNode::Text { text, pos } => {
            let mut c = BasicContent::new();
            c.kind = String::from_str("text");
            insert_entry(&mut c.props, String::from_str("text"), JsonValue::Str(text.clone()));
            c.styles = duplicate_styles(styles);
            proof {
                assert(crate::json::obj_insert(
                    Seq::empty(),
                    "text"@,
                    JsonView::Str(text@),
                ) =~= seq![("text"@, JsonView::Str(text@))]);
                assert(c@ =~= (BasicContentView {
                    kind: "text"@,
                    props: seq![("text"@, JsonView::Str(text@))],
                    content: Option::None,
                    styles: styles_view(styles@),
                }));
            }
            Result::Ok(c)
        },
        XmlNode::Other { pos } => Result::Err(
            Error::MalformedDocument(
                String::from_str("Unsupported node type in content position"),
                *pos,
            ),
        ),
        XmlNode::Element { tag, attrs, children, pos } => {
            proof {
                lemma_element_view(*n);
            }
            let ghost cv = nodes_view(children@);
            if is_style_tag(tag.as_str()) {
                let f = first_kept_idx(children, 0);
                proof {
                    lemma_first_kept_bounds(cv, 0);
                }
                if f == children.len() {
                    return Result::Err(
                        Error::MalformedDocument(
                            String::from_str("style tag with no children"),
                            *pos,
                        ),
                    );
                }
                let s2 = first_kept_idx(children, f + 1);
                if s2 < children.len() {
                    return Result::Err(
                        Error::MalformedDocument(
                            String::from_str("style tag with more than one child"),
                            *pos,
                        ),
                    );
                }
                let st = style_of_tag(tag, attrs);
                let mut stack2 = duplicate_styles(styles);
                stack2.push(st);
                proof {
                    assert(styles_view(stack2@) =~= styles_view(styles@).push(
                        spec_style_of_tag(tag@, attrs_view(attrs@)),
                    ));
                    assert(cv[f as int] == xml_view(children@[f as int]));
                    assert(decreases_to!(*n => *children));
                    assert(decreases_to!(*children => children@));
                    assert(decreases_to!(children@ => children@[f as int]));
                }
                convert_content(&children[f], &stack2)
            } else {
                let mut c = BasicContent::new();
                c.kind = tag.clone();
                c.apply_attributes(attrs);
                proof {
                    assert(insert_all(
                        Seq::empty(),
                        attrs_as_entries(attrs_view(attrs@)),
                    ) == c@.props);
                }
                if children.len() > 0 {
                    proof {
                        assert(decreases_to!(*n => *children));
                    }
                    match convert_content_list(children, styles) {
                        Result::Err(e) => Result::Err(e),
                        Result::Ok(cs) => {
                            let ghost csv = basics_view(cs@);
                            c.content = Option::Some(cs);
                            proof {
                                assert(c@.content->Some_0 =~= csv);
                            }
                            Result::Ok(c)
                        },
                    }
                } else {
                    Result::Ok(c)
                }
            }
        },
    }
}

/// Convert a list of sibling content nodes, stopping at the first error.
#[verifier::loop_isolation(false)]
fn convert_content_list(ns: &Vec<XmlNode>, styles: &Vec<Style>) -> (r: Result<
    Vec<BasicContent>,
    Error,
>)
    ensures
        match r {
            Result::Ok(cs) => spec_convert_content_list(nodes_view(ns@), 0, styles_view(styles@))
                == Result::<Seq<BasicContentView>, ErrorView>::Ok(basics_view(cs@)),
            Result::Err(e) => spec_convert_content_list(nodes_view(ns@), 0, styles_view(styles@))
                == Result::<Seq<BasicContentView>, ErrorView>::Err(e@),
        },
    decreases ns, 1int,
{
    let ghost nv = nodes_view(ns@);
    let ghost sv = styles_view(styles@);
    let mut out: Vec<BasicContent> = Vec::new();
    let n = ns.len();
    let mut i: usize = 0;
    proof {
        assert(basics_view(out@) =~= Seq::<BasicContentView>::empty());
        match spec_convert_content_list(nv, 0, sv) {
            Result::Ok(rest) => {
                assert(Seq::<BasicContentView>::empty() + rest =~= rest);
            },
            Result::Err(_) => {},
        }
    }
    while i < n
        invariant
            i <= n,
            n == ns@.len(),
            spec_convert_content_list(nv, 0, sv) == (match spec_convert_content_list(
                nv,
                i as int,
                sv,
            ) {
                Result::Ok(rest) => Result::<Seq<BasicContentView>, ErrorView>::Ok(
                    basics_view(out@) + rest,
                ),
                Result::Err(e) => Result::<Seq<BasicContentView>, ErrorView>::Err(e),
            }),
        decreases n - i,
    {
        proof {
            assert(nv[i as int] == xml_view(ns@[i as int]));
            assert(decreases_to!(*ns => ns@));
            assert(decreases_to!(ns@ => ns@[i as int]));
        }
        match convert_content(&ns[i], styles) {
            Result::Err(e) => {
                return Result::Err(e);
            },
            Result::Ok(c) => {
                let ghost pre = basics_view(out@);
                let ghost cview = c@;
                out.push(c);
                proof {
                    assert(basics_view(out@) =~= pre.push(cview));
                    match spec_convert_content_list(nv, i + 1, sv) {
                        Result::Ok(rest) => {
                            assert(pre + (seq![cview] + rest) =~= pre.push(cview) + rest);
                        },
                        Result::Err(_) => {},
                    }
                }
            },
        }
        i += 1;
    }
    proof {
        assert(basics_view(out@) + Seq::<BasicContentView>::empty() =~= basics_view(out@));
    }
    Result::Ok(out)
}

/// Convert one table cell.
#[verifier::loop_isolation(false)]
fn convert_table_cell(n: &XmlNode) -> (r: Result<TableCell, Error>)
    requires
        n is Element,
    ensures
        match r {
            Result::Ok(c) => spec_convert_table_cell(xml_view(*n)) == Result::<
                TableCellView,
                ErrorView,
            >::Ok(c@),
            Result::Err(e) => spec_convert_table_cell(xml_view(*n)) == Result::<
                TableCellView,
                ErrorView,
            >::Err(e@),
        },
    decreases n, 2int,
{
    match n {
        XmlNode::Element { tag, attrs, children, pos } => {
            proof {
                lemma_element_view(*n);
            }
            let ghost cv = nodes_view(children@);
            let mut cell = TableCell::new();
            match find_attr(attrs, "colspan") {
                Option::None => {
                    return Result::Err(
                        Error::MalformedDocument(String::from_str("Invalid colspan"), *pos),
                    );
                },
                Option::Some(v) => match parse_u32(v.as_str()) {
                    Option::None => {
                        return Result::Err(
                            Error::MalformedDocument(String::from_str("Invalid colspan"), *pos),
                        );
                    },
                    Option::Some(x) => {
                        cell.colspan = x;
                    },
                },
            }
            match find_attr(attrs, "rowspan") {
                Option::None => {
                    return Result::Err(
                        Error::MalformedDocument(String::from_str("Invalid rowspan"), *pos),
                    );
                },
                Option::Some(v) => match parse_u32(v.as_str()) {
                    Option::None => {
                        return Result::Err(
                            Error::MalformedDocument(String::from_str("Invalid rowspan"), *pos),
                        );
                    },
                    Option::Some(x) => {
                        cell.rowspan = x;
                    },
                },
            }
            match find_attr(attrs, "colwidth") {
                Option::None => {},
                Option::Some(v) => match parse_u32(strip_brackets(v.as_str())) {
                    Option::None => {
                        return Result::Err(
                            Error::MalformedDocument(String::from_str("Invalid colwidth"), *pos),
                        );
                    },
                    Option::Some(w) => {
                        cell.colwidth = Option::Some(w);
                    },
                },
            }
            let pe = first_elem_idx(children, 0);
            proof {
                lemma_first_elem_bounds(cv, 0);
            }
            if pe == children.len() {
                return Result::Err(
                    Error::MalformedDocument(
                        String::from_str("table cell with no table paragraph"),
                        *pos,
                    ),
                );
            }
            proof {
                assert(cv[pe as int] == xml_view(children@[pe as int]));
            }
            match &children[pe] {
                XmlNode::Element { children: pchildren, .. } => {
                    proof {
                        lemma_element_view(children@[pe as int]);
                        assert(decreases_to!(*n => *children));
                        assert(decreases_to!(*children => children@));
                        assert(decreases_to!(children@ => children@[pe as int]));
                        assert(decreases_to!(children@[pe as int] => *pchildren));
                    }
                    let empty_styles: Vec<Style> = Vec::new();
                    proof {
                        assert(styles_view(empty_styles@) =~= Seq::<StyleView>::empty());
                    }
                    match convert_content_list(pchildren, &empty_styles) {
                        Result::Err(e) => Result::Err(e),
                        Result::Ok(cs) => {
                            let ghost csv = basics_view(cs@);
                            cell.content = cs;
                            proof {
                                assert(cell@.content =~= csv);
                            }
                            Result::Ok(cell)
                        },
                    }
                },
                _ => unreached(),
            }
        },
        _ => unreached(),
    }
}

/// Convert one table row: its element children are cells.
#[verifier::loop_isolation(false)]
fn convert_table_row(n: &XmlNode) -> (r: Result<TableRow, Error>)
    requires
        n is Element,
    ensures
        (match (xml_view(*n), r) {
            (XmlNodeView::Element { children, .. }, Result::Ok(cells)) => spec_convert_table_cells(
                children,
                0,
            ) == Result::<Seq<TableCellView>, ErrorView>::Ok(cells_view(cells@)),
            (XmlNodeView::Element { children, .. }, Result::Err(e)) => spec_convert_table_cells(
                children,
                0,
            ) == Result::<Seq<TableCellView>, ErrorView>::Err(e@),
            _ => false,
        }),
    decreases n, 3int,
{
    match n {
        XmlNode::Element { children, .. } => {
            proof {
                lemma_element_view(*n);
            }
            let ghost nv = nodes_view(children@);
            let mut out: Vec<TableCell> = Vec::new();
            let m = children.len();
            let mut i: usize = 0;
            proof {
                match spec_convert_table_cells(nv, 0) {
                    Result::Ok(rest) => {
                        assert(Seq::<TableCellView>::empty() + rest =~= rest);
                        assert(cells_view(out@) =~= Seq::<TableCellView>::empty());
                    },
                    Result::Err(_) => {},
                }
            }
            while i < m
                invariant
                    i <= m,
                    m == children@.len(),
                    spec_convert_table_cells(nv, 0) == (match spec_convert_table_cells(
                        nv,
                        i as int,
                    ) {
                        Result::Ok(rest) => Result::<Seq<TableCellView>, ErrorView>::Ok(
                            cells_view(out@) + rest,
                        ),
                        Result::Err(e) => Result::<Seq<TableCellView>, ErrorView>::Err(e),
                    }),
                decreases m - i,
            {
                proof {
                    assert(nv[i as int] == xml_view(children@[i as int]));
                    assert(decreases_to!(*n => *children));
                    assert(decreases_to!(*children => children@));
                    assert(decreases_to!(children@ => children@[i as int]));
                }
                let is_elem = match &children[i] {
                    XmlNode::Element { .. } => true,
                    _ => false,
                };
                if is_elem {
                    match convert_table_cell(&children[i]) {
                        Result::Err(e) => {
                            return Result::Err(e);
                        },
                        Result::Ok(c) => {
                            let ghost pre = cells_view(out@);
                            let ghost cview = c@;
                            out.push(c);
                            proof {
                                assert(cells_view(out@) =~= pre.push(cview));
                                match spec_convert_table_cells(nv, i + 1) {
                                    Result::Ok(rest) => {
                                        assert(pre + (seq![cview] + rest) =~= pre.push(cview)
                                            + rest);
                                    },
                                    Result::Err(_) => {},
                                }
                            }
                        },
                    }
                }
                i += 1;
            }
            proof {
                assert(cells_view(out@) + Seq::<TableCellView>::empty() =~= cells_view(out@));
            }
            Result::Ok(out)
        },
        _ => unreached(),
    }
}

/// Convert a table block's element children into rows.
#[verifier::loop_isolation(false)]
fn convert_table(children: &Vec<XmlNode>) -> (r: Result<Vec<TableRow>, Error>)
    ensures
        match r {
            Result::Ok(rows) => spec_convert_table_rows(nodes_view(children@), 0) == Result::<
                Seq<Seq<TableCellView>>,
                ErrorView,
            >::Ok(rows_view(rows@)),
            Result::Err(e) => spec_convert_table_rows(nodes_view(children@), 0) == Result::<
                Seq<Seq<TableCellView>>,
                ErrorView,
            >::Err(e@),
        },
    decreases children, 4int,
{
    let ghost nv = nodes_view(children@);
    let mut out: Vec<TableRow> = Vec::new();
    let m = children.len();
    let mut i: usize = 0;
    proof {
        match spec_convert_table_rows(nv, 0) {
            Result::Ok(rest) => {
                assert(Seq::<Seq<TableCellView>>::empty() + rest =~= rest);
                assert(rows_view(out@) =~= Seq::<Seq<TableCellView>>::empty());
            },
            Result::Err(_) => {},
        }
    }
    while i < m
        invariant
            i <= m,
            m == children@.len(),
            spec_convert_table_rows(nv, 0) == (match spec_convert_table_rows(nv, i as int) {
                Result::Ok(rest) => Result::<Seq<Seq<TableCellView>>, ErrorView>::Ok(
                    rows_view(out@) + rest,
                ),
                Result::Err(e) => Result::<Seq<Seq<TableCellView>>, ErrorView>::Err(e),
            }),
        decreases m - i,
    {
        proof {
            assert(nv[i as int] == xml_view(children@[i as int]));
            assert(decreases_to!(*children => children@));
            assert(decreases_to!(children@ => children@[i as int]));
        }
        let is_elem = match &children[i] {
            XmlNode::Element { .. } => true,
            _ => false,
        };
        if is_elem {
            match convert_table_row(&children[i]) {
                Result::Err(e) => {
                    return Result::Err(e);
                },
                Result::Ok(cells) => {
                    let ghost pre = rows_view(out@);
                    let ghost cellsv = cells_view(cells@);
                    out.push(cells);
                    proof {
                        assert(rows_view(out@) =~= pre.push(cellsv));
                        match spec_convert_table_rows(nv, i + 1) {
                            Result::Ok(rest) => {
                                assert(pre + (seq![cellsv] + rest) =~= pre.push(cellsv) + rest);
                            },
                            Result::Err(_) => {},
                        }
                    }
                },
            }
        }
        i += 1;
    }
    proof {
        assert(rows_view(out@) + Seq::<Seq<TableCellView>>::empty() =~= rows_view(out@));
    }
    Result::Ok(out)
}

/// Convert one block container into a block.
#[verifier::loop_isolation(false)]
pub fn convert_block_container(n: &XmlNode) -> (r: Result<Block, Error>)
    requires
        n is Element,
    ensures
        match r {
            Result::Ok(b) => spec_convert_block_container(xml_view(*n)) == Result::<
                BlockView,
                ErrorView,
            >::Ok(b@),
            Result::Err(e) => spec_convert_block_container(xml_view(*n)) == Result::<
                BlockView,
                ErrorView,
            >::Err(e@),
        },
    decreases n, 5int,
{
    match n {
        XmlNode::Element { tag, attrs, children, pos } => {
            proof {
                lemma_element_view(*n);
            }
            let ghost cv = nodes_view(children@);
            let mut block = Block::new();
            block.apply_attributes(attrs);
            let fe = first_elem_idx(children, 0);
            proof {
                lemma_first_elem_bounds(cv, 0);
            }
            if fe == children.len() {
                return Result::Err(
                    Error::MalformedDocument(
                        String::from_str("blockcontainer with no children"),
                        *pos,
                    ),
                );
            }
            proof {
                assert(cv[fe as int] == xml_view(children@[fe as int]));
            }
            match &children[fe] {
                XmlNode::Element { tag: btag, attrs: battrs, children: bchildren, .. } => {
                    proof {
                        lemma_element_view(children@[fe as int]);
                        assert(decreases_to!(*n => *children));
                        assert(decreases_to!(*children => children@));
                        assert(decreases_to!(children@ => children@[fe as int]));
                        assert(decreases_to!(children@[fe as int] => *bchildren));
                    }
                    block.kind = btag.clone();
                    block.apply_attributes(battrs);
                    if str_eq(btag.as_str(), "table") {
                        match convert_table(bchildren) {
                            Result::Err(e) => Result::Err(e),
                            Result::Ok(rows) => {
                                let ghost rowsv = rows_view(rows@);
                                block.content = Option::Some(
                                    Content::Table(TableContent::new(rows)),
                                );
                                proof {
                                    assert(block@.content->Some_0->Table_0 =~= rowsv);
                                }
                                Result::Ok(block)
                            },
                        }
                    } else {
                        let empty_styles: Vec<Style> = Vec::new();
                        proof {
                            assert(styles_view(empty_styles@) =~= Seq::<StyleView>::empty());
                        }
                        match convert_content_list(bchildren, &empty_styles) {
                            Result::Err(e) => Result::Err(e),
                            Result::Ok(cs) => {
                                let ghost csv = basics_view(cs@);
                                block.content = Option::Some(Content::Basic(cs));
                                proof {
                                    assert(block@.content->Some_0->Basic_0 =~= csv);
                                }
                                let se = first_elem_idx(children, fe + 1);
                                if se < children.len() {
                                    proof {
                                        assert(cv[se as int] == xml_view(children@[se as int]));
                                        lemma_first_elem_bounds(cv, fe as int + 1);
                                        assert(decreases_to!(children@ => children@[se as int]));
                                    }
                                    match convert_blockgroup(&children[se]) {
                                        Result::Err(e) => Result::Err(e),
                                        Result::Ok(kids) => {
                                            let ghost kidsv = blocks_view(kids@);
                                            block.children = kids;
                                            proof {
                                                assert(block@.children =~= kidsv);
                                            }
                                            Result::Ok(block)
                                        },
                                    }
                                } else {
                                    proof {
                                        assert(block@.children =~= Seq::<BlockView>::empty());
                                    }
                                    Result::Ok(block)
                                }
                            },
                        }
                    }
                },
                _ => unreached(),
            }
        },
        _ => unreached(),
    }
}

/// Convert a block group: each element child is a block container, in order.
#[verifier::loop_isolation(false)]
pub fn convert_blockgroup(n: &XmlNode) -> (r: Result<Vec<Block>, Error>)
    requires
        n is Element,
    ensures
        match r {
            Result::Ok(bs) => spec_convert_blockgroup(xml_view(*n)) == Result::<
                Seq<BlockView>,
                ErrorView,
            >::Ok(blocks_view(bs@)),
            Result::Err(e) => spec_convert_blockgroup(xml_view(*n)) == Result::<
                Seq<BlockView>,
                ErrorView,
            >::Err(e@),
        },
    decreases n, 6int,
{
    match n {
        XmlNode::Element { children, .. } => {
            proof {
                lemma_element_view(*n);
            }
            let ghost nv = nodes_view(children@);
            let mut out: Vec<Block> = Vec::new();
            let m = children.len();
            let mut i: usize = 0;
            proof {
                match spec_convert_blockgroup_list(nv, 0) {
                    Result::Ok(rest) => {
                        assert(Seq::<BlockView>::empty() + rest =~= rest);
                        assert(blocks_view(out@) =~= Seq::<BlockView>::empty());
                    },
                    Result::Err(_) => {},
                }
            }
            while i < m
                invariant
                    i <= m,
                    m == children@.len(),
                    spec_convert_blockgroup_list(nv, 0) == (match spec_convert_blockgroup_list(
                        nv,
                        i as int,
                    ) {
                        Result::Ok(rest) => Result::<Seq<BlockView>, ErrorView>::Ok(
                            blocks_view(out@) + rest,
                        ),
                        Result::Err(e) => Result::<Seq<BlockView>, ErrorView>::Err(e),
                    }),
                decreases m - i,
            {
                proof {
                    assert(nv[i as int] == xml_view(children@[i as int]));
                    assert(decreases_to!(*n => *children));
                    assert(decreases_to!(*children => children@));
                    assert(decreases_to!(children@ => children@[i as int]));
                }
                let is_elem = match &children[i] {
                    XmlNode::Element { .. } => true,
                    _ => false,
                };
                if is_elem {
                    match convert_block_container(&children[i]) {
                        Result::Err(e) => {
                            return Result::Err(e);
                        },
                        Result::Ok(b) => {
                            let ghost pre = blocks_view(out@);
                            let ghost bview = b@;
                            out.push(b);
                            proof {
                                assert(blocks_view(out@) =~= pre.push(bview));
                                match spec_convert_blockgroup_list(nv, i + 1) {
                                    Result::Ok(rest) => {
                                        assert(pre + (seq![bview] + rest) =~= pre.push(bview)
                                            + rest);
                                    },
                                    Result::Err(_) => {},
                                }
                            }
                        },
                    }
                }
                i += 1;
            }
            proof {
                assert(blocks_view(out@) + Seq::<BlockView>::empty() =~= blocks_view(out@));
            }
            Result::Ok(out)
        },
        _ => unreached(),
    }
}

} // verus!
