//! Properties of the conversion and projection that hold of every input,
//! stated and proved over the specification functions.

use vstd::prelude::*;

use crate::block::{
    spec_apply_attr, spec_apply_attrs_from, spec_block_json, spec_coerce_bool, spec_coerce_u64,
    spec_drop_index, spec_normalize_kind, BlockView,
};
use crate::content::{spec_basics_json_from, spec_table_json, styles_entries, TableCellView};
use crate::converter::{lemma_first_elem_bounds, spec_convert_block_container, spec_first_elem_from};
use crate::json::{
    lemma_obj_insert_keys, lemma_obj_insert_map, obj_contains_key, obj_map, JsonView,
};
use crate::style::StyleView;
use crate::text::spec_parse_uint;
use crate::xml::XmlNodeView;

verus! {

/// The value of the last attribute named `name` at or after index `i`.
pub open spec fn spec_last_attr_from(
    attrs: Seq<(Seq<char>, Seq<char>)>,
    name: Seq<char>,
    i: int,
) -> Option<Seq<char>>
    decreases attrs.len() - i,
{
    if i < 0 || i >= attrs.len() {
        Option::None
    } else {
        match spec_last_attr_from(attrs, name, i + 1) {
            Option::Some(v) => Option::Some(v),
            Option::None => if attrs[i].0 == name {
                Option::Some(attrs[i].1)
            } else {
                Option::None
            },
        }
    }
}

/// Folding attributes never puts a key named `id` into the props: the `id`
/// attribute goes to the block's identity instead.
pub proof fn lemma_apply_attrs_no_id(
    kind: Seq<char>,
    props: Seq<(Seq<char>, JsonView)>,
    id: Seq<char>,
    attrs: Seq<(Seq<char>, Seq<char>)>,
    i: int,
)
    requires
        !obj_contains_key(props, "id"@),
    ensures
        !obj_contains_key(spec_apply_attrs_from(kind, props, id, attrs, i).0, "id"@),
    decreases attrs.len() - i,
{
    if 0 <= i < attrs.len() {
        let (p2, id2) = spec_apply_attr(kind, props, id, attrs[i].0, attrs[i].1);
        assert(!obj_contains_key(p2, "id"@)) by {
            if attrs[i].0 != "id"@ {
                lemma_obj_insert_keys(props, attrs[i].0, JsonView::Null, "id"@);
                match spec_parse_uint(attrs[i].1) {
                    Option::Some(v) => {
                        lemma_obj_insert_keys(
                            props,
                            attrs[i].0,
                            JsonView::Num(v as u64),
                            "id"@,
                        );
                    },
                    Option::None => {},
                }
                match crate::text::spec_parse_bool(attrs[i].1) {
                    Option::Some(b) => {
                        lemma_obj_insert_keys(props, attrs[i].0, JsonView::Bool(b), "id"@);
                    },
                    Option::None => {},
                }
                lemma_obj_insert_keys(props, attrs[i].0, JsonView::Str(attrs[i].1), "id"@);
            }
        }
        lemma_apply_attrs_no_id(kind, p2, id2, attrs, i + 1);
    }
}

/// Folding attributes sets the identity to the value of the last `id`
/// attribute, or leaves it unchanged when there is none.
pub proof fn lemma_apply_attrs_id(
    kind: Seq<char>,
    props: Seq<(Seq<char>, JsonView)>,
    id: Seq<char>,
    attrs: Seq<(Seq<char>, Seq<char>)>,
    i: int,
)
    ensures
        spec_apply_attrs_from(kind, props, id, attrs, i).1 == (match spec_last_attr_from(
            attrs,
            "id"@,
            i,
        ) {
            Option::Some(v) => v,
            Option::None => id,
        }),
    decreases attrs.len() - i,
{
    if 0 <= i < attrs.len() {
        let (p2, id2) = spec_apply_attr(kind, props, id, attrs[i].0, attrs[i].1);
        lemma_apply_attrs_id(kind, p2, id2, attrs, i + 1);
    }
}

/// Round-trip identity of ids and props: a converted block's props never hold
/// a key named `id`, and the block's identity is the value of the last `id`
/// attribute seen, first among the container's attributes, then overridden by
/// the block element's own, defaulting to the empty string.
pub proof fn lemma_id_round_trip(n: XmlNodeView)
    ensures
        (match (n, spec_convert_block_container(n)) {
            (XmlNodeView::Element { attrs, children, .. }, Result::Ok(b)) => {
                &&& !obj_contains_key(b.props, "id"@)
                &&& {
                    let fe = spec_first_elem_from(children, 0);
                    let container_id = match spec_last_attr_from(attrs, "id"@, 0) {
                        Option::Some(v) => v,
                        Option::None => Seq::<char>::empty(),
                    };
                    match children[fe] {
                        XmlNodeView::Element { attrs: battrs, .. } => b.id == (
                        match spec_last_attr_from(battrs, "id"@, 0) {
                            Option::Some(v) => v,
                            Option::None => container_id,
                        }),
                        _ => true,
                    }
                }
            },
            _ => true,
        }),
{
    match n {
        XmlNodeView::Element { attrs, children, .. } => {
            let folded0 = spec_apply_attrs_from(
                Seq::empty(),
                Seq::empty(),
                Seq::empty(),
                attrs,
                0,
            );
            assert(!obj_contains_key(Seq::<(Seq<char>, JsonView)>::empty(), "id"@));
            lemma_apply_attrs_no_id(Seq::empty(), Seq::empty(), Seq::empty(), attrs, 0);
            lemma_apply_attrs_id(Seq::empty(), Seq::empty(), Seq::empty(), attrs, 0);
            lemma_first_elem_bounds(children, 0);
            let fe = spec_first_elem_from(children, 0);
            if 0 <= fe < children.len() {
                match children[fe] {
                    XmlNodeView::Element { tag: btag, attrs: battrs, .. } => {
                        lemma_apply_attrs_no_id(btag, folded0.0, folded0.1, battrs, 0);
                        lemma_apply_attrs_id(btag, folded0.0, folded0.1, battrs, 0);
                        let folded1 = spec_apply_attrs_from(btag, folded0.0, folded0.1, battrs, 0);
                        match spec_convert_block_container(n) {
                            Result::Ok(b) => {
                                assert(b.props == folded1.0);
                                assert(b.id == folded1.1);
                            },
                            Result::Err(_) => {},
                        }
                    },
                    _ => {},
                }
            }
        },
        _ => {},
    }
}

/// The set of mark names on a style stack.
pub open spec fn style_names(styles: Seq<StyleView>) -> Set<Seq<char>> {
    Set::new(|k: Seq<char>| exists|i: int| 0 <= i < styles.len() && styles[i].spec_name() == k)
}

/// The rendered styles object maps exactly the names of the stack's marks to
/// `true`.
pub proof fn lemma_styles_entries_map(styles: Seq<StyleView>)
    ensures
        obj_map(styles_entries(styles)) == Map::new(
            |k: Seq<char>| style_names(styles).contains(k),
            |k: Seq<char>| JsonView::Bool(true),
        ),
    decreases styles.len(),
{
    let target = Map::new(
        |k: Seq<char>| style_names(styles).contains(k),
        |k: Seq<char>| JsonView::Bool(true),
    );
    if styles.len() == 0 {
        assert(obj_map(styles_entries(styles)) =~= target);
    } else {
        let front = styles.drop_last();
        lemma_styles_entries_map(front);
        lemma_obj_insert_map(
            styles_entries(front),
            styles.last().spec_name(),
            JsonView::Bool(true),
        );
        assert forall|k: Seq<char>| #[trigger] style_names(styles).contains(k) implies
            style_names(front).contains(k) || k == styles.last().spec_name() by {
            let i = choose|i: int| 0 <= i < styles.len() && styles[i].spec_name() == k;
            if i < styles.len() - 1 {
                assert(front[i] == styles[i]);
            }
        }
        assert forall|k: Seq<char>| #[trigger] style_names(front).contains(k) implies
            style_names(styles).contains(k) by {
            let i = choose|i: int| 0 <= i < front.len() && front[i].spec_name() == k;
            assert(styles[i] == front[i]);
        }
        assert(style_names(styles).contains(styles.last().spec_name())) by {
            assert(styles[styles.len() - 1].spec_name() == styles.last().spec_name());
        }
        assert(obj_map(styles_entries(styles)) =~= target);
    }
}

/// Style accumulation is order-insensitive for rendering: two stacks carrying
/// the same mark names render as the same styles object.
pub proof fn lemma_styles_render_order_insensitive(s1: Seq<StyleView>, s2: Seq<StyleView>)
    requires
        style_names(s1) == style_names(s2),
    ensures
        obj_map(styles_entries(s1)) == obj_map(styles_entries(s2)),
{
    lemma_styles_entries_map(s1);
    lemma_styles_entries_map(s2);
    assert(obj_map(styles_entries(s1)) =~= obj_map(styles_entries(s2)));
}

/// Nesting one mark inside another or the other way round renders the same
/// styles object.
pub proof fn lemma_style_nesting_order_irrelevant(s: Seq<StyleView>, a: StyleView, b: StyleView)
    ensures
        obj_map(styles_entries(s.push(a).push(b))) == obj_map(styles_entries(s.push(b).push(a))),
{
    let s1 = s.push(a).push(b);
    let s2 = s.push(b).push(a);
    assert(style_names(s1) =~= style_names(s2)) by {
        assert forall|k: Seq<char>| #[trigger] style_names(s1).contains(k) implies style_names(
            s2,
        ).contains(k) by {
            let i = choose|i: int| 0 <= i < s1.len() && s1[i].spec_name() == k;
            if i < s.len() {
                assert(s2[i] == s1[i]);
            } else if i == s.len() {
                assert(s2[s.len() as int + 1] == s1[i]);
            } else {
                assert(s2[s.len() as int] == s1[i]);
            }
        }
        assert forall|k: Seq<char>| #[trigger] style_names(s2).contains(k) implies style_names(
            s1,
        ).contains(k) by {
            let i = choose|i: int| 0 <= i < s2.len() && s2[i].spec_name() == k;
            if i < s.len() {
                assert(s1[i] == s2[i]);
            } else if i == s.len() {
                assert(s1[s.len() as int + 1] == s2[i]);
            } else {
                assert(s1[s.len() as int] == s2[i]);
            }
        }
    }
    lemma_styles_render_order_insensitive(s1, s2);
}

/// Nesting `bold` inside `italic` or the other way round converts a text run
/// to a single text leaf either way, and the two leaves render the same
/// styles object, holding both marks.
pub proof fn lemma_nested_wrappers_convert_alike(
    text: Seq<char>,
    pos: crate::xml::TextPosition,
    styles: Seq<StyleView>,
)
    requires
        !crate::text::spec_all_whitespace(text),
    ensures
        ({
            let leaf = XmlNodeView::Text { text: text, pos: pos };
            let bold_in_italic = XmlNodeView::Element {
                tag: "italic"@,
                attrs: Seq::empty(),
                children: seq![
                    XmlNodeView::Element {
                        tag: "bold"@,
                        attrs: Seq::empty(),
                        children: seq![leaf],
                        pos: pos,
                    },
                ],
                pos: pos,
            };
            let italic_in_bold = XmlNodeView::Element {
                tag: "bold"@,
                attrs: Seq::empty(),
                children: seq![
                    XmlNodeView::Element {
                        tag: "italic"@,
                        attrs: Seq::empty(),
                        children: seq![leaf],
                        pos: pos,
                    },
                ],
                pos: pos,
            };
            match (
                crate::converter::spec_convert_content(bold_in_italic, styles),
                crate::converter::spec_convert_content(italic_in_bold, styles),
            ) {
                (Result::Ok(c1), Result::Ok(c2)) => {
                    &&& c1.kind == "text"@ && c2.kind == "text"@
                    &&& obj_map(styles_entries(c1.styles)) == obj_map(styles_entries(c2.styles))
                    &&& obj_map(styles_entries(c1.styles)).contains_key("bold"@)
                    &&& obj_map(styles_entries(c1.styles))["bold"@] == JsonView::Bool(true)
                    &&& obj_map(styles_entries(c1.styles)).contains_key("italic"@)
                    &&& obj_map(styles_entries(c1.styles))["italic"@] == JsonView::Bool(true)
                },
                _ => false,
            }
        }),
{
    reveal_strlit("bold");
    reveal_strlit("italic");
    assert("bold"@.len() == 4 && "italic"@.len() == 6);
    let leaf = XmlNodeView::Text { text: text, pos: pos };
    let inner1 = XmlNodeView::Element {
        tag: "bold"@,
        attrs: Seq::empty(),
        children: seq![leaf],
        pos: pos,
    };
    let outer1 = XmlNodeView::Element {
        tag: "italic"@,
        attrs: Seq::empty(),
        children: seq![inner1],
        pos: pos,
    };
    let inner2 = XmlNodeView::Element {
        tag: "italic"@,
        attrs: Seq::empty(),
        children: seq![leaf],
        pos: pos,
    };
    let outer2 = XmlNodeView::Element {
        tag: "bold"@,
        attrs: Seq::empty(),
        children: seq![inner2],
        pos: pos,
    };
    reveal_with_fuel(crate::converter::spec_first_kept_from, 3);
    assert(crate::converter::spec_first_kept_from(seq![inner1], 0) == 0);
    assert(crate::converter::spec_first_kept_from(seq![inner1], 1) == 1);
    assert(crate::converter::spec_first_kept_from(seq![inner2], 0) == 0);
    assert(crate::converter::spec_first_kept_from(seq![inner2], 1) == 1);
    assert(crate::converter::spec_first_kept_from(seq![leaf], 0) == 0);
    assert(crate::converter::spec_first_kept_from(seq![leaf], 1) == 1);
    reveal_with_fuel(crate::converter::spec_convert_content, 4);
    let s1 = styles.push(StyleView::Italic).push(StyleView::Bold);
    let s2 = styles.push(StyleView::Bold).push(StyleView::Italic);
    assert(crate::converter::spec_convert_content(outer1, styles) == Result::<
        crate::content::BasicContentView,
        crate::converter::ErrorView,
    >::Ok(
        crate::content::BasicContentView {
            kind: "text"@,
            props: seq![("text"@, JsonView::Str(text))],
            content: Option::None,
            styles: s1,
        },
    ));
    assert(crate::converter::spec_convert_content(outer2, styles) == Result::<
        crate::content::BasicContentView,
        crate::converter::ErrorView,
    >::Ok(
        crate::content::BasicContentView {
            kind: "text"@,
            props: seq![("text"@, JsonView::Str(text))],
            content: Option::None,
            styles: s2,
        },
    ));
    lemma_style_nesting_order_irrelevant(styles, StyleView::Italic, StyleView::Bold);
    lemma_styles_entries_map(s1);
    assert(style_names(s1).contains("bold"@)) by {
        assert(s1[s1.len() - 1].spec_name() == "bold"@);
    }
    assert(style_names(s1).contains("italic"@)) by {
        assert(s1[s1.len() - 2].spec_name() == "italic"@);
    }
}

/// A block with no inline children renders its `content` field as an empty
/// JSON array, never as null or an absent key.
pub proof fn lemma_empty_content_renders_empty_array(b: BlockView)
    requires
        b.content is None || (b.content matches Option::Some(c) && c matches
            crate::content::ContentView::Basic(cs) && cs.len() == 0),
    ensures
        (match spec_block_json(b) {
            JsonView::Object(fields) => obj_map(fields).contains_key("content"@) && obj_map(
                fields,
            )["content"@] == JsonView::Array(Seq::<JsonView>::empty()),
            _ => false,
        }),
{
    reveal_strlit("id");
    reveal_strlit("type");
    reveal_strlit("props");
    reveal_strlit("content");
    reveal_strlit("children");
    reveal_with_fuel(crate::json::obj_map, 7);
    match spec_block_json(b) {
        JsonView::Object(fields) => {
            assert(fields.len() == 5);
            match b.content {
                Option::None => {},
                Option::Some(c) => {
                    match c {
                        crate::content::ContentView::Basic(cs) => {
                            assert(spec_basics_json_from(cs, 0) =~= Seq::<JsonView>::empty());
                        },
                        _ => {},
                    }
                },
            }
            let f1 = fields.drop_first();
            let f2 = f1.drop_first();
            let f3 = f2.drop_first();
            let f4 = f3.drop_first();
            let f5 = f4.drop_first();
            assert(f5.len() == 0);
            assert(obj_map(f5) == Map::<Seq<char>, JsonView>::empty());
            assert(obj_map(f4) == obj_map(f5).insert(f4[0].0, f4[0].1));
            assert(obj_map(f3) == obj_map(f4).insert(f3[0].0, f3[0].1));
            assert(obj_map(f2) == obj_map(f3).insert(f2[0].0, f2[0].1));
            assert(obj_map(f1) == obj_map(f2).insert(f1[0].0, f1[0].1));
            assert(obj_map(fields) == obj_map(f1).insert(fields[0].0, fields[0].1));
            assert(f4[0] == fields[4] && f3[0] == fields[3] && f2[0] == fields[2] && f1[0]
                == fields[1]);
            assert(fields[0].0 == "id"@);
            assert(fields[1].0 == "type"@);
            assert(fields[2].0 == "props"@);
            assert(fields[3].0 == "content"@);
            assert(fields[4].0 == "children"@);
            assert(fields[3].1 == JsonView::Array(Seq::<JsonView>::empty()));
            assert("content"@.len() == 7 && "id"@.len() == 2 && "type"@.len() == 4 && "props"@.len()
                == 5);
            assert("content"@ != "id"@ && "content"@ != "type"@ && "content"@ != "props"@);
            assert(obj_map(fields)["content"@] == JsonView::Array(Seq::<JsonView>::empty()));
        },
        _ => {},
    }
}

/// Table column widths derive from the first row alone: two tables with the
/// same first row report the same `columnWidths`, whatever their later rows
/// hold.
pub proof fn lemma_column_widths_from_first_row(
    r1: Seq<Seq<TableCellView>>,
    r2: Seq<Seq<TableCellView>>,
)
    requires
        r1.len() > 0,
        r2.len() > 0,
        r1[0] == r2[0],
    ensures
        (match (spec_table_json(r1), spec_table_json(r2)) {
            (JsonView::Object(f1), JsonView::Object(f2)) => obj_map(f1).contains_key(
                "columnWidths"@,
            ) && obj_map(f1)["columnWidths"@] == obj_map(f2)["columnWidths"@],
            _ => false,
        }),
{
    reveal_strlit("type");
    reveal_strlit("columnWidths");
    reveal_strlit("rows");
    reveal_with_fuel(crate::json::obj_map, 5);
    match (spec_table_json(r1), spec_table_json(r2)) {
        (JsonView::Object(f1), JsonView::Object(f2)) => {
            assert(f1.len() == 3 && f2.len() == 3);
            let a1 = f1.drop_first();
            let b1 = a1.drop_first();
            let c1 = b1.drop_first();
            assert(c1.len() == 0);
            assert(obj_map(c1) == Map::<Seq<char>, JsonView>::empty());
            assert(obj_map(b1) == obj_map(c1).insert(b1[0].0, b1[0].1));
            assert(obj_map(a1) == obj_map(b1).insert(a1[0].0, a1[0].1));
            assert(obj_map(f1) == obj_map(a1).insert(f1[0].0, f1[0].1));
            assert(b1[0] == f1[2] && a1[0] == f1[1]);
            assert(f1[0].0 == "type"@);
            assert(f1[1].0 == "columnWidths"@);
            assert(f1[2].0 == "rows"@);
            assert(f1[1].1 == JsonView::Array(spec_widths(r1)));
            assert("columnWidths"@.len() == 12 && "type"@.len() == 4);
            assert("columnWidths"@ != "type"@);
            assert(obj_map(f1)["columnWidths"@] == JsonView::Array(spec_widths(r1)));
            let a2 = f2.drop_first();
            let b2 = a2.drop_first();
            let c2 = b2.drop_first();
            assert(c2.len() == 0);
            assert(obj_map(c2) == Map::<Seq<char>, JsonView>::empty());
            assert(obj_map(b2) == obj_map(c2).insert(b2[0].0, b2[0].1));
            assert(obj_map(a2) == obj_map(b2).insert(a2[0].0, a2[0].1));
            assert(obj_map(f2) == obj_map(a2).insert(f2[0].0, f2[0].1));
            assert(b2[0] == f2[2] && a2[0] == f2[1]);
            assert(f2[0].0 == "type"@);
            assert(f2[1].0 == "columnWidths"@);
            assert(f2[2].0 == "rows"@);
            assert(f2[1].1 == JsonView::Array(spec_widths(r2)));
            assert(obj_map(f2)["columnWidths"@] == JsonView::Array(spec_widths(r2)));
        },
        _ => {},
    }
}

/// The column widths a table reports.
pub open spec fn spec_widths(rows: Seq<Seq<TableCellView>>) -> Seq<JsonView> {
    if rows.len() == 0 {
        Seq::empty()
    } else {
        crate::content::spec_widths_from(rows[0], 0)
    }
}

/// Type normalization is idempotent: normalizing an already-normalized type
/// name changes nothing.
pub proof fn lemma_normalize_idempotent(t: Seq<char>)
    ensures
        spec_normalize_kind(spec_normalize_kind(t)) == spec_normalize_kind(t),
{
    reveal_strlit("bulletlistitem");
    reveal_strlit("bulletListItem");
    reveal_strlit("checklistitem");
    reveal_strlit("checkListItem");
    reveal_strlit("numberedlistitem");
    reveal_strlit("numberedListItem");
    assert("bulletListItem"@[6] != "bulletlistitem"@[6]);
    assert("checkListItem"@[5] != "checklistitem"@[5]);
    assert("numberedListItem"@[8] != "numberedlistitem"@[8]);
}

/// List-item index attributes never reach the props: for the list-item type
/// names, folding attributes keeps `index` absent.
pub proof fn lemma_list_index_dropped(
    kind: Seq<char>,
    props: Seq<(Seq<char>, JsonView)>,
    id: Seq<char>,
    attrs: Seq<(Seq<char>, Seq<char>)>,
    i: int,
)
    requires
        !obj_contains_key(props, "index"@),
        spec_drop_index(kind, "index"@),
    ensures
        !obj_contains_key(spec_apply_attrs_from(kind, props, id, attrs, i).0, "index"@),
    decreases attrs.len() - i,
{
    reveal_strlit("index");
    reveal_strlit("id");
    reveal_strlit("level");
    reveal_strlit("previewWidth");
    reveal_strlit("checked");
    reveal_strlit("showPreview");
    if 0 <= i < attrs.len() {
        let (p2, id2) = spec_apply_attr(kind, props, id, attrs[i].0, attrs[i].1);
        assert(!obj_contains_key(p2, "index"@)) by {
            if attrs[i].0 == "index"@ {
                assert("index"@[0] != "level"@[0]);
                assert(!spec_coerce_u64(kind, attrs[i].0));
                assert(!spec_coerce_bool(kind, attrs[i].0));
                assert(spec_drop_index(kind, attrs[i].0));
            } else {
                lemma_obj_insert_keys(props, attrs[i].0, JsonView::Null, "index"@);
                match spec_parse_uint(attrs[i].1) {
                    Option::Some(v) => {
                        lemma_obj_insert_keys(
                            props,
                            attrs[i].0,
                            JsonView::Num(v as u64),
                            "index"@,
                        );
                    },
                    Option::None => {},
                }
                match crate::text::spec_parse_bool(attrs[i].1) {
                    Option::Some(b) => {
                        lemma_obj_insert_keys(props, attrs[i].0, JsonView::Bool(b), "index"@);
                    },
                    Option::None => {},
                }
                lemma_obj_insert_keys(props, attrs[i].0, JsonView::Str(attrs[i].1), "index"@);
            }
        }
        lemma_list_index_dropped(kind, p2, id2, attrs, i + 1);
    }
}

/// A block container with no element children fails with the fatal
/// malformed-document error at the container's own position.
pub proof fn lemma_container_without_children_is_fatal(n: XmlNodeView)
    requires
        n is Element,
        (match n {
            XmlNodeView::Element { children, .. } => forall|i: int|
                0 <= i < children.len() ==> !(#[trigger] children[i] is Element),
            _ => false,
        }),
    ensures
        spec_convert_block_container(n) == Result::<BlockView, crate::converter::ErrorView>::Err(
            crate::converter::ErrorView::MalformedDocument(
                "blockcontainer with no children"@,
                n.position(),
            ),
        ),
{
    match n {
        XmlNodeView::Element { children, .. } => {
            lemma_first_elem_bounds(children, 0);
            let fe = spec_first_elem_from(children, 0);
            if fe < children.len() {
                assert(children[fe] is Element);
            }
        },
        _ => {},
    }
}

/// A heading whose `level` attribute never parses as a number succeeds with
/// `level` simply absent from its props: coercion failures are recovered by
/// omission, never fatal.
pub proof fn lemma_unparsable_level_dropped(
    props: Seq<(Seq<char>, JsonView)>,
    id: Seq<char>,
    attrs: Seq<(Seq<char>, Seq<char>)>,
    i: int,
)
    requires
        !obj_contains_key(props, "level"@),
        forall|j: int|
            i <= j < attrs.len() && (#[trigger] attrs[j]).0 == "level"@ ==> spec_parse_uint(
                attrs[j].1,
            ) is None,
    ensures
        !obj_contains_key(spec_apply_attrs_from("heading"@, props, id, attrs, i).0, "level"@),
    decreases attrs.len() - i,
{
    reveal_strlit("level");
    reveal_strlit("id");
    if 0 <= i < attrs.len() {
        let (p2, id2) = spec_apply_attr("heading"@, props, id, attrs[i].0, attrs[i].1);
        assert(!obj_contains_key(p2, "level"@)) by {
            if attrs[i].0 == "level"@ {
                assert(spec_parse_uint(attrs[i].1) is None);
            } else {
                lemma_obj_insert_keys(props, attrs[i].0, JsonView::Null, "level"@);
                match spec_parse_uint(attrs[i].1) {
                    Option::Some(v) => {
                        lemma_obj_insert_keys(
                            props,
                            attrs[i].0,
                            JsonView::Num(v as u64),
                            "level"@,
                        );
                    },
                    Option::None => {},
                }
                match crate::text::spec_parse_bool(attrs[i].1) {
                    Option::Some(b) => {
                        lemma_obj_insert_keys(props, attrs[i].0, JsonView::Bool(b), "level"@);
                    },
                    Option::None => {},
                }
                lemma_obj_insert_keys(props, attrs[i].0, JsonView::Str(attrs[i].1), "level"@);
            }
        }
        lemma_unparsable_level_dropped(p2, id2, attrs, i + 1);
    }
}

} // verus!
