//! One node of the document outline: identity, type name, typed props,
//! optional inline or table content, and nested child blocks.

use vstd::prelude::*;

use crate::content::{spec_content_json, Content, ContentView};
use crate::json::{
    dup_entries, entries_view, insert_entry, lemma_array_view, lemma_object_view, obj_insert,
    JsonValue, JsonView,
};
use crate::text::{parse_bool, parse_u64, spec_parse_bool, spec_parse_uint, str_eq};
use crate::xml::attrs_view;

verus! {

/// One block of the document.
#[derive(Debug)]
pub struct Block {
    pub id: String,
    pub kind: String,
    pub props: Vec<(String, JsonValue)>,
    pub content: Option<Content>,
    pub children: Vec<Block>,
}

/// The ghost counterpart of [`Block`].
#[verifier::ext_equal]
pub struct BlockView {
    pub id: Seq<char>,
    pub kind: Seq<char>,
    pub props: Seq<(Seq<char>, JsonView)>,
    pub content: Option<ContentView>,
    pub children: Seq<BlockView>,
}

/// The view of one block.
pub open spec fn block_view(b: Block) -> BlockView
    decreases b,
{
    BlockView {
        id: b.id@,
        kind: b.kind@,
        props: entries_view(b.props@),
        content: match b.content {
            Option::None => Option::None,
            Option::Some(c) => Option::Some(c@),
        },
        children: Seq::new(
            b.children@.len(),
            |i: int|
                if 0 <= i < b.children@.len() {
                    block_view(b.children@[i])
                } else {
                    arbitrary()
                },
        ),
    }
}

impl View for Block {
    type V = BlockView;

    open spec fn view(&self) -> BlockView {
        block_view(*self)
    }
}

/// Attributes whose values are coerced to JSON numbers for the given block
/// type.
pub open spec fn spec_coerce_u64(kind: Seq<char>, name: Seq<char>) -> bool {
    (kind == "heading"@ && name == "level"@) || ((kind == "image"@ || kind == "video"@) && name
        == "previewWidth"@)
}

/// Attributes whose values are coerced to JSON booleans for the given block
/// type.
pub open spec fn spec_coerce_bool(kind: Seq<char>, name: Seq<char>) -> bool {
    (kind == "checkListItem"@ && name == "checked"@) || ((kind == "image"@ || kind == "audio"@
        || kind == "video"@) && name == "showPreview"@)
}

/// List-item index attributes are dropped: the index is derived from the
/// block's position, not stored.
pub open spec fn spec_drop_index(kind: Seq<char>, name: Seq<char>) -> bool {
    name == "index"@ && (kind == "bulletlistitem"@ || kind == "checklistitem"@ || kind
        == "numberedlistitem"@ || kind == "numberedListItem"@)
}

/// Fold one attribute into the props and id: `id` is extracted into the
/// block's identity; known numeric and boolean attributes are coerced, with
/// unparsable values silently dropped; list-item indexes are dropped; anything
/// else is kept verbatim as a string.
pub open spec fn spec_apply_attr(
    kind: Seq<char>,
    props: Seq<(Seq<char>, JsonView)>,
    id: Seq<char>,
    name: Seq<char>,
    value: Seq<char>,
) -> (Seq<(Seq<char>, JsonView)>, Seq<char>) {
    if name == "id"@ {
        (props, value)
    } else if spec_coerce_u64(kind, name) {
        match spec_parse_uint(value) {
            Option::Some(v) => if v <= u64::MAX {
                (obj_insert(props, name, JsonView::Num(v as u64)), id)
            } else {
                (props, id)
            },
            Option::None => (props, id),
        }
    } else if spec_coerce_bool(kind, name) {
        match spec_parse_bool(value) {
            Option::Some(b) => (obj_insert(props, name, JsonView::Bool(b)), id),
            Option::None => (props, id),
        }
    } else if spec_drop_index(kind, name) {
        (props, id)
    } else {
        (obj_insert(props, name, JsonView::Str(value)), id)
    }
}

/// Fold the attributes from index `i` on into the props and id.
pub open spec fn spec_apply_attrs_from(
    kind: Seq<char>,
    props: Seq<(Seq<char>, JsonView)>,
    id: Seq<char>,
    attrs: Seq<(Seq<char>, Seq<char>)>,
    i: int,
) -> (Seq<(Seq<char>, JsonView)>, Seq<char>)
    decreases attrs.len() - i,
{
    if i < 0 || i >= attrs.len() {
        (props, id)
    } else {
        let (p2, id2) = spec_apply_attr(kind, props, id, attrs[i].0, attrs[i].1);
        spec_apply_attrs_from(kind, p2, id2, attrs, i + 1)
    }
}

/// The three legacy lower-case list-item type names rewritten to their
/// canonical camel-cased forms; all other names pass through.
pub open spec fn spec_normalize_kind(t: Seq<char>) -> Seq<char> {
    if t == "bulletlistitem"@ {
        "bulletListItem"@
    } else if t == "checklistitem"@ {
        "checkListItem"@
    } else if t == "numberedlistitem"@ {
        "numberedListItem"@
    } else {
        t
    }
}

/// The JSON shape of one block.
pub open spec fn spec_block_json(b: BlockView) -> JsonView
    decreases b, 0int,
{
    JsonView::Object(
        seq![
            ("id"@, JsonView::Str(b.id)),
            ("type"@, JsonView::Str(spec_normalize_kind(b.kind))),
            ("props"@, JsonView::Object(b.props)),
            (
                "content"@,
                match b.content {
                    Option::None => JsonView::Array(Seq::empty()),
                    Option::Some(c) => spec_content_json(c),
                },
            ),
            ("children"@, JsonView::Array(spec_blocks_json_from(b.children, 0))),
        ],
    )
}

/// The JSON values of the blocks of `bs` from index `i` on.
pub open spec fn spec_blocks_json_from(bs: Seq<BlockView>, i: int) -> Seq<JsonView>
    decreases bs, bs.len() - i,
{
    if i < 0 || i >= bs.len() {
        Seq::empty()
    } else {
        seq![spec_block_json(bs[i])] + spec_blocks_json_from(bs, i + 1)
    }
}

/// Length and elements of the block projection.
pub proof fn lemma_blocks_json_from(bs: Seq<BlockView>, i: int)
    requires
        0 <= i <= bs.len(),
    ensures
        spec_blocks_json_from(bs, i).len() == bs.len() - i,
        forall|k: int|
            0 <= k < bs.len() - i ==> spec_blocks_json_from(bs, i)[k] == spec_block_json(
                bs[i + k],
            ),
    decreases bs.len() - i,
{
    if i < bs.len() {
        lemma_blocks_json_from(bs, i + 1);
    }
}

impl Block {
    /// An empty block: no identity, no type, no props, no content, no
    /// children.
    pub fn new() -> (r: Self)
        ensures
            r@.id == Seq::<char>::empty(),
            r@.kind == Seq::<char>::empty(),
            r@.props == Seq::<(Seq<char>, JsonView)>::empty(),
            r@.content is None,
            r@.children == Seq::<BlockView>::empty(),
    {
        let r = Block {
            id: String::new(),
            kind: String::new(),
            props: Vec::new(),
            content: Option::None,
            children: Vec::new(),
        };
        proof {
            assert(r@.props =~= Seq::<(Seq<char>, JsonView)>::empty());
            assert(r@.children =~= Seq::<BlockView>::empty());
        }
        r
    }

    /// Fold the attributes into the block's props and identity, in document
    /// order, under the coercion rules for the block's current type name.
    #[verifier::loop_isolation(false)]
    pub fn apply_attributes(&mut self, attributes: &Vec<(String, String)>)
        ensures
            ({
                let folded = spec_apply_attrs_from(
                    old(self)@.kind,
                    old(self)@.props,
                    old(self)@.id,
                    attrs_view(attributes@),
                    0,
                );
                final(self)@ == (BlockView { props: folded.0, id: folded.1, ..old(self)@ })
            }),
    {
        let ghost av = attrs_view(attributes@);
        let ghost kind0 = self@.kind;
        let ghost target = spec_apply_attrs_from(kind0, self@.props, self@.id, av, 0);
        let n = attributes.len();
        let mut i: usize = 0;
        while i < n
            invariant
                i <= n,
                n == attributes@.len(),
                self.kind == old(self).kind,
                self.content == old(self).content,
                self.children == old(self).children,
                spec_apply_attrs_from(kind0, entries_view(self.props@), self.id@, av, i as int)
                    == target,
            decreases n - i,
        {
            let name = &attributes[i].0;
            let value = &attributes[i].1;
            let ghost props_before = entries_view(self.props@);
            let ghost id_before = self.id@;
            proof {
                assert(av[i as int] == (name@, value@));
            }
            if str_eq(name.as_str(), "id") {
                self.id = value.clone();
            } else if (str_eq(self.kind.as_str(), "heading") && str_eq(name.as_str(), "level"))
                || ((str_eq(self.kind.as_str(), "image") || str_eq(self.kind.as_str(), "video"))
                && str_eq(name.as_str(), "previewWidth")) {
                match parse_u64(value.as_str()) {
                    Option::Some(v) => {
                        insert_entry(&mut self.props, name.clone(), JsonValue::Num(v));
                    },
                    Option::None => {},
                }
            } else if (str_eq(self.kind.as_str(), "checkListItem") && str_eq(
                name.as_str(),
                "checked",
            )) || ((str_eq(self.kind.as_str(), "image") || str_eq(self.kind.as_str(), "audio")
                || str_eq(self.kind.as_str(), "video")) && str_eq(name.as_str(), "showPreview")) {
                match parse_bool(value.as_str()) {
                    Option::Some(b) => {
                        insert_entry(&mut self.props, name.clone(), JsonValue::Bool(b));
                    },
                    Option::None => {},
                }
            } else if str_eq(name.as_str(), "index") && (str_eq(
                self.kind.as_str(),
                "bulletlistitem",
            ) || str_eq(self.kind.as_str(), "checklistitem") || str_eq(
                self.kind.as_str(),
                "numberedlistitem",
            ) || str_eq(self.kind.as_str(), "numberedListItem")) {
                // recognized list-item index: derived by position, not stored
            } else {
                insert_entry(&mut self.props, name.clone(), JsonValue::Str(value.clone()));
            }
            proof {
                assert((entries_view(self.props@), self.id@) == spec_apply_attr(
                    kind0,
                    props_before,
                    id_before,
                    av[i as int].0,
                    av[i as int].1,
                ));
            }
            i += 1;
        }
    }

    /// The block's type name with legacy list-item spellings rewritten to
    /// their canonical forms.
    pub fn normalized_kind(&self) -> (r: String)
        ensures
            r@ == spec_normalize_kind(self@.kind),
    {
        if str_eq(self.kind.as_str(), "bulletlistitem") {
            String::from_str("bulletListItem")
        } else if str_eq(self.kind.as_str(), "checklistitem") {
            String::from_str("checkListItem")
        } else if str_eq(self.kind.as_str(), "numberedlistitem") {
            String::from_str("numberedListItem")
        } else {
            self.kind.clone()
        }
    }

    /// Render the block into the output JSON shape.
    #[verifier::loop_isolation(false)]
    pub fn to_json(&self) -> (r: JsonValue)
        ensures
            r@ == spec_block_json(self@),
        decreases self, 1int,
    {
        let mut obj: Vec<(String, JsonValue)> = Vec::new();
        obj.push((String::from_str("id"), JsonValue::Str(self.id.clone())));
        obj.push((String::from_str("type"), JsonValue::Str(self.normalized_kind())));
        let props_copy = dup_entries(&self.props);
        let ghost pcv = props_copy;
        obj.push((String::from_str("props"), JsonValue::Object(props_copy)));
        let content_json = match &self.content {
            Option::None => {
                let empty: Vec<JsonValue> = Vec::new();
                let ghost ev = empty;
                let r = JsonValue::Array(empty);
                proof {
                    lemma_array_view(ev);
                    assert(crate::json::arr_view(ev@) =~= Seq::<JsonView>::empty());
                }
                r
            },
            Option::Some(c) => c.to_json(),
        };
        obj.push((String::from_str("content"), content_json));
        let kids = blocks_json_vec(&self.children);
        let ghost kidsv = kids;
        obj.push((String::from_str("children"), JsonValue::Array(kids)));
        let ghost ov = obj;
        let r = JsonValue::Object(obj);
        proof {
            lemma_object_view(ov);
            lemma_object_view(pcv);
            lemma_array_view(kidsv);
            lemma_blocks_json_from(self@.children, 0);
            assert(crate::json::arr_view(kidsv@) =~= spec_blocks_json_from(self@.children, 0));
            assert(entries_view(ov@) =~= (match spec_block_json(self@) {
                JsonView::Object(t) => t,
                _ => arbitrary(),
            }));
        }
        r
    }
}

/// Render a list of blocks into the array of their JSON values.
#[verifier::loop_isolation(false)]
pub fn blocks_json_vec(bs: &Vec<Block>) -> (r: Vec<JsonValue>)
    ensures
        r@.len() == bs@.len(),
        forall|k: int| 0 <= k < r@.len() ==> r@[k]@ == spec_block_json(bs@[k]@),
    decreases bs, 0int,
{
    let mut out: Vec<JsonValue> = Vec::new();
    let n = bs.len();
    let mut i: usize = 0;
    while i < n
        invariant
            i <= n,
            n == bs@.len(),
            out@.len() == i,
            forall|k: int| 0 <= k < i ==> out@[k]@ == spec_block_json(bs@[k]@),
        decreases n - i,
    {
        proof {
            assert(decreases_to!(*bs => bs@));
            assert(decreases_to!(bs@ => bs@[i as int]));
        }
        let v = bs[i].to_json();
        out.push(v);
        i += 1;
    }
    out
}

} // verus!
