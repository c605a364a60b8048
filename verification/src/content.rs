//! Inline block content: basic nodes (text runs and inline elements, with
//! their accumulated style stacks) and table content (a grid of cells), along
//! with their projections into the output JSON shape.

use vstd::prelude::*;

use crate::json::{
    arr_view, dup_json, entries_view, insert_entry, lemma_array_view, lemma_object_view,
    obj_insert, JsonValue, JsonView,
};
use crate::style::{styles_view, Style, StyleView};
use crate::xml::attrs_view;

verus! {

/// One basic (inline) content node: a text run or an inline element.
#[derive(Debug)]
pub struct BasicContent {
    pub kind: String,
    pub props: Vec<(String, JsonValue)>,
    pub content: Option<Vec<BasicContent>>,
    pub styles: Vec<Style>,
}

/// The ghost counterpart of [`BasicContent`].
#[verifier::ext_equal]
pub struct BasicContentView {
    pub kind: Seq<char>,
    pub props: Seq<(Seq<char>, JsonView)>,
    pub content: Option<Seq<BasicContentView>>,
    pub styles: Seq<StyleView>,
}

/// The view of one basic node.
pub open spec fn basic_view(c: BasicContent) -> BasicContentView
    decreases c,
{
    BasicContentView {
        kind: c.kind@,
        props: entries_view(c.props@),
        content: match c.content {
            Option::None => Option::None,
            Option::Some(cs) => Option::Some(basics_view_guarded(cs)),
        },
        styles: styles_view(c.styles@),
    }
}

/// The views of a list of basic nodes.
pub open spec fn basics_view_guarded(cs: Vec<BasicContent>) -> Seq<BasicContentView>
    decreases cs,
{
    Seq::new(
        cs@.len(),
        |i: int|
            if 0 <= i < cs@.len() {
                basic_view(cs@[i])
            } else {
                arbitrary()
            },
    )
}

impl View for BasicContent {
    type V = BasicContentView;

    open spec fn view(&self) -> BasicContentView {
        basic_view(*self)
    }
}

/// One table cell: its content plus its span and width attributes.
#[derive(Debug)]
pub struct TableCell {
    pub content: Vec<BasicContent>,
    pub colspan: u32,
    pub rowspan: u32,
    pub colwidth: Option<u32>,
}

/// The ghost counterpart of [`TableCell`].
#[verifier::ext_equal]
pub struct TableCellView {
    pub content: Seq<BasicContentView>,
    pub colspan: u32,
    pub rowspan: u32,
    pub colwidth: Option<u32>,
}

impl View for TableCell {
    type V = TableCellView;

    open spec fn view(&self) -> TableCellView {
        TableCellView {
            content: Seq::new(self.content@.len(), |i: int| self.content@[i]@),
            colspan: self.colspan,
            rowspan: self.rowspan,
            colwidth: self.colwidth,
        }
    }
}

/// One table row: its cells in order.
pub type TableRow = Vec<TableCell>;

/// A table's rows; column widths are read from the first row.
#[derive(Debug)]
pub struct TableContent(pub Vec<TableRow>);

/// The view of a table: rows of cell views.
pub open spec fn table_view(rows: Seq<TableRow>) -> Seq<Seq<TableCellView>> {
    Seq::new(rows.len(), |i: int| Seq::new(rows[i]@.len(), |j: int| rows[i]@[j]@))
}

impl View for TableContent {
    type V = Seq<Seq<TableCellView>>;

    open spec fn view(&self) -> Seq<Seq<TableCellView>> {
        table_view(self.0@)
    }
}

/// A block's content: a sequence of basic nodes, or a table.
#[derive(Debug)]
pub enum Content {
    Basic(Vec<BasicContent>),
    Table(TableContent),
}

/// The ghost counterpart of [`Content`].
#[verifier::ext_equal]
pub enum ContentView {
    Basic(Seq<BasicContentView>),
    Table(Seq<Seq<TableCellView>>),
}

impl View for Content {
    type V = ContentView;

    open spec fn view(&self) -> ContentView {
        match self {
            Content::Basic(cs) => ContentView::Basic(
                Seq::new(cs@.len(), |i: int| cs@[i]@),
            ),
            Content::Table(t) => ContentView::Table(t@),
        }
    }
}

/// The styles object: one `name -> true` entry per active mark, inserted in
/// stack order.
pub open spec fn styles_entries(styles: Seq<StyleView>) -> Seq<(Seq<char>, JsonView)>
    decreases styles.len(),
{
    if styles.len() == 0 {
        Seq::empty()
    } else {
        obj_insert(
            styles_entries(styles.drop_last()),
            styles.last().spec_name(),
            JsonView::Bool(true),
        )
    }
}

/// Fold a list of entries into an object, first to last.
pub open spec fn insert_all(
    base: Seq<(Seq<char>, JsonView)>,
    entries: Seq<(Seq<char>, JsonView)>,
) -> Seq<(Seq<char>, JsonView)>
    decreases entries.len(),
{
    if entries.len() == 0 {
        base
    } else {
        insert_all(obj_insert(base, entries[0].0, entries[0].1), entries.drop_first())
    }
}

/// Attribute values carried into props verbatim, as JSON strings.
pub open spec fn attrs_as_entries(
    attrs: Seq<(Seq<char>, Seq<char>)>,
) -> Seq<(Seq<char>, JsonView)> {
    Seq::new(attrs.len(), |i: int| (attrs[i].0, JsonView::Str(attrs[i].1)))
}

/// The JSON shape of one basic content node: `type` and `styles` first, then
/// the node's props (which may shadow them), then `content` when children are
/// present.
pub open spec fn spec_basic_json(c: BasicContentView) -> JsonView
    decreases c, 0int,
{
    let base = seq![
        ("type"@, JsonView::Str(c.kind)),
        ("styles"@, JsonView::Object(styles_entries(c.styles))),
    ];
    let with_props = insert_all(base, c.props);
    match c.content {
        Option::None => JsonView::Object(with_props),
        Option::Some(cs) => JsonView::Object(
            obj_insert(with_props, "content"@, JsonView::Array(spec_basics_json_from(cs, 0))),
        ),
    }
}

/// The JSON values of the nodes of `cs` from index `i` on.
pub open spec fn spec_basics_json_from(cs: Seq<BasicContentView>, i: int) -> Seq<JsonView>
    decreases cs, cs.len() - i,
{
    if i < 0 || i >= cs.len() {
        Seq::empty()
    } else {
        seq![spec_basic_json(cs[i])] + spec_basics_json_from(cs, i + 1)
    }
}

/// The column-width hints of the cells of `row` from index `i` on: the
/// width, or JSON null where a cell has none.
pub open spec fn spec_widths_from(row: Seq<TableCellView>, i: int) -> Seq<JsonView>
    decreases row.len() - i,
{
    if i < 0 || i >= row.len() {
        Seq::empty()
    } else {
        let w = match row[i].colwidth {
            Option::None => JsonView::Null,
            Option::Some(w) => JsonView::Num(w as u64),
        };
        seq![w] + spec_widths_from(row, i + 1)
    }
}

/// The JSON value of each cell of `row` from index `i` on: the array of its
/// content nodes.
pub open spec fn spec_cells_json_from(row: Seq<TableCellView>, i: int) -> Seq<JsonView>
    decreases row, row.len() - i,
{
    if i < 0 || i >= row.len() {
        Seq::empty()
    } else {
        seq![JsonView::Array(spec_basics_json_from(row[i].content, 0))] + spec_cells_json_from(
            row,
            i + 1,
        )
    }
}

/// The JSON value of each row of `rows` from index `i` on: an object holding
/// the row's cells.
pub open spec fn spec_rows_json_from(rows: Seq<Seq<TableCellView>>, i: int) -> Seq<JsonView>
    decreases rows, rows.len() - i,
{
    if i < 0 || i >= rows.len() {
        Seq::empty()
    } else {
        seq![
            JsonView::Object(seq![("cells"@, JsonView::Array(spec_cells_json_from(rows[i], 0)))]),
        ] + spec_rows_json_from(rows, i + 1)
    }
}

/// The JSON shape of table content. Column widths come from the first row
/// alone; a table with no rows reports no widths.
pub open spec fn spec_table_json(rows: Seq<Seq<TableCellView>>) -> JsonView {
    JsonView::Object(
        seq![
            ("type"@, JsonView::Str("tableContent"@)),
            (
                "columnWidths"@,
                JsonView::Array(
                    if rows.len() == 0 {
                        Seq::empty()
                    } else {
                        spec_widths_from(rows[0], 0)
                    },
                ),
            ),
            ("rows"@, JsonView::Array(spec_rows_json_from(rows, 0))),
        ],
    )
}

/// The JSON shape of a block's content: basic nodes render as an array, a
/// table as the table object.
pub open spec fn spec_content_json(c: ContentView) -> JsonView {
    match c {
        ContentView::Basic(cs) => JsonView::Array(spec_basics_json_from(cs, 0)),
        ContentView::Table(rows) => spec_table_json(rows),
    }
}

/// Length and elements of the basic-content projection.
pub proof fn lemma_basics_json_from(cs: Seq<BasicContentView>, i: int)
    requires
        0 <= i <= cs.len(),
    ensures
        spec_basics_json_from(cs, i).len() == cs.len() - i,
        forall|k: int|
            0 <= k < cs.len() - i ==> spec_basics_json_from(cs, i)[k] == spec_basic_json(
                cs[i + k],
            ),
    decreases cs.len() - i,
{
    if i < cs.len() {
        lemma_basics_json_from(cs, i + 1);
    }
}

/// Length and elements of the column-width projection.
pub proof fn lemma_widths_from(row: Seq<TableCellView>, i: int)
    requires
        0 <= i <= row.len(),
    ensures
        spec_widths_from(row, i).len() == row.len() - i,
        forall|k: int|
            0 <= k < row.len() - i ==> spec_widths_from(row, i)[k] == (match row[i + k].colwidth {
                Option::None => JsonView::Null,
                Option::Some(w) => JsonView::Num(w as u64),
            }),
    decreases row.len() - i,
{
    if i < row.len() {
        lemma_widths_from(row, i + 1);
    }
}

/// Length and elements of the cell projection.
pub proof fn lemma_cells_json_from(row: Seq<TableCellView>, i: int)
    requires
        0 <= i <= row.len(),
    ensures
        spec_cells_json_from(row, i).len() == row.len() - i,
        forall|k: int|
            0 <= k < row.len() - i ==> spec_cells_json_from(row, i)[k] == JsonView::Array(
                spec_basics_json_from(row[i + k].content, 0),
            ),
    decreases row.len() - i,
{
    if i < row.len() {
        lemma_cells_json_from(row, i + 1);
    }
}

/// Length and elements of the row projection.
pub proof fn lemma_rows_json_from(rows: Seq<Seq<TableCellView>>, i: int)
    requires
        0 <= i <= rows.len(),
    ensures
        spec_rows_json_from(rows, i).len() == rows.len() - i,
        forall|k: int|
            0 <= k < rows.len() - i ==> spec_rows_json_from(rows, i)[k] == JsonView::Object(
                seq![("cells"@, JsonView::Array(spec_cells_json_from(rows[i + k], 0)))],
            ),
    decreases rows.len() - i,
{
    if i < rows.len() {
        lemma_rows_json_from(rows, i + 1);
    }
}

/// The styles object of a style stack, built mark by mark.
#[verifier::loop_isolation(false)]
fn styles_json(styles: &Vec<Style>) -> (r: Vec<(String, JsonValue)>)
    ensures
        entries_view(r@) == styles_entries(styles_view(styles@)),
{
    let ghost sv = styles_view(styles@);
    let mut out: Vec<(String, JsonValue)> = Vec::new();
    let n = styles.len();
    let mut i: usize = 0;
    proof {
        assert(sv.take(0) =~= Seq::<StyleView>::empty());
        assert(entries_view(out@) =~= Seq::<(Seq<char>, JsonView)>::empty());
    }
    while i < n
        invariant
            i <= n,
            entries_view(out@) == styles_entries(sv.take(i as int)),
        decreases n - i,
    {
        let name = String::from_str(styles[i].name());
        proof {
            assert(sv.take(i + 1).drop_last() =~= sv.take(i as int));
            assert(sv.take(i + 1).last() == sv[i as int]);
        }
        insert_entry(&mut out, name, JsonValue::Bool(true));
        i += 1;
    }
    proof {
        assert(sv.take(n as int) =~= sv);
    }
    out
}

impl BasicContent {
    /// An empty basic node: no type, no props, no children, no styles.
    pub fn new() -> (r: Self)
        ensures
            r@.kind == Seq::<char>::empty(),
            r@.props == Seq::<(Seq<char>, JsonView)>::empty(),
            r@.content is None,
            r@.styles == Seq::<StyleView>::empty(),
    {
        let r = BasicContent {
            kind: String::new(),
            props: Vec::new(),
            content: Option::None,
            styles: Vec::new(),
        };
        proof {
            assert(r@.props =~= Seq::<(Seq<char>, JsonView)>::empty());
            assert(r@.styles =~= Seq::<StyleView>::empty());
        }
        r
    }

    /// Fold the element's attributes into the node's props, verbatim as
    /// strings, in document order.
    #[verifier::loop_isolation(false)]
    pub fn apply_attributes(&mut self, attributes: &Vec<(String, String)>)
        ensures
            final(self)@ == (BasicContentView {
                props: insert_all(old(self)@.props, attrs_as_entries(attrs_view(attributes@))),
                ..old(self)@
            }),
    {
        let ghost es = attrs_as_entries(attrs_view(attributes@));
        let ghost p0 = entries_view(self.props@);
        proof {
            assert(es.skip(0) =~= es);
        }
        let n = attributes.len();
        let mut i: usize = 0;
        while i < n
            invariant
                i <= n,
                n == attributes@.len(),
                self.kind == old(self).kind,
                self.content == old(self).content,
                self.styles == old(self).styles,
                insert_all(entries_view(self.props@), es.skip(i as int)) == insert_all(p0, es),
            decreases n - i,
        {
            proof {
                assert(es.skip(i as int)[0] == es[i as int]);
                assert(es.skip(i as int).drop_first() =~= es.skip(i + 1));
            }
            let key = attributes[i].0.clone();
            let value = JsonValue::Str(attributes[i].1.clone());
            insert_entry(&mut self.props, key, value);
            i += 1;
        }
        proof {
            assert(es.skip(n as int) =~= Seq::<(Seq<char>, JsonView)>::empty());
            assert(final(self)@ == (BasicContentView {
                props: insert_all(old(self)@.props, es),
                ..old(self)@
            }));
        }
    }

    /// Render the node into the output JSON shape.
    #[verifier::loop_isolation(false)]
    pub fn to_json(&self) -> (r: JsonValue)
        ensures
            r@ == spec_basic_json(self@),
        decreases self, 1int,
    {
        let sj = styles_json(&self.styles);
        let ghost sjv = sj;
        let mut obj: Vec<(String, JsonValue)> = Vec::new();
        obj.push((String::from_str("type"), JsonValue::Str(self.kind.clone())));
        obj.push((String::from_str("styles"), JsonValue::Object(sj)));
        let ghost base = seq![
            ("type"@, JsonView::Str(self@.kind)),
            ("styles"@, JsonView::Object(styles_entries(self@.styles))),
        ];
        proof {
            lemma_object_view(sjv);
            assert(entries_view(obj@) =~= base);
        }
        let ghost es = self@.props;
        proof {
            assert(es.skip(0) =~= es);
        }
        let n = self.props.len();
        let mut i: usize = 0;
        while i < n
            invariant
                i <= n,
                n == self.props@.len(),
                insert_all(entries_view(obj@), es.skip(i as int)) == insert_all(base, es),
            decreases n - i,
        {
            proof {
                assert(es.skip(i as int)[0] == es[i as int]);
                assert(es.skip(i as int).drop_first() =~= es.skip(i + 1));
            }
            let key = self.props[i].0.clone();
            let value = dup_json(&self.props[i].1);
            insert_entry(&mut obj, key, value);
            i += 1;
        }
        proof {
            assert(es.skip(n as int) =~= Seq::<(Seq<char>, JsonView)>::empty());
        }
        match &self.content {
            Option::None => {
                let ghost ov = obj;
                let r = JsonValue::Object(obj);
                proof {
                    lemma_object_view(ov);
                }
                r
            },
            Option::Some(cs) => {
                proof {
                    assert(decreases_to!(*self => self.content));
                    assert(decreases_to!(self.content => *cs));
                }
                let arr = basics_json_vec(cs);
                let ghost arrv = arr;
                insert_entry(&mut obj, String::from_str("content"), JsonValue::Array(arr));
                let ghost ov = obj;
                let r = JsonValue::Object(obj);
                proof {
                    lemma_object_view(ov);
                    lemma_array_view(arrv);
                    let csv = self@.content->Some_0;
                    lemma_basics_json_from(csv, 0);
                    assert(arr_view(arrv@) =~= spec_basics_json_from(csv, 0));
                    assert(r@ == JsonView::Object(
                        obj_insert(
                            insert_all(base, es),
                            "content"@,
                            JsonView::Array(spec_basics_json_from(csv, 0)),
                        ),
                    ));
                }
                r
            },
        }
    }
}

/// Render a list of basic nodes into the array of their JSON values.
#[verifier::loop_isolation(false)]
fn basics_json_vec(cs: &Vec<BasicContent>) -> (r: Vec<JsonValue>)
    ensures
        r@.len() == cs@.len(),
        forall|k: int| 0 <= k < r@.len() ==> r@[k]@ == spec_basic_json(cs@[k]@),
    decreases cs, 0int,
{
    let mut out: Vec<JsonValue> = Vec::new();
    let n = cs.len();
    let mut i: usize = 0;
    while i < n
        invariant
            i <= n,
            n == cs@.len(),
            out@.len() == i,
            forall|k: int| 0 <= k < i ==> out@[k]@ == spec_basic_json(cs@[k]@),
        decreases n - i,
    {
        proof {
            assert(decreases_to!(*cs => cs@));
            assert(decreases_to!(cs@ => cs@[i as int]));
        }
        let v = cs[i].to_json();
        out.push(v);
        i += 1;
    }
    out
}

impl Content {
    /// Render the block content: basic nodes as an array, a table as the
    /// table object.
    pub fn to_json(&self) -> (r: JsonValue)
        ensures
            r@ == spec_content_json(self@),
    {
        match self {
            Content::Basic(cs) => {
                let arr = basics_json_vec(cs);
                let ghost arrv = arr;
                let r = JsonValue::Array(arr);
                proof {
                    lemma_array_view(arrv);
                    lemma_basics_json_from(self@->Basic_0, 0);
                    assert(arr_view(arrv@) =~= spec_basics_json_from(self@->Basic_0, 0));
                }
                r
            },
            Content::Table(t) => t.to_json(),
        }
    }
}

impl TableCell {
    /// A cell with default spans, no width hint and no content.
    pub fn new() -> (r: Self)
        ensures
            r@.content == Seq::<BasicContentView>::empty(),
            r@.colspan == 1u32,
            r@.rowspan == 1u32,
            r@.colwidth is None,
    {
        let r = TableCell { content: Vec::new(), colspan: 1, rowspan: 1, colwidth: Option::None };
        proof {
            assert(r@.content =~= Seq::<BasicContentView>::empty());
        }
        r
    }
}

impl TableContent {
    /// Table content over the given rows.
    pub fn new(rows: Vec<TableRow>) -> (r: Self)
        ensures
            r@ == table_view(rows@),
    {
        TableContent(rows)
    }

    /// Render the table into the output JSON shape: its type tag, the column
    /// widths of the first row, and each row's cells.
    #[verifier::loop_isolation(false)]
    pub fn to_json(&self) -> (r: JsonValue)
        ensures
            r@ == spec_table_json(self@),
    {
        let ghost rowsv = self@;
        let mut widths: Vec<JsonValue> = Vec::new();
        if self.0.len() > 0 {
            let row = &self.0[0];
            let n = row.len();
            let mut i: usize = 0;
            while i < n
                invariant
                    i <= n,
                    n == row@.len(),
                    widths@.len() == i,
                    forall|k: int|
                        0 <= k < i ==> widths@[k]@ == (match row@[k]@.colwidth {
                            Option::None => JsonView::Null,
                            Option::Some(w) => JsonView::Num(w as u64),
                        }),
                decreases n - i,
            {
                let w = match row[i].colwidth {
                    Option::None => JsonValue::Null,
                    Option::Some(w) => JsonValue::Num(w as u64),
                };
                widths.push(w);
                i += 1;
            }
        }
        proof {
            if rowsv.len() > 0 {
                lemma_widths_from(rowsv[0], 0);
            }
        }
        let mut rows_json: Vec<JsonValue> = Vec::new();
        let m = self.0.len();
        let mut i: usize = 0;
        while i < m
            invariant
                i <= m,
                m == self.0@.len(),
                rows_json@.len() == i,
                forall|k: int|
                    0 <= k < i ==> rows_json@[k]@ == JsonView::Object(
                        seq![("cells"@, JsonView::Array(spec_cells_json_from(rowsv[k], 0)))],
                    ),
            decreases m - i,
        {
            let row = &self.0[i];
            let mut cells: Vec<JsonValue> = Vec::new();
            let n = row.len();
            let mut j: usize = 0;
            while j < n
                invariant
                    j <= n,
                    n == row@.len(),
                    i < m,
                    m == self.0@.len(),
                    row == &self.0[i as int],
                    cells@.len() == j,
                    forall|k: int|
                        0 <= k < j ==> cells@[k]@ == JsonView::Array(
                            spec_basics_json_from(rowsv[i as int][k].content, 0),
                        ),
                decreases n - j,
            {
                let arr = basics_json_vec(&row[j].content);
                let ghost arrv = arr;
                let cell_json = JsonValue::Array(arr);
                proof {
                    lemma_array_view(arrv);
                    lemma_basics_json_from(rowsv[i as int][j as int].content, 0);
                    assert(arr_view(arrv@) =~= spec_basics_json_from(
                        rowsv[i as int][j as int].content,
                        0,
                    ));
                }
                cells.push(cell_json);
                j += 1;
            }
            let ghost cellsv = cells;
            let mut row_obj: Vec<(String, JsonValue)> = Vec::new();
            row_obj.push((String::from_str("cells"), JsonValue::Array(cells)));
            let ghost row_objv = row_obj;
            let row_json = JsonValue::Object(row_obj);
            proof {
                lemma_object_view(row_objv);
                lemma_array_view(cellsv);
                lemma_cells_json_from(rowsv[i as int], 0);
                assert(arr_view(cellsv@) =~= spec_cells_json_from(rowsv[i as int], 0));
                assert(entries_view(row_objv@) =~= seq![
                    ("cells"@, JsonView::Array(spec_cells_json_from(rowsv[i as int], 0))),
                ]);
            }
            rows_json.push(row_json);
            i += 1;
        }
        let ghost widthsv = widths;
        let ghost rows_jsonv = rows_json;
        let mut obj: Vec<(String, JsonValue)> = Vec::new();
        obj.push((String::from_str("type"), JsonValue::Str(String::from_str("tableContent"))));
        obj.push((String::from_str("columnWidths"), JsonValue::Array(widths)));
        obj.push((String::from_str("rows"), JsonValue::Array(rows_json)));
        let ghost ov = obj;
        let r = JsonValue::Object(obj);
        proof {
            lemma_object_view(ov);
            lemma_array_view(widthsv);
            lemma_array_view(rows_jsonv);
            lemma_rows_json_from(rowsv, 0);
            assert(arr_view(widthsv@) =~= (if rowsv.len() == 0 {
                Seq::<JsonView>::empty()
            } else {
                spec_widths_from(rowsv[0], 0)
            }));
            assert(arr_view(rows_jsonv@) =~= spec_rows_json_from(rowsv, 0));
            assert(entries_view(ov@) =~= (match spec_table_json(rowsv) {
                JsonView::Object(t) => t,
                _ => arbitrary(),
            }));
        }
        r
    }
}

} // verus!
