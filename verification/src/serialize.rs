//! Rendering a CRDT XML fragment snapshot back into literal XML text.
//!
//! The snapshot is modeled as plain values: element nodes with attributes and
//! children, transparent nested fragments, and text nodes made of attributed
//! runs. Each run's marks open one wrapper tag apiece, in order, around the
//! escaped run text, and close in exact reverse order, so each run's markup
//! nests correctly. Inserts that are not strings, and attribute values that
//! are neither strings nor the explicit empty case, are skipped silently.

use vstd::prelude::*;

verus! {

/// One node of a fragment snapshot.
#[derive(Debug)]
pub enum FragmentNode {
    Element { tag: String, attrs: Vec<(String, String)>, children: Vec<FragmentNode> },
    Fragment { children: Vec<FragmentNode> },
    Text { runs: Vec<TextRun> },
}

/// One attributed run of a text node: the inserted chunk and the marks active
/// over it.
#[derive(Debug)]
pub struct TextRun {
    pub insert: RunInsert,
    pub marks: Vec<Mark>,
}

/// The inserted chunk: a string, or an embedded value that is not serialized.
#[derive(Debug)]
pub enum RunInsert {
    Str(String),
    Other,
}

/// One active mark: its name doubles as the wrapper tag name.
#[derive(Debug)]
pub struct Mark {
    pub name: String,
    pub value: MarkValue,
}

/// What a mark carries: no attribute map (the wrapper is rendered bare), or a
/// map rendered as attributes on the wrapper tag.
#[derive(Debug)]
pub enum MarkValue {
    Plain,
    Attrs(Vec<(String, AttrValue)>),
}

/// One wrapper-attribute value: the explicit empty case, a string, or
/// something else (skipped).
#[derive(Debug)]
pub enum AttrValue {
    Null,
    Str(String),
    Other,
}

/// The ghost counterpart of [`FragmentNode`].
#[verifier::ext_equal]
pub enum FragmentNodeView {
    Element {
        tag: Seq<char>,
        attrs: Seq<(Seq<char>, Seq<char>)>,
        children: Seq<FragmentNodeView>,
    },
    Fragment { children: Seq<FragmentNodeView> },
    Text { runs: Seq<TextRunView> },
}

/// The ghost counterpart of [`TextRun`].
#[verifier::ext_equal]
pub struct TextRunView {
    pub insert: Option<Seq<char>>,
    pub marks: Seq<MarkView>,
}

/// The ghost counterpart of [`Mark`].
#[verifier::ext_equal]
pub struct MarkView {
    pub name: Seq<char>,
    pub value: Option<Seq<(Seq<char>, Option<Seq<char>>)>>,
}

/// The view of a wrapper-attribute value: the empty case is the empty string.
pub open spec fn attr_value_view(v: AttrValue) -> Option<Seq<char>> {
    match v {
        AttrValue::Null => Option::Some(Seq::empty()),
        AttrValue::Str(s) => Option::Some(s@),
        AttrValue::Other => Option::None,
    }
}

impl View for Mark {
    type V = MarkView;

    open spec fn view(&self) -> MarkView {
        MarkView {
            name: self.name@,
            value: match self.value {
                MarkValue::Plain => Option::None,
                MarkValue::Attrs(al) => Option::Some(
                    Seq::new(al@.len(), |i: int| (al@[i].0@, attr_value_view(al@[i].1))),
                ),
            },
        }
    }
}

impl View for TextRun {
    type V = TextRunView;

    open spec fn view(&self) -> TextRunView {
        TextRunView {
            insert: match self.insert {
                RunInsert::Str(s) => Option::Some(s@),
                RunInsert::Other => Option::None,
            },
            marks: Seq::new(self.marks@.len(), |i: int| self.marks@[i]@),
        }
    }
}

/// The view of one fragment node.
pub open spec fn fragment_view(n: FragmentNode) -> FragmentNodeView
    decreases n,
{
    match n {
        FragmentNode::Element { tag, attrs, children } => FragmentNodeView::Element {
            tag: tag@,
            attrs: Seq::new(attrs@.len(), |i: int| (attrs@[i].0@, attrs@[i].1@)),
            children: Seq::new(
                children@.len(),
                |i: int|
                    if 0 <= i < children@.len() {
                        fragment_view(children@[i])
                    } else {
                        arbitrary()
                    },
            ),
        },
        FragmentNode::Fragment { children } => FragmentNodeView::Fragment {
            children: Seq::new(
                children@.len(),
                |i: int|
                    if 0 <= i < children@.len() {
                        fragment_view(children@[i])
                    } else {
                        arbitrary()
                    },
            ),
        },
        FragmentNode::Text { runs } => FragmentNodeView::Text {
            runs: Seq::new(runs@.len(), |i: int| runs@[i]@),
        },
    }
}

impl View for FragmentNode {
    type V = FragmentNodeView;

    open spec fn view(&self) -> FragmentNodeView {
        fragment_view(*self)
    }
}

/// The views of a list of fragment nodes.
pub open spec fn fragments_view(ns: Seq<FragmentNode>) -> Seq<FragmentNodeView> {
    Seq::new(ns.len(), |i: int| fragment_view(ns[i]))
}

/// What one character escapes to: the five XML-special characters map to
/// their named entities, newline, carriage return and tab to numeric
/// references, and every other character to itself.
pub open spec fn spec_escape_char(c: char) -> Seq<char> {
    if c == '<' {
        "&lt;"@
    } else if c == '>' {
        "&gt;"@
    } else if c == '&' {
        "&amp;"@
    } else if c == '"' {
        "&quot;"@
    } else if c == '\'' {
        "&apos;"@
    } else if c == '\n' {
        "&#10;"@
    } else if c == '\r' {
        "&#13;"@
    } else if c == '\t' {
        "&#9;"@
    } else {
        seq![c]
    }
}

/// The escaped text of `s` from index `i` on.
pub open spec fn spec_escape_from(s: Seq<char>, i: int) -> Seq<char>
    decreases s.len() - i,
{
    if i < 0 || i >= s.len() {
        Seq::empty()
    } else {
        spec_escape_char(s[i]) + spec_escape_from(s, i + 1)
    }
}

/// The escaped text of `s`.
pub open spec fn spec_escape(s: Seq<char>) -> Seq<char> {
    spec_escape_from(s, 0)
}

/// The attribute text of an element's open tag from index `i` on: one
/// ` name="value"` per attribute, values escaped.
pub open spec fn spec_attrs_text(attrs: Seq<(Seq<char>, Seq<char>)>, i: int) -> Seq<char>
    decreases attrs.len() - i,
{
    if i < 0 || i >= attrs.len() {
        Seq::empty()
    } else {
        " "@ + attrs[i].0 + "=\""@ + spec_escape(attrs[i].1) + "\""@ + spec_attrs_text(
            attrs,
            i + 1,
        )
    }
}

/// The attribute text a mark's map contributes from index `i` on: the empty
/// case renders as `name=""`, strings render escaped, anything else is
/// skipped.
pub open spec fn spec_mark_attrs_text(
    al: Seq<(Seq<char>, Option<Seq<char>>)>,
    i: int,
) -> Seq<char>
    decreases al.len() - i,
{
    if i < 0 || i >= al.len() {
        Seq::empty()
    } else {
        let piece = match al[i].1 {
            Option::Some(v) => " "@ + al[i].0 + "=\""@ + spec_escape(v) + "\""@,
            Option::None => Seq::<char>::empty(),
        };
        piece + spec_mark_attrs_text(al, i + 1)
    }
}

/// The open tags of a run's marks from index `i` on, in mark order.
pub open spec fn spec_marks_open(marks: Seq<MarkView>, i: int) -> Seq<char>
    decreases marks.len() - i,
{
    if i < 0 || i >= marks.len() {
        Seq::empty()
    } else {
        let attrs_text = match marks[i].value {
            Option::Some(al) => spec_mark_attrs_text(al, 0),
            Option::None => Seq::<char>::empty(),
        };
        "<"@ + marks[i].name + attrs_text + ">"@ + spec_marks_open(marks, i + 1)
    }
}

/// The close tags of a run's marks from index `i` down to the first: exact
/// reverse order of the opens.
pub open spec fn spec_marks_close(marks: Seq<MarkView>, i: int) -> Seq<char>
    decreases i + 1,
{
    if i < 0 || i >= marks.len() {
        Seq::empty()
    } else {
        "</"@ + marks[i].name + ">"@ + spec_marks_close(marks, i - 1)
    }
}

/// The markup of one attributed run: every mark opens a wrapper tag, the
/// run's escaped text follows, and the wrappers close in reverse order. A
/// non-string insert contributes nothing.
pub open spec fn spec_run_text(run: TextRunView) -> Seq<char> {
    match run.insert {
        Option::None => Seq::empty(),
        Option::Some(s) => spec_marks_open(run.marks, 0) + spec_escape(s) + spec_marks_close(
            run.marks,
            run.marks.len() - 1,
        ),
    }
}

/// The markup of a text node's runs from index `i` on.
pub open spec fn spec_runs_text(runs: Seq<TextRunView>, i: int) -> Seq<char>
    decreases runs.len() - i,
{
    if i < 0 || i >= runs.len() {
        Seq::empty()
    } else {
        spec_run_text(runs[i]) + spec_runs_text(runs, i + 1)
    }
}

/// The XML text of one node: an element emits its open tag with escaped
/// attributes, its children, and its close tag; a nested fragment flattens
/// transparently; a text node emits its runs.
pub open spec fn spec_serialize_node(n: FragmentNodeView) -> Seq<char>
    decreases n, 0int,
{
    match n {
        FragmentNodeView::Element { tag, attrs, children } => "<"@ + tag + spec_attrs_text(
            attrs,
            0,
        ) + ">"@ + spec_serialize_list(children, 0) + "</"@ + tag + ">"@,
        FragmentNodeView::Fragment { children } => spec_serialize_list(children, 0),
        FragmentNodeView::Text { runs } => spec_runs_text(runs, 0),
    }
}

/// The XML text of the nodes of `ns` from index `i` on.
pub open spec fn spec_serialize_list(ns: Seq<FragmentNodeView>, i: int) -> Seq<char>
    decreases ns, 1int, ns.len() - i,
{
    if i < 0 || i >= ns.len() {
        Seq::empty()
    } else {
        spec_serialize_node(ns[i]) + spec_serialize_list(ns, i + 1)
    }
}

/// Escape text for XML: `<`, `>`, `&`, `"`, `'`, newline, carriage return and
/// tab become entities; all else passes through.
#[verifier::loop_isolation(false)]
pub fn escape_xml_text(text: &str) -> (r: String)
    ensures
        r@ == spec_escape(text@),
{
    let n = text.unicode_len();
    let mut out = String::new();
    let mut i: usize = 0;
    while i < n
        invariant
            i <= n,
            n == text@.len(),
            spec_escape_from(text@, 0) == out@ + spec_escape_from(text@, i as int),
        decreases n - i,
    {
        let ghost pre = out@;
        let c = text.get_char(i);
        if c == '<' {
            out.append("&lt;");
        } else if c == '>' {
            out.append("&gt;");
        } else if c == '&' {
            out.append("&amp;");
        } else if c == '"' {
            out.append("&quot;");
        } else if c == '\'' {
            out.append("&apos;");
        } else if c == '\n' {
            out.append("&#10;");
        } else if c == '\r' {
            out.append("&#13;");
        } else if c == '\t' {
            out.append("&#9;");
        } else {
            let piece = text.substring_char(i, i + 1);
            out.append(piece);
            proof {
                assert(piece@ =~= seq![text@[i as int]]);
            }
        }
        proof {
            assert(out@ == pre + spec_escape_char(text@[i as int]));
            assert(pre + (spec_escape_char(text@[i as int]) + spec_escape_from(text@, i + 1))
                =~= (pre + spec_escape_char(text@[i as int])) + spec_escape_from(text@, i + 1));
        }
        i += 1;
    }
    proof {
        assert(out@ + Seq::<char>::empty() =~= out@);
    }
    out
}

/// Append ` name="value"` for each attribute, values escaped.
#[verifier::loop_isolation(false)]
fn push_attrs(out: &mut String, attrs: &Vec<(String, String)>)
    ensures
        final(out)@ == old(out)@ + spec_attrs_text(
            Seq::new(attrs@.len(), |i: int| (attrs@[i].0@, attrs@[i].1@)),
            0,
        ),
{
    let ghost av = Seq::new(attrs@.len(), |i: int| (attrs@[i].0@, attrs@[i].1@));
    let n = attrs.len();
    let mut i: usize = 0;
    proof {
        assert(old(out)@ + Seq::<char>::empty() =~= old(out)@);
    }
    while i < n
        invariant
            i <= n,
            n == attrs@.len(),
            old(out)@ + spec_attrs_text(av, 0) == out@ + spec_attrs_text(av, i as int),
        decreases n - i,
    {
        let ghost pre = out@;
        out.append(" ");
        out.append(attrs[i].0.as_str());
        out.append("=\"");
        let escaped = escape_xml_text(attrs[i].1.as_str());
        out.append(escaped.as_str());
        out.append("\"");
        proof {
            assert(out@ =~= pre + (" "@ + av[i as int].0 + "=\""@ + spec_escape(av[i as int].1)
                + "\""@));
            assert(pre + ((" "@ + av[i as int].0 + "=\""@ + spec_escape(av[i as int].1) + "\""@)
                + spec_attrs_text(av, i + 1)) =~= (pre + (" "@ + av[i as int].0 + "=\""@
                + spec_escape(av[i as int].1) + "\""@)) + spec_attrs_text(av, i + 1));
        }
        i += 1;
    }
    proof {
        assert(out@ + Seq::<char>::empty() =~= out@);
    }
}

/// Append the markup of one attributed run.
#[verifier::loop_isolation(false)]
fn push_run(out: &mut String, run: &TextRun)
    ensures
        final(out)@ == old(out)@ + spec_run_text(run@),
{
    match &run.insert {
        RunInsert::Other => {
            proof {
                assert(old(out)@ + spec_run_text(run@) =~= old(out)@);
            }
        },
        RunInsert::Str(s) => {
            let ghost marks = run@.marks;
            let n = run.marks.len();
            let mut i: usize = 0;
            proof {
                assert(old(out)@ + Seq::<char>::empty() =~= old(out)@);
            }
            while i < n
                invariant
                    i <= n,
                    n == run.marks@.len(),
                    marks == run@.marks,
                    old(out)@ + spec_marks_open(marks, 0) == out@ + spec_marks_open(
                        marks,
                        i as int,
                    ),
                decreases n - i,
            {
                let ghost pre = out@;
                out.append("<");
                out.append(run.marks[i].name.as_str());
                let ghost attrs_text = match marks[i as int].value {
                    Option::Some(al) => spec_mark_attrs_text(al, 0),
                    Option::None => Seq::<char>::empty(),
                };
                match &run.marks[i].value {
                    MarkValue::Plain => {},
                    MarkValue::Attrs(al) => {
                        push_mark_attrs(out, al);
                    },
                }
                out.append(">");
                proof {
                    assert(marks[i as int] == run.marks@[i as int]@);
                    assert(out@ =~= pre + ("<"@ + marks[i as int].name + attrs_text + ">"@));
                    assert(pre + (("<"@ + marks[i as int].name + attrs_text + ">"@)
                        + spec_marks_open(marks, i + 1)) =~= (pre + ("<"@ + marks[i as int].name
                        + attrs_text + ">"@)) + spec_marks_open(marks, i + 1));
                }
                i += 1;
            }
            proof {
                assert(out@ + Seq::<char>::empty() =~= out@);
            }
            let escaped = escape_xml_text(s.as_str());
            out.append(escaped.as_str());
            let mut j: usize = n;
            while j > 0
                invariant
                    j <= n,
                    n == run.marks@.len(),
                    marks == run@.marks,
                    out@ + spec_marks_close(marks, j as int - 1) == old(out)@ + spec_marks_open(
                        marks,
                        0,
                    ) + spec_escape(s@) + spec_marks_close(marks, marks.len() - 1),
                decreases j,
            {
                let ghost pre = out@;
                out.append("</");
                out.append(run.marks[j - 1].name.as_str());
                out.append(">");
                proof {
                    assert(marks[j as int - 1] == run.marks@[j as int - 1]@);
                    assert(out@ =~= pre + ("</"@ + marks[j as int - 1].name + ">"@));
                    assert(pre + (("</"@ + marks[j as int - 1].name + ">"@) + spec_marks_close(
                        marks,
                        j as int - 2,
                    )) =~= (pre + ("</"@ + marks[j as int - 1].name + ">"@)) + spec_marks_close(
                        marks,
                        j as int - 2,
                    ));
                }
                j -= 1;
            }
            proof {
                assert(out@ + Seq::<char>::empty() =~= out@);
                assert(spec_run_text(run@) == spec_marks_open(marks, 0) + spec_escape(s@)
                    + spec_marks_close(marks, marks.len() - 1));
            }
        },
    }
}

/// Append a mark's attribute map as wrapper-tag attributes.
#[verifier::loop_isolation(false)]
fn push_mark_attrs(out: &mut String, al: &Vec<(String, AttrValue)>)
    ensures
        final(out)@ == old(out)@ + spec_mark_attrs_text(
            Seq::new(al@.len(), |i: int| (al@[i].0@, attr_value_view(al@[i].1))),
            0,
        ),
{
    let ghost av = Seq::new(al@.len(), |i: int| (al@[i].0@, attr_value_view(al@[i].1)));
    let n = al.len();
    let mut i: usize = 0;
    proof {
        assert(old(out)@ + Seq::<char>::empty() =~= old(out)@);
    }
    while i < n
        invariant
            i <= n,
            n == al@.len(),
            old(out)@ + spec_mark_attrs_text(av, 0) == out@ + spec_mark_attrs_text(av, i as int),
        decreases n - i,
    {
        let ghost pre = out@;
        let ghost piece = match av[i as int].1 {
            Option::Some(v) => " "@ + av[i as int].0 + "=\""@ + spec_escape(v) + "\""@,
            Option::None => Seq::<char>::empty(),
        };
        match &al[i].1 {
            AttrValue::Null => {
                out.append(" ");
                out.append(al[i].0.as_str());
                out.append("=\"");
                out.append("\"");
                proof {
                    assert(spec_escape_from(Seq::<char>::empty(), 0) =~= Seq::<char>::empty());
                    assert(out@ =~= pre + piece);
                }
            },
            AttrValue::Str(s) => {
                out.append(" ");
                out.append(al[i].0.as_str());
                out.append("=\"");
                let escaped = escape_xml_text(s.as_str());
                out.append(escaped.as_str());
                out.append("\"");
                proof {
                    assert(out@ =~= pre + piece);
                }
            },
            AttrValue::Other => {
                proof {
                    assert(out@ =~= pre + piece);
                }
            },
        }
        proof {
            assert(pre + (piece + spec_mark_attrs_text(av, i + 1)) =~= (pre + piece)
                + spec_mark_attrs_text(av, i + 1));
        }
        i += 1;
    }
    proof {
        assert(out@ + Seq::<char>::empty() =~= out@);
    }
}

/// Append the XML text of one node.
#[verifier::loop_isolation(false)]
fn serialize_node(n: &FragmentNode, out: &mut String)
    ensures
        final(out)@ == old(out)@ + spec_serialize_node(fragment_view(*n)),
    decreases n, 0int,
{
    match n {
        FragmentNode::Element { tag, attrs, children } => {
            let ghost nv = fragment_view(*n);
            let ghost av = Seq::new(attrs@.len(), |i: int| (attrs@[i].0@, attrs@[i].1@));
            out.append("<");
            out.append(tag.as_str());
            push_attrs(out, attrs);
            out.append(">");
            proof {
                assert(decreases_to!(*n => *children));
            }
            serialize_children(children, out);
            out.append("</");
            out.append(tag.as_str());
            out.append(">");
            proof {
                match nv {
                    FragmentNodeView::Element { tag: tv, attrs: avv, children: cv } => {
                        assert(avv =~= av);
                        assert(cv =~= fragments_view(children@));
                        assert(out@ =~= old(out)@ + ("<"@ + tv + spec_attrs_text(avv, 0) + ">"@
                            + spec_serialize_list(cv, 0) + "</"@ + tv + ">"@));
                    },
                    _ => {},
                }
            }
        },
        FragmentNode::Fragment { children } => {
            let ghost nv = fragment_view(*n);
            proof {
                assert(decreases_to!(*n => *children));
            }
            serialize_children(children, out);
            proof {
                match nv {
                    FragmentNodeView::Fragment { children: cv } => {
                        assert(cv =~= fragments_view(children@));
                    },
                    _ => {},
                }
            }
        },
        FragmentNode::Text { runs } => {
            let ghost nv = fragment_view(*n);
            let ghost rv = Seq::new(runs@.len(), |i: int| runs@[i]@);
            let m = runs.len();
            let mut i: usize = 0;
            proof {
                assert(old(out)@ + Seq::<char>::empty() =~= old(out)@);
            }
            while i < m
                invariant
                    i <= m,
                    m == runs@.len(),
                    rv == Seq::new(runs@.len(), |k: int| runs@[k]@),
                    old(out)@ + spec_runs_text(rv, 0) == out@ + spec_runs_text(rv, i as int),
                decreases m - i,
            {
                let ghost pre = out@;
                push_run(out, &runs[i]);
                proof {
                    assert(rv[i as int] == runs@[i as int]@);
                    assert(pre + (spec_run_text(rv[i as int]) + spec_runs_text(rv, i + 1)) =~= (pre
                        + spec_run_text(rv[i as int])) + spec_runs_text(rv, i + 1));
                }
                i += 1;
            }
            proof {
                assert(out@ + Seq::<char>::empty() =~= out@);
                match nv {
                    FragmentNodeView::Text { runs: rvv } => {
                        assert(rvv =~= rv);
                    },
                    _ => {},
                }
            }
        },
    }
}

/// Append the XML text of each node in order.
#[verifier::loop_isolation(false)]
fn serialize_children(ns: &Vec<FragmentNode>, out: &mut String)
    ensures
        final(out)@ == old(out)@ + spec_serialize_list(fragments_view(ns@), 0),
    decreases ns, 1int,
{
    let ghost nv = fragments_view(ns@);
    let m = ns.len();
    let mut i: usize = 0;
    proof {
        assert(old(out)@ + Seq::<char>::empty() =~= old(out)@);
    }
    while i < m
        invariant
            i <= m,
            m == ns@.len(),
            old(out)@ + spec_serialize_list(nv, 0) == out@ + spec_serialize_list(nv, i as int),
        decreases m - i,
    {
        let ghost pre = out@;
        proof {
            assert(nv[i as int] == fragment_view(ns@[i as int]));
            assert(decreases_to!(*ns => ns@));
            assert(decreases_to!(ns@ => ns@[i as int]));
        }
        serialize_node(&ns[i], out);
        proof {
            assert(pre + (spec_serialize_node(nv[i as int]) + spec_serialize_list(nv, i + 1)) =~= (
            pre + spec_serialize_node(nv[i as int])) + spec_serialize_list(nv, i + 1));
        }
        i += 1;
    }
    proof {
        assert(out@ + Seq::<char>::empty() =~= out@);
    }
}

/// The literal XML text of a fragment snapshot: its children in document
/// order, with no declaration or added wrapper.
pub fn fragment_xml(nodes: &Vec<FragmentNode>) -> (r: String)
    ensures
        r@ == spec_serialize_list(fragments_view(nodes@), 0),
{
    let mut out = String::new();
    serialize_children(nodes, &mut out);
    proof {
        assert(Seq::<char>::empty() + spec_serialize_list(fragments_view(nodes@), 0)
            =~= spec_serialize_list(fragments_view(nodes@), 0));
    }
    out
}

} // verus!
