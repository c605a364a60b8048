//! The JSON value model that props and the projected block tree are built
//! from. Objects keep their entries in insertion order; inserting an existing
//! key replaces its value in place.

use vstd::prelude::*;

use crate::text::str_eq;

verus! {

/// One JSON-compatible value.
#[derive(Debug, PartialEq, Eq)]
pub enum JsonValue {
    Null,
    Bool(bool),
    Num(u64),
    Str(String),
    Array(Vec<JsonValue>),
    Object(Vec<(String, JsonValue)>),
}

/// The ghost counterpart of [`JsonValue`].
#[verifier::ext_equal]
pub enum JsonView {
    Null,
    Bool(bool),
    Num(u64),
    Str(Seq<char>),
    Array(Seq<JsonView>),
    Object(Seq<(Seq<char>, JsonView)>),
}

/// The view of a value, spelled out variant by variant.
pub open spec fn json_view(v: JsonValue) -> JsonView
    decreases v,
{
    match v {
        JsonValue::Null => JsonView::Null,
        JsonValue::Bool(b) => JsonView::Bool(b),
        JsonValue::Num(n) => JsonView::Num(n),
        JsonValue::Str(s) => JsonView::Str(s@),
        JsonValue::Array(a) => JsonView::Array(
            Seq::new(a@.len(), |i: int| if 0 <= i < a@.len() { json_view(a@[i]) } else { JsonView::Null }),
        ),
        JsonValue::Object(o) => JsonView::Object(
            Seq::new(
                o@.len(),
                |i: int|
                    if 0 <= i < o@.len() {
                        (o@[i].0@, json_view(o@[i].1))
                    } else {
                        (Seq::empty(), JsonView::Null)
                    },
            ),
        ),
    }
}

impl View for JsonValue {
    type V = JsonView;

    open spec fn view(&self) -> JsonView {
        json_view(*self)
    }
}

/// The view of an object's backing vector of entries.
pub open spec fn entries_view(o: Seq<(String, JsonValue)>) -> Seq<(Seq<char>, JsonView)> {
    Seq::new(o.len(), |i: int| (o[i].0@, o[i].1@))
}

/// The view of an array's backing vector of values.
pub open spec fn arr_view(a: Seq<JsonValue>) -> Seq<JsonView> {
    Seq::new(a.len(), |i: int| a[i]@)
}

/// The view of an object value is the view of its entries.
pub proof fn lemma_object_view(v: Vec<(String, JsonValue)>)
    ensures
        (JsonValue::Object(v))@ == JsonView::Object(entries_view(v@)),
{
    let x = JsonValue::Object(v);
    let s = x@->Object_0;
    assert(s.len() == v@.len());
    assert forall|i: int| 0 <= i < s.len() implies s[i] == entries_view(v@)[i] by {
        assert(s[i] == (v@[i].0@, v@[i].1@));
    }
    assert(s =~= entries_view(v@));
    assert(x@ == JsonView::Object(s));
}

/// The view of an array value is the view of its elements.
pub proof fn lemma_array_view(v: Vec<JsonValue>)
    ensures
        (JsonValue::Array(v))@ == JsonView::Array(arr_view(v@)),
{
    let x = JsonValue::Array(v);
    let s = x@->Array_0;
    assert(s.len() == v@.len());
    assert forall|i: int| 0 <= i < s.len() implies s[i] == arr_view(v@)[i] by {
        assert(s[i] == v@[i]@);
    }
    assert(s =~= arr_view(v@));
    assert(x@ == JsonView::Array(s));
}

/// Whether the entry list holds the key.
pub open spec fn obj_contains_key(o: Seq<(Seq<char>, JsonView)>, k: Seq<char>) -> bool {
    exists|i: int| 0 <= i < o.len() && o[i].0 == k
}

/// The entry list after inserting `k -> v`: the first entry with key `k` is
/// replaced in place, or the pair is appended when the key is new.
pub open spec fn obj_insert(
    o: Seq<(Seq<char>, JsonView)>,
    k: Seq<char>,
    v: JsonView,
) -> Seq<(Seq<char>, JsonView)>
    decreases o.len(),
{
    if o.len() == 0 {
        seq![(k, v)]
    } else if o[0].0 == k {
        seq![(k, v)] + o.drop_first()
    } else {
        seq![o[0]] + obj_insert(o.drop_first(), k, v)
    }
}

/// The key-to-value map an entry list denotes; the first entry with a key
/// wins.
pub open spec fn obj_map(o: Seq<(Seq<char>, JsonView)>) -> Map<Seq<char>, JsonView>
    decreases o.len(),
{
    if o.len() == 0 {
        Map::empty()
    } else {
        obj_map(o.drop_first()).insert(o[0].0, o[0].1)
    }
}

/// Inserting an entry affects the denoted map exactly as a map insert.
pub proof fn lemma_obj_insert_map(o: Seq<(Seq<char>, JsonView)>, k: Seq<char>, v: JsonView)
    ensures
        obj_map(obj_insert(o, k, v)) == obj_map(o).insert(k, v),
    decreases o.len(),
{
    if o.len() == 0 {
        let r = obj_insert(o, k, v);
        assert(r.len() == 1 && r[0] == (k, v));
        assert(r.drop_first() =~= Seq::<(Seq<char>, JsonView)>::empty());
        assert(obj_map(r) == obj_map(r.drop_first()).insert(r[0].0, r[0].1));
        assert(obj_map(obj_insert(o, k, v)) =~= obj_map(o).insert(k, v));
    } else if o[0].0 == k {
        let r = obj_insert(o, k, v);
        assert(r[0] == (k, v));
        assert(r.drop_first() =~= o.drop_first());
        assert(obj_map(r) == obj_map(r.drop_first()).insert(r[0].0, r[0].1));
        assert(obj_map(o) == obj_map(o.drop_first()).insert(o[0].0, o[0].1));
        assert(obj_map(obj_insert(o, k, v)) =~= obj_map(o).insert(k, v));
    } else {
        lemma_obj_insert_map(o.drop_first(), k, v);
        assert(obj_insert(o, k, v).drop_first() =~= obj_insert(o.drop_first(), k, v));
        assert(obj_insert(o, k, v)[0] == o[0]);
        assert(obj_map(obj_insert(o, k, v)) == obj_map(obj_insert(o.drop_first(), k, v)).insert(
            o[0].0,
            o[0].1,
        ));
        assert(obj_map(obj_insert(o, k, v)) =~= obj_map(o).insert(k, v));
    }
}

/// Inserting `k` adds exactly the key `k` to the keys present.
pub proof fn lemma_obj_insert_keys(
    o: Seq<(Seq<char>, JsonView)>,
    k: Seq<char>,
    v: JsonView,
    k2: Seq<char>,
)
    ensures
        obj_contains_key(obj_insert(o, k, v), k2) == (k2 == k || obj_contains_key(o, k2)),
    decreases o.len(),
{
    let r = obj_insert(o, k, v);
    if o.len() == 0 {
        if k2 == k {
            assert(r[0].0 == k2);
        }
    } else if o[0].0 == k {
        if k2 == k {
            assert(r[0].0 == k2);
        } else {
            assert forall|i: int| 0 <= i < r.len() && r[i].0 == k2 implies obj_contains_key(
                o,
                k2,
            ) by {
                assert(r[i] == o.drop_first()[i - 1]);
                assert(o[i] == r[i]);
            }
            if obj_contains_key(o, k2) {
                let i = choose|i: int| 0 <= i < o.len() && o[i].0 == k2;
                assert(i > 0);
                assert(r[i] == o.drop_first()[i - 1]);
                assert(r[i].0 == k2);
            }
        }
    } else {
        lemma_obj_insert_keys(o.drop_first(), k, v, k2);
        assert(r[0] == o[0]);
        assert(r.drop_first() =~= obj_insert(o.drop_first(), k, v));
        if k2 == k || obj_contains_key(o, k2) {
            if r[0].0 != k2 {
                if obj_contains_key(o, k2) && o[0].0 != k2 {
                    let i = choose|i: int| 0 <= i < o.len() && o[i].0 == k2;
                    assert(o.drop_first()[i - 1].0 == k2);
                }
                assert(obj_contains_key(obj_insert(o.drop_first(), k, v), k2));
                let i = choose|i: int|
                    0 <= i < r.drop_first().len() && r.drop_first()[i].0 == k2;
                assert(r[i + 1].0 == k2);
            }
        }
        if obj_contains_key(r, k2) {
            let i = choose|i: int| 0 <= i < r.len() && r[i].0 == k2;
            if i > 0 {
                assert(r.drop_first()[i - 1].0 == k2);
                if k2 != k {
                    let j = choose|j: int|
                        0 <= j < o.drop_first().len() && o.drop_first()[j].0 == k2;
                    assert(o[j + 1].0 == k2);
                }
            }
        }
    }
}

/// Replacing the first occurrence in place is what `obj_insert` does when the
/// key is present at `i` and nowhere earlier.
pub proof fn lemma_obj_insert_at(
    o: Seq<(Seq<char>, JsonView)>,
    i: int,
    k: Seq<char>,
    v: JsonView,
)
    requires
        0 <= i < o.len(),
        o[i].0 == k,
        forall|j: int| 0 <= j < i ==> o[j].0 != k,
    ensures
        obj_insert(o, k, v) == o.update(i, (k, v)),
    decreases o.len(),
{
    if i == 0 {
        assert(obj_insert(o, k, v) =~= o.update(0, (k, v)));
    } else {
        assert(o.drop_first()[i - 1].0 == k);
        assert forall|j: int| 0 <= j < i - 1 implies o.drop_first()[j].0 != k by {
            assert(o.drop_first()[j] == o[j + 1]);
        }
        lemma_obj_insert_at(o.drop_first(), i - 1, k, v);
        assert(obj_insert(o, k, v) =~= o.update(i, (k, v)));
    }
}

/// Appending is what `obj_insert` does when the key is absent.
pub proof fn lemma_obj_insert_append(o: Seq<(Seq<char>, JsonView)>, k: Seq<char>, v: JsonView)
    requires
        !obj_contains_key(o, k),
    ensures
        obj_insert(o, k, v) == o.push((k, v)),
    decreases o.len(),
{
    if o.len() == 0 {
        assert(obj_insert(o, k, v) =~= o.push((k, v)));
    } else {
        assert(o[0].0 != k);
        assert(!obj_contains_key(o.drop_first(), k)) by {
            if obj_contains_key(o.drop_first(), k) {
                let i = choose|i: int|
                    0 <= i < o.drop_first().len() && o.drop_first()[i].0 == k;
                assert(o[i + 1].0 == k);
            }
        }
        lemma_obj_insert_append(o.drop_first(), k, v);
        assert(obj_insert(o, k, v) =~= o.push((k, v)));
    }
}

/// Insert `k -> v` into the entry vector, replacing the value of the first
/// entry with that key, or appending when the key is new.
#[verifier::loop_isolation(false)]
pub fn insert_entry(o: &mut Vec<(String, JsonValue)>, k: String, v: JsonValue)
    ensures
        entries_view(final(o)@) == obj_insert(entries_view(old(o)@), k@, v@),
{
    let ghost o0 = entries_view(o@);
    let n = o.len();
    let mut i: usize = 0;
    while i < n
        invariant
            n == o@.len(),
            i <= n,
            o0 == entries_view(o@),
            forall|j: int| 0 <= j < i ==> o0[j].0 != k@,
        decreases n - i,
    {
        if str_eq(o[i].0.as_str(), k.as_str()) {
            proof {
                assert(o0[i as int].0 == k@);
            }
            o.set(i, (k, v));
            proof {
                lemma_obj_insert_at(o0, i as int, k@, v@);
                assert(entries_view(o@) =~= o0.update(i as int, (k@, v@)));
            }
            return ;
        }
        i += 1;
    }
    o.push((k, v));
    proof {
        assert(!obj_contains_key(o0, k@));
        lemma_obj_insert_append(o0, k@, v@);
        assert(entries_view(o@) =~= o0.push((k@, v@)));
    }
}

/// A copy of an object's entry vector, equal under the view.
#[verifier::loop_isolation(false)]
pub fn dup_entries(o: &Vec<(String, JsonValue)>) -> (r: Vec<(String, JsonValue)>)
    ensures
        entries_view(r@) == entries_view(o@),
{
    let mut out: Vec<(String, JsonValue)> = Vec::new();
    let n = o.len();
    let mut i: usize = 0;
    while i < n
        invariant
            i <= n,
            n == o@.len(),
            out@.len() == i,
            forall|j: int| 0 <= j < i ==> out@[j].0@ == o@[j].0@ && out@[j].1@ == o@[j].1@,
        decreases n - i,
    {
        let key = o[i].0.clone();
        let value = dup_json(&o[i].1);
        out.push((key, value));
        i += 1;
    }
    proof {
        assert(entries_view(out@) =~= entries_view(o@));
    }
    out
}

/// A copy of the value, equal under the view.
#[verifier::loop_isolation(false)]
pub fn dup_json(v: &JsonValue) -> (r: JsonValue)
    ensures
        r@ == v@,
    decreases v,
{
    match v {
        JsonValue::Null => JsonValue::Null,
        JsonValue::Bool(b) => JsonValue::Bool(*b),
        JsonValue::Num(n) => JsonValue::Num(*n),
        JsonValue::Str(s) => JsonValue::Str(s.clone()),
        JsonValue::Array(a) => {
            let mut out: Vec<JsonValue> = Vec::new();
            let n = a.len();
            let mut i: usize = 0;
            while i < n
                invariant
                    n == a@.len(),
                    i <= n,
                    out@.len() == i,
                    forall|j: int| 0 <= j < i ==> out@[j]@ == a@[j]@,
                decreases n - i,
            {
                proof {
                    assert(*v == JsonValue::Array(*a));
                    assert(decreases_to!(*v => *a));
                    assert(decreases_to!(*a => a@));
                    assert(decreases_to!(a@ => a@[i as int]));
                }
                let d = dup_json(&a[i]);
                out.push(d);
                i += 1;
            }
            let r = JsonValue::Array(out);
            proof {
                match (r@, v@) {
                    (JsonView::Array(s1), JsonView::Array(s2)) => {
                        assert(s1 =~= s2);
                    },
                    _ => {},
                }
            }
            r
        },
        JsonValue::Object(o) => {
            let mut out: Vec<(String, JsonValue)> = Vec::new();
            let n = o.len();
            let mut i: usize = 0;
            while i < n
                invariant
                    n == o@.len(),
                    i <= n,
                    out@.len() == i,
                    forall|j: int|
                        0 <= j < i ==> out@[j].0@ == o@[j].0@ && out@[j].1@ == o@[j].1@,
                decreases n - i,
            {
                let key = o[i].0.clone();
                let val = dup_json(&o[i].1);
                out.push((key, val));
                i += 1;
            }
            let r = JsonValue::Object(out);
            proof {
                match (r@, v@) {
                    (JsonView::Object(s1), JsonView::Object(s2)) => {
                        assert(s1 =~= s2);
                    },
                    _ => {},
                }
            }
            r
        },
    }
}

} // verus!
