//! A JSON document tree, as read from and written to hook configuration
//! files, and the edits made to it.
//!
//! Objects keep their fields in order; a lookup finds the first field with
//! the key, and setting a field replaces that first field in place or
//! appends a new one.
use vstd::prelude::*;

use crate::text::str_equal;

verus! {

/// A JSON value. A number is held as its text.
#[derive(Debug)]
pub enum JsonValue {
    Null,
    Bool(bool),
    Number(String),
    Str(String),
    Array(Vec<JsonValue>),
    Object(Vec<(String, JsonValue)>),
}

/// The mathematical content of a `JsonValue`.
pub enum JsonView {
    Null,
    Bool(bool),
    Number(Seq<char>),
    Str(Seq<char>),
    Array(Seq<JsonView>),
    Object(Seq<(Seq<char>, JsonView)>),
}

/// The view of a value.
pub open spec fn jv(v: JsonValue) -> JsonView
    decreases v, 0nat,
{
    match v {
        JsonValue::Null => JsonView::Null,
        JsonValue::Bool(b) => JsonView::Bool(b),
        JsonValue::Number(n) => JsonView::Number(n@),
        JsonValue::Str(s) => JsonView::Str(s@),
        JsonValue::Array(a) => JsonView::Array(jv_seq(a@)),
        JsonValue::Object(f) => JsonView::Object(jv_fields(f@)),
    }
}

/// The views of a sequence of values.
pub open spec fn jv_seq(s: Seq<JsonValue>) -> Seq<JsonView>
    decreases s, 1nat,
{
    if s.len() == 0 {
        Seq::empty()
    } else {
        jv_seq(s.drop_last()).push(jv(s.last()))
    }
}

/// The views of a sequence of object fields.
pub open spec fn jv_fields(f: Seq<(String, JsonValue)>) -> Seq<(Seq<char>, JsonView)>
    decreases f, 1nat,
{
    if f.len() == 0 {
        Seq::empty()
    } else {
        jv_fields(f.drop_last()).push((f.last().0@, jv(f.last().1)))
    }
}

impl View for JsonValue {
    type V = JsonView;

    open spec fn view(&self) -> JsonView {
        jv(*self)
    }
}

/// The view of a sequence of values is taken element by element.
pub proof fn lemma_jv_seq(s: Seq<JsonValue>)
    ensures
        jv_seq(s).len() == s.len(),
        forall|i: int| 0 <= i < s.len() ==> #[trigger] jv_seq(s)[i] == jv(s[i]),
    decreases s.len(),
{
    if s.len() > 0 {
        lemma_jv_seq(s.drop_last());
        assert forall|i: int| 0 <= i < s.len() implies #[trigger] jv_seq(s)[i] == jv(s[i]) by {
            if i < s.len() - 1 {
                assert(s.drop_last()[i] == s[i]);
            }
        }
    }
}

/// The view of an object's fields is taken field by field.
pub proof fn lemma_jv_fields(f: Seq<(String, JsonValue)>)
    ensures
        jv_fields(f).len() == f.len(),
        forall|i: int|
            0 <= i < f.len() ==> #[trigger] jv_fields(f)[i] == (f[i].0@, jv(f[i].1)),
    decreases f.len(),
{
    if f.len() > 0 {
        lemma_jv_fields(f.drop_last());
        assert forall|i: int| 0 <= i < f.len() implies #[trigger] jv_fields(f)[i] == (
            f[i].0@,
            jv(f[i].1),
        ) by {
            if i < f.len() - 1 {
                assert(f.drop_last()[i] == f[i]);
            }
        }
    }
}

/// Two sequences of values with the same views elementwise have the same
/// view.
pub proof fn lemma_jv_seq_ext(a: Seq<JsonValue>, b: Seq<JsonView>)
    requires
        a.len() == b.len(),
        forall|i: int| 0 <= i < a.len() ==> jv(#[trigger] a[i]) == b[i],
    ensures
        jv_seq(a) == b,
{
    lemma_jv_seq(a);
    assert(jv_seq(a) =~= b);
}

/// Two sequences of fields with the same views elementwise have the same
/// view.
pub proof fn lemma_jv_fields_ext(a: Seq<(String, JsonValue)>, b: Seq<(Seq<char>, JsonView)>)
    requires
        a.len() == b.len(),
        forall|i: int| 0 <= i < a.len() ==> (#[trigger] a[i]).0@ == b[i].0 && jv(a[i].1) == b[i].1,
    ensures
        jv_fields(a) == b,
{
    lemma_jv_fields(a);
    assert(jv_fields(a) =~= b);
}

// ------------------------------------------------------------ object fields

/// The position of the first field with the key.
pub open spec fn field_index(f: Seq<(Seq<char>, JsonView)>, key: Seq<char>) -> Option<int>
    decreases f.len(),
{
    if f.len() == 0 {
        None
    } else {
        match field_index(f.drop_last(), key) {
            Some(i) => Some(i),
            None => if f.last().0 == key {
                Some(f.len() - 1)
            } else {
                None
            },
        }
    }
}

/// `field_index` finds the first field with the key, or reports that none has it.
pub proof fn lemma_field_index(f: Seq<(Seq<char>, JsonView)>, key: Seq<char>)
    ensures
        match field_index(f, key) {
            Some(i) => 0 <= i < f.len() && f[i].0 == key && forall|j: int|
                0 <= j < i ==> (#[trigger] f[j]).0 != key,
            None => forall|j: int| 0 <= j < f.len() ==> (#[trigger] f[j]).0 != key,
        },
    decreases f.len(),
{
    if f.len() > 0 {
        let d = f.drop_last();
        lemma_field_index(d, key);
        match field_index(d, key) {
            Some(i) => {
                assert(f[i] == d[i]);
                assert forall|j: int| 0 <= j < i implies (#[trigger] f[j]).0 != key by {
                    assert(f[j] == d[j]);
                }
            },
            None => {
                assert forall|j: int| 0 <= j < f.len() - 1 implies (#[trigger] f[j]).0 != key by {
                    assert(f[j] == d[j]);
                }
            },
        }
    }
}

/// The first field index characterised by the fields before it.
pub proof fn lemma_field_index_unique(f: Seq<(Seq<char>, JsonView)>, key: Seq<char>, i: int)
    requires
        0 <= i < f.len(),
        f[i].0 == key,
        forall|j: int| 0 <= j < i ==> (#[trigger] f[j]).0 != key,
    ensures
        field_index(f, key) == Some(i),
{
    lemma_field_index(f, key);
    match field_index(f, key) {
        Some(k) => {
            if k < i {
                assert(f[k].0 != key);
            }
            if k > i {
                assert(f[i].0 != key);
            }
        },
        None => {
            assert(f[i].0 != key);
        },
    }
}

/// Two field sequences with the same keys in the same places find the same
/// first field for every key.
pub proof fn lemma_same_keys(f: Seq<(Seq<char>, JsonView)>, g: Seq<(Seq<char>, JsonView)>, key: Seq<char>)
    requires
        f.len() == g.len(),
        forall|i: int| 0 <= i < f.len() ==> (#[trigger] f[i]).0 == g[i].0,
    ensures
        field_index(f, key) == field_index(g, key),
{
    lemma_field_index(f, key);
    lemma_field_index(g, key);
    match field_index(f, key) {
        Some(i) => {
            assert forall|j: int| 0 <= j < i implies (#[trigger] g[j]).0 != key by {
                assert(f[j].0 != key);
            }
            lemma_field_index_unique(g, key, i);
        },
        None => {
            match field_index(g, key) {
                Some(i) => {
                    assert(f[i].0 == g[i].0);
                },
                None => {},
            }
        },
    }
}

/// The value of the first field with the key.
pub open spec fn lookup(f: Seq<(Seq<char>, JsonView)>, key: Seq<char>) -> Option<JsonView> {
    match field_index(f, key) {
        Some(i) => Some(f[i].1),
        None => None,
    }
}

/// The fields with the first field of the key given the value, or with a
/// new field appended when there is none.
pub open spec fn set_field(f: Seq<(Seq<char>, JsonView)>, key: Seq<char>, v: JsonView) -> Seq<
    (Seq<char>, JsonView),
> {
    match field_index(f, key) {
        Some(i) => f.update(i, (key, v)),
        None => f.push((key, v)),
    }
}

/// The fields without the first field of the key.
pub open spec fn remove_field(f: Seq<(Seq<char>, JsonView)>, key: Seq<char>) -> Seq<
    (Seq<char>, JsonView),
> {
    match field_index(f, key) {
        Some(i) => f.remove(i),
        None => f,
    }
}

/// What a lookup finds after a field is set.
pub proof fn lemma_lookup_set_field(f: Seq<(Seq<char>, JsonView)>, k: Seq<char>, v: JsonView, k2: Seq<char>)
    ensures
        lookup(set_field(f, k, v), k2) == (if k2 == k {
            Some(v)
        } else {
            lookup(f, k2)
        }),
{
    lemma_field_index(f, k);
    lemma_field_index(f, k2);
    match field_index(f, k) {
        Some(i) => {
            let g = f.update(i, (k, v));
            lemma_same_keys(f, g, k2);
            match field_index(f, k2) {
                Some(j) => {
                    if j != i {
                        assert(g[j] == f[j]);
                    }
                },
                None => {},
            }
        },
        None => {
            let g = f.push((k, v));
            assert(g.drop_last() =~= f);
            match field_index(f, k2) {
                Some(j) => {
                    assert(g[j] == f[j]);
                },
                None => {},
            }
        },
    }
}

/// Setting a field to the value that it has changes nothing.
pub proof fn lemma_set_field_same(f: Seq<(Seq<char>, JsonView)>, k: Seq<char>, v: JsonView)
    requires
        lookup(f, k) == Some(v),
    ensures
        set_field(f, k, v) == f,
{
    lemma_field_index(f, k);
    let i = field_index(f, k)->0;
    assert(f.update(i, (k, v)) =~= f);
}

/// Whether no two fields have the same key, as in a parsed JSON object.
pub open spec fn keys_unique(f: Seq<(Seq<char>, JsonView)>) -> bool {
    forall|i: int, j: int| 0 <= i < j < f.len() ==> (#[trigger] f[i]).0 != (#[trigger] f[j]).0
}

/// Setting a field keeps the keys unique.
pub proof fn lemma_set_field_unique(f: Seq<(Seq<char>, JsonView)>, k: Seq<char>, v: JsonView)
    requires
        keys_unique(f),
    ensures
        keys_unique(set_field(f, k, v)),
{
    lemma_field_index(f, k);
    let g = set_field(f, k, v);
    match field_index(f, k) {
        Some(i) => {
            assert forall|a: int, b: int| 0 <= a < b < g.len() implies (#[trigger] g[a]).0 != (
            #[trigger] g[b]).0 by {
                assert(g[a].0 == f[a].0);
                assert(g[b].0 == f[b].0);
            }
        },
        None => {
            assert forall|a: int, b: int| 0 <= a < b < g.len() implies (#[trigger] g[a]).0 != (
            #[trigger] g[b]).0 by {
                if b < f.len() {
                    assert(g[a] == f[a]);
                    assert(g[b] == f[b]);
                } else {
                    assert(g[a] == f[a]);
                }
            }
        },
    }
}

/// What a lookup finds after a field is removed, when keys are unique.
pub proof fn lemma_lookup_remove_field(f: Seq<(Seq<char>, JsonView)>, k: Seq<char>, k2: Seq<char>)
    requires
        keys_unique(f),
    ensures
        lookup(remove_field(f, k), k2) == (if k2 == k {
            None
        } else {
            lookup(f, k2)
        }),
        keys_unique(remove_field(f, k)),
{
    lemma_field_index(f, k);
    lemma_field_index(f, k2);
    match field_index(f, k) {
        Some(i) => {
            let g = f.remove(i);
            assert forall|a: int, b: int| 0 <= a < b < g.len() implies (#[trigger] g[a]).0 != (
            #[trigger] g[b]).0 by {
                let a1 = if a < i { a } else { a + 1 };
                let b1 = if b < i { b } else { b + 1 };
                assert(g[a] == f[a1]);
                assert(g[b] == f[b1]);
            }
            lemma_field_index(g, k2);
            if k2 == k {
                match field_index(g, k2) {
                    Some(j) => {
                        let j1 = if j < i { j } else { j + 1 };
                        assert(g[j] == f[j1]);
                    },
                    None => {},
                }
            } else {
                match field_index(f, k2) {
                    Some(j) => {
                        let j2 = if j < i { j } else { j - 1 };
                        assert(j != i);
                        assert(g[j2] == f[j]);
                        assert forall|x: int| 0 <= x < j2 implies (#[trigger] g[x]).0 != k2 by {
                            let x1 = if x < i { x } else { x + 1 };
                            assert(g[x] == f[x1]);
                        }
                        lemma_field_index_unique(g, k2, j2);
                    },
                    None => {
                        match field_index(g, k2) {
                            Some(j) => {
                                let j1 = if j < i { j } else { j + 1 };
                                assert(g[j] == f[j1]);
                            },
                            None => {},
                        }
                    },
                }
            }
        },
        None => {},
    }
}

/// The string under a key of an object value.
pub open spec fn str_member(v: JsonView, key: Seq<char>) -> Option<Seq<char>> {
    match v {
        JsonView::Object(f) => match lookup(f, key) {
            Some(JsonView::Str(s)) => Some(s),
            _ => None,
        },
        _ => None,
    }
}

/// The array under a key of an object value.
pub open spec fn array_member(v: JsonView, key: Seq<char>) -> Option<Seq<JsonView>> {
    match v {
        JsonView::Object(f) => match lookup(f, key) {
            Some(JsonView::Array(a)) => Some(a),
            _ => None,
        },
        _ => None,
    }
}

/// The position of the first field with the key.
pub fn find_field(fields: &Vec<(String, JsonValue)>, key: &str) -> (r: Option<usize>)
    ensures
        match r {
            Some(i) => i < fields@.len() && field_index(jv_fields(fields@), key@) == Some(i as int),
            None => field_index(jv_fields(fields@), key@) is None,
        },
{
    proof {
        lemma_jv_fields(fields@);
    }
    let ghost f = jv_fields(fields@);
    let mut i: usize = 0;
    while i < fields.len()
        invariant
            i <= fields@.len(),
            f == jv_fields(fields@),
            f.len() == fields@.len(),
            forall|j: int| 0 <= j < i ==> (#[trigger] f[j]).0 != key@,
            forall|j: int| 0 <= j < fields@.len() ==> #[trigger] f[j] == (fields@[j].0@, jv(fields@[j].1)),
        decreases fields.len() - i,
    {
        if str_equal(fields[i].0.as_str(), key) {
            proof {
                assert(f[i as int].0 == key@);
                lemma_field_index_unique(f, key@, i as int);
            }
            return Some(i);
        }
        assert(f[i as int].0 != key@);
        i = i + 1;
    }
    proof {
        lemma_field_index(f, key@);
    }
    None
}

/// The value of the first field with the key.
pub fn get_field<'a>(fields: &'a Vec<(String, JsonValue)>, key: &str) -> (r: Option<&'a JsonValue>)
    ensures
        match r {
            Some(v) => lookup(jv_fields(fields@), key@) == Some(jv(*v)),
            None => lookup(jv_fields(fields@), key@) is None,
        },
{
    proof {
        lemma_jv_fields(fields@);
    }
    match find_field(fields, key) {
        Some(i) => Some(&fields[i].1),
        None => None,
    }
}

/// Sets the first field with the key to the value, or appends a new field.
pub fn set_field_exec(fields: &mut Vec<(String, JsonValue)>, key: &str, value: JsonValue)
    ensures
        jv_fields(final(fields)@) == set_field(jv_fields(old(fields)@), key@, jv(value)),
{
    proof {
        lemma_jv_fields(fields@);
    }
    let ghost before = fields@;
    let ghost vv = jv(value);
    match find_field(fields, key) {
        Some(i) => {
            fields.set(i, (key.to_string(), value));
            proof {
                lemma_jv_fields_ext(fields@, jv_fields(before).update(i as int, (key@, vv)));
            }
        },
        None => {
            fields.push((key.to_string(), value));
            proof {
                lemma_jv_fields_ext(fields@, jv_fields(before).push((key@, vv)));
            }
        },
    }
}

/// Removes the first field with the key and returns its value.
pub fn take_field(fields: &mut Vec<(String, JsonValue)>, key: &str) -> (r: Option<(usize, JsonValue)>)
    ensures
        match r {
            Some((i, v)) => i < old(fields)@.len() && final(fields)@.len() == old(fields)@.len() - 1
                && field_index(jv_fields(old(fields)@), key@) == Some(i as int) && jv_fields(old(fields)@)[i as int].1 == jv(v) && jv_fields(final(fields)@)
                == jv_fields(old(fields)@).remove(i as int),
            None => field_index(jv_fields(old(fields)@), key@) is None && final(fields)@ == old(
                fields,
            )@,
        },
{
    proof {
        lemma_jv_fields(fields@);
    }
    let ghost before = fields@;
    match find_field(fields, key) {
        Some(i) => {
            let (k, v) = fields.remove(i);
            proof {
                lemma_jv_fields_ext(fields@, jv_fields(before).remove(i as int));
            }
            Some((i, v))
        },
        None => None,
    }
}

/// Puts a field back at a position.
pub fn put_field(fields: &mut Vec<(String, JsonValue)>, i: usize, key: &str, value: JsonValue)
    requires
        i <= old(fields)@.len(),
    ensures
        jv_fields(final(fields)@) == jv_fields(old(fields)@).insert(i as int, (key@, jv(value))),
{
    proof {
        lemma_jv_fields(fields@);
    }
    let ghost before = fields@;
    let ghost vv = jv(value);
    fields.insert(i, (key.to_string(), value));
    proof {
        lemma_jv_fields_ext(fields@, jv_fields(before).insert(i as int, (key@, vv)));
    }
}

/// The string under a key of an object value.
pub fn get_str_member<'a>(v: &'a JsonValue, key: &str) -> (r: Option<&'a String>)
    ensures
        match r {
            Some(s) => str_member(jv(*v), key@) == Some(s@),
            None => str_member(jv(*v), key@) is None,
        },
{
    match v {
        JsonValue::Object(fields) => match get_field(fields, key) {
            Some(JsonValue::Str(s)) => Some(s),
            _ => None,
        },
        _ => None,
    }
}

/// A string value.
pub fn json_str(s: &str) -> (r: JsonValue)
    ensures
        jv(r) == JsonView::Str(s@),
{
    JsonValue::Str(s.to_string())
}

/// A number value from its text.
pub fn json_number(text: &str) -> (r: JsonValue)
    ensures
        jv(r) == JsonView::Number(text@),
{
    JsonValue::Number(text.to_string())
}

/// An empty object.
pub fn empty_object() -> (r: JsonValue)
    ensures
        jv(r) == JsonView::Object(Seq::empty()),
{
    let f: Vec<(String, JsonValue)> = Vec::new();
    proof {
        assert(jv_fields(f@) =~= Seq::<(Seq<char>, JsonView)>::empty());
    }
    JsonValue::Object(f)
}

} // verus!
