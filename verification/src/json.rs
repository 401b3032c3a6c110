use vstd::prelude::*;

verus! {

/// A JSON document as the exporter reads it.
///
/// Numbers are kept only as far as the renderer looks at them: a
/// non-negative integer keeps its value, any other number is `OtherNumber`.
/// Object entries are kept in the order given; `stored_summary` lists them
/// sorted by key, as serde_json's map holds them.
#[derive(Debug)]
pub enum JsonValue {
    Null,
    Bool(bool),
    UInt(u64),
    OtherNumber,
    Str(String),
    Array(Vec<JsonValue>),
    Object(Vec<(String, JsonValue)>),
}

/// Index of the first entry whose key is `key`, or -1 when there is none.
pub open spec fn first_key_index(entries: Seq<(String, JsonValue)>, key: Seq<char>) -> int
    decreases entries.len(),
{
    if entries.len() == 0 {
        -1
    } else if entries[0].0@ == key {
        0
    } else {
        let i = first_key_index(entries.drop_first(), key);
        if i < 0 {
            -1
        } else {
            i + 1
        }
    }
}

/// The member `key` of an object (the first one, should the key repeat);
/// `None` for a missing key and for anything that is not an object.
pub open spec fn field(v: JsonValue, key: Seq<char>) -> Option<JsonValue> {
    match v {
        JsonValue::Object(entries) => {
            let i = first_key_index(entries@, key);
            if 0 <= i < entries@.len() {
                Some(entries@[i].1)
            } else {
                None
            }
        },
        _ => None,
    }
}

/// `field` applied inside an optional value.
pub open spec fn field_of(o: Option<JsonValue>, key: Seq<char>) -> Option<JsonValue> {
    match o {
        Some(v) => field(v, key),
        None => None,
    }
}

pub open spec fn as_str(o: Option<JsonValue>) -> Option<Seq<char>> {
    match o {
        Some(JsonValue::Str(s)) => Some(s@),
        _ => None,
    }
}

pub open spec fn as_array(o: Option<JsonValue>) -> Option<Seq<JsonValue>> {
    match o {
        Some(JsonValue::Array(items)) => Some(items@),
        _ => None,
    }
}

pub open spec fn as_bool(o: Option<JsonValue>) -> Option<bool> {
    match o {
        Some(JsonValue::Bool(b)) => Some(b),
        _ => None,
    }
}

pub open spec fn as_u64(o: Option<JsonValue>) -> Option<u64> {
    match o {
        Some(JsonValue::UInt(n)) => Some(n),
        _ => None,
    }
}

/// The string member `key`, or the empty string.
pub open spec fn str_or_empty(o: Option<JsonValue>) -> Seq<char> {
    match as_str(o) {
        Some(s) => s,
        None => Seq::empty(),
    }
}

pub open spec fn deref_value(o: Option<&JsonValue>) -> Option<JsonValue> {
    match o {
        Some(v) => Some(*v),
        None => None,
    }
}

pub open spec fn deref_str(o: Option<&str>) -> Option<Seq<char>> {
    match o {
        Some(s) => Some(s@),
        None => None,
    }
}

pub open spec fn deref_array(o: Option<&Vec<JsonValue>>) -> Option<Seq<JsonValue>> {
    match o {
        Some(v) => Some(v@),
        None => None,
    }
}

proof fn lemma_first_key_index(entries: Seq<(String, JsonValue)>, key: Seq<char>)
    ensures
        -1 <= first_key_index(entries, key) < entries.len(),
        0 <= first_key_index(entries, key) ==> entries[first_key_index(entries, key)].0@ == key,
        forall|j: int|
            0 <= j < entries.len() && (first_key_index(entries, key) < 0 || j < first_key_index(
                entries,
                key,
            )) ==> entries[j].0@ != key,
    decreases entries.len(),
{
    if entries.len() > 0 && entries[0].0@ != key {
        lemma_first_key_index(entries.drop_first(), key);
        assert forall|j: int|
            0 <= j < entries.len() && (first_key_index(entries, key) < 0 || j < first_key_index(
                entries,
                key,
            )) implies entries[j].0@ != key by {
            if j > 0 {
                assert(entries[j] == entries.drop_first()[j - 1]);
            }
        }
    }
}

/// A member of an object lies strictly inside it.
pub proof fn lemma_field_decreases(v: JsonValue, key: Seq<char>)
    ensures
        field(v, key) matches Some(w) ==> decreases_to!(v => w),
{
    if let JsonValue::Object(entries) = v {
        let i = first_key_index(entries@, key);
        if 0 <= i < entries@.len() {
            assert(decreases_to!(v => entries));
            assert(decreases_to!(entries => entries@));
            assert(decreases_to!(entries@ => entries@[i]));
            assert(decreases_to!(entries@[i] => entries@[i].1));
        }
    }
}

/// The elements of an array member lie strictly inside the object.
pub proof fn lemma_array_field_decreases(v: JsonValue, key: Seq<char>)
    ensures
        as_array(field(v, key)) matches Some(items) ==> decreases_to!(v => items),
{
    lemma_field_decreases(v, key);
    if let Some(JsonValue::Array(items)) = field(v, key) {
        let w = field(v, key).unwrap();
        assert(decreases_to!(w => items));
        assert(decreases_to!(items => items@));
    }
}

/// Two values with the same content: equal scalars and strings, arrays
/// with equal elements, objects with equal keys and values in the same
/// order.
pub open spec fn same_json(a: JsonValue, b: JsonValue) -> bool
    decreases a,
{
    match a {
        JsonValue::Null => b is Null,
        JsonValue::Bool(x) => b == JsonValue::Bool(x),
        JsonValue::UInt(x) => b == JsonValue::UInt(x),
        JsonValue::OtherNumber => b is OtherNumber,
        JsonValue::Str(x) => match b {
            JsonValue::Str(y) => x@ == y@,
            _ => false,
        },
        JsonValue::Array(x) => match b {
            JsonValue::Array(y) => {
                proof {
                    assert(decreases_to!(a => x));
                    assert(decreases_to!(x => x@));
                }
                same_items(x@, y@)
            },
            _ => false,
        },
        JsonValue::Object(x) => match b {
            JsonValue::Object(y) => {
                proof {
                    assert(decreases_to!(a => x));
                    assert(decreases_to!(x => x@));
                }
                same_entries(x@, y@)
            },
            _ => false,
        },
    }
}

/// Element by element, the same content.
pub open spec fn same_items(x: Seq<JsonValue>, y: Seq<JsonValue>) -> bool
    decreases x,
{
    if x.len() == 0 {
        y.len() == 0
    } else {
        proof {
            assert(decreases_to!(x => x[x.len() - 1]));
        }
        y.len() == x.len() && same_items(x.drop_last(), y.drop_last()) && same_json(
            x.last(),
            y.last(),
        )
    }
}

/// Entry by entry, the same keys and the same content.
pub open spec fn same_entries(x: Seq<(String, JsonValue)>, y: Seq<(String, JsonValue)>) -> bool
    decreases x,
{
    if x.len() == 0 {
        y.len() == 0
    } else {
        proof {
            assert(decreases_to!(x => x[x.len() - 1]));
            assert(decreases_to!(x[x.len() - 1] => x[x.len() - 1].1));
        }
        y.len() == x.len() && same_entries(x.drop_last(), y.drop_last()) && x.last().0@
            == y.last().0@ && same_json(x.last().1, y.last().1)
    }
}

proof fn lemma_item_decreases(v: JsonValue, items: Vec<JsonValue>, i: int)
    requires
        v == JsonValue::Array(items),
        0 <= i < items@.len(),
    ensures
        decreases_to!(v => items@[i]),
{
    if let JsonValue::Array(its) = v {
        assert(its == items);
        assert(decreases_to!(v => its));
        assert(decreases_to!(its => its@));
        assert(decreases_to!(its@ => its@[i]));
    }
}

proof fn lemma_entry_decreases(v: JsonValue, entries: Vec<(String, JsonValue)>, i: int)
    requires
        v == JsonValue::Object(entries),
        0 <= i < entries@.len(),
    ensures
        decreases_to!(v => entries@[i].1),
{
    if let JsonValue::Object(es) = v {
        assert(es == entries);
        assert(decreases_to!(v => es));
        assert(decreases_to!(es => es@));
        assert(decreases_to!(es@ => es@[i]));
        assert(decreases_to!(es@[i] => es@[i].1));
    }
}

impl Clone for JsonValue {
    fn clone(&self) -> (r: Self)
        ensures
            same_json(r, *self),
    {
        self.deep_copy()
    }
}

impl JsonValue {
    /// A copy of the value, with the same content.
    pub fn deep_copy(&self) -> (r: JsonValue)
        ensures
            same_json(r, *self),
        decreases *self,
    {
        match self {
            JsonValue::Null => JsonValue::Null,
            JsonValue::Bool(b) => JsonValue::Bool(*b),
            JsonValue::UInt(n) => JsonValue::UInt(*n),
            JsonValue::OtherNumber => JsonValue::OtherNumber,
            JsonValue::Str(s) => JsonValue::Str(s.clone()),
            JsonValue::Array(items) => {
                let mut out: Vec<JsonValue> = Vec::new();
                let mut i: usize = 0;
                while i < items.len()
                    invariant
                        0 <= i <= items@.len(),
                        *self == JsonValue::Array(*items),
                        same_items(out@, items@.take(i as int)),
                    decreases items.len() - i,
                {
                    proof {
                        lemma_item_decreases(*self, *items, i as int);
                    }
                    let ghost prev = out@;
                    out.push(items[i].deep_copy());
                    assert(out@.drop_last() =~= prev);
                    assert(items@.take(i + 1).drop_last() =~= items@.take(i as int));
                    i = i + 1;
                }
                assert(items@.take(items.len() as int) =~= items@);
                JsonValue::Array(out)
            },
            JsonValue::Object(entries) => {
                let mut out: Vec<(String, JsonValue)> = Vec::new();
                let mut i: usize = 0;
                while i < entries.len()
                    invariant
                        0 <= i <= entries@.len(),
                        *self == JsonValue::Object(*entries),
                        same_entries(out@, entries@.take(i as int)),
                    decreases entries.len() - i,
                {
                    proof {
                        lemma_entry_decreases(*self, *entries, i as int);
                    }
                    let key = entries[i].0.clone();
                    let value = entries[i].1.deep_copy();
                    let ghost prev = out@;
                    out.push((key, value));
                    assert(out@.drop_last() =~= prev);
                    assert(entries@.take(i + 1).drop_last() =~= entries@.take(i as int));
                    i = i + 1;
                }
                assert(entries@.take(entries.len() as int) =~= entries@);
                JsonValue::Object(out)
            },
        }
    }

    /// The member `key` of an object.
    pub fn get(&self, key: &str) -> (r: Option<&JsonValue>)
        ensures
            deref_value(r) == field(*self, key@),
    {
        match self {
            JsonValue::Object(entries) => {
                let k = String::from_str(key);
                let mut i: usize = 0;
                while i < entries.len()
                    invariant
                        0 <= i <= entries@.len(),
                        k@ == key@,
                        *self == JsonValue::Object(*entries),
                        forall|j: int| 0 <= j < i ==> entries@[j].0@ != key@,
                    decreases entries.len() - i,
                {
                    if entries[i].0 == k {
                        proof {
                            lemma_first_key_index(entries@, key@);
                            assert(entries@[i as int].0@ == key@);
                            let f = first_key_index(entries@, key@);
                            if f < i {
                                assert(entries@[f].0@ != key@);
                            }
                        }
                        return Some(&entries[i].1);
                    }
                    i = i + 1;
                }
                proof {
                    lemma_first_key_index(entries@, key@);
                }
                None
            },
            _ => None,
        }
    }

    pub fn as_str(&self) -> (r: Option<&str>)
        ensures
            deref_str(r) == as_str(Some(*self)),
    {
        match self {
            JsonValue::Str(s) => Some(s.as_str()),
            _ => None,
        }
    }

    pub fn as_array(&self) -> (r: Option<&Vec<JsonValue>>)
        ensures
            deref_array(r) == as_array(Some(*self)),
    {
        match self {
            JsonValue::Array(items) => Some(items),
            _ => None,
        }
    }

    pub fn as_bool(&self) -> (r: Option<bool>)
        ensures
            r == as_bool(Some(*self)),
    {
        match self {
            JsonValue::Bool(b) => Some(*b),
            _ => None,
        }
    }

    pub fn as_u64(&self) -> (r: Option<u64>)
        ensures
            r == as_u64(Some(*self)),
    {
        match self {
            JsonValue::UInt(n) => Some(*n),
            _ => None,
        }
    }
}

/// `get` applied inside an optional value.
pub fn get_in<'a>(o: Option<&'a JsonValue>, key: &str) -> (r: Option<&'a JsonValue>)
    ensures
        deref_value(r) == field_of(deref_value(o), key@),
{
    match o {
        Some(v) => v.get(key),
        None => None,
    }
}

pub fn str_in<'a>(o: Option<&'a JsonValue>) -> (r: Option<&'a str>)
    ensures
        deref_str(r) == as_str(deref_value(o)),
{
    match o {
        Some(v) => v.as_str(),
        None => None,
    }
}

pub fn array_in<'a>(o: Option<&'a JsonValue>) -> (r: Option<&'a Vec<JsonValue>>)
    ensures
        deref_array(r) == as_array(deref_value(o)),
{
    match o {
        Some(v) => v.as_array(),
        None => None,
    }
}

pub fn bool_in(o: Option<&JsonValue>) -> (r: Option<bool>)
    ensures
        r == as_bool(deref_value(o)),
{
    match o {
        Some(v) => v.as_bool(),
        None => None,
    }
}

pub fn u64_in(o: Option<&JsonValue>) -> (r: Option<u64>)
    ensures
        r == as_u64(deref_value(o)),
{
    match o {
        Some(v) => v.as_u64(),
        None => None,
    }
}

} // verus!
