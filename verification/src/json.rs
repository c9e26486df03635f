//! JSON values as the library holds them: numbers are kept as serde_json
//! keeps them (a non-negative integer, a negative integer, or the bits of a
//! floating-point number), objects as fields in order.

use vstd::prelude::*;

verus! {

/// A JSON value.
#[derive(Debug)]
pub enum JsonValue {
    /// `null`.
    Null,
    /// `true` or `false`.
    Bool(bool),
    /// A non-negative integer.
    PosInt(u64),
    /// A negative integer.
    NegInt(i64),
    /// A number with a fraction or exponent, by the bits of its `f64`.
    Float(u64),
    /// A string.
    Text(String),
    /// An array.
    Array(Vec<JsonValue>),
    /// An object, its fields in order.
    Object(Vec<(String, JsonValue)>),
}

/// What a JSON value holds.
pub ghost enum JsonData {
    Null,
    Bool(bool),
    PosInt(u64),
    NegInt(i64),
    Float(u64),
    Text(Seq<char>),
    Array(Seq<JsonData>),
    Object(Seq<(Seq<char>, JsonData)>),
}

/// What a JSON value holds.
pub open spec fn data_of(v: JsonValue) -> JsonData
    decreases v,
{
    match v {
        JsonValue::Null => JsonData::Null,
        JsonValue::Bool(b) => JsonData::Bool(b),
        JsonValue::PosInt(n) => JsonData::PosInt(n),
        JsonValue::NegInt(n) => JsonData::NegInt(n),
        JsonValue::Float(n) => JsonData::Float(n),
        JsonValue::Text(s) => JsonData::Text(s@),
        JsonValue::Array(items) => JsonData::Array(data_of_items(items@)),
        JsonValue::Object(fields) => JsonData::Object(data_of_fields(fields@)),
    }
}

/// What the items of an array hold.
pub open spec fn data_of_items(s: Seq<JsonValue>) -> Seq<JsonData>
    decreases s,
{
    if s.len() == 0 {
        Seq::empty()
    } else {
        data_of_items(s.drop_last()).push(data_of(s.last()))
    }
}

/// What the fields of an object hold, by name.
pub open spec fn data_of_fields(s: Seq<(String, JsonValue)>) -> Seq<(Seq<char>, JsonData)>
    decreases s,
{
    if s.len() == 0 {
        Seq::empty()
    } else {
        data_of_fields(s.drop_last()).push((s.last().0@, data_of(s.last().1)))
    }
}


impl JsonValue {
    /// A deep copy of the value.
    #[verifier::loop_isolation(false)]
    pub fn copy(&self) -> (res: JsonValue)
        ensures
            data_of(res) == data_of(*self),
        decreases self,
    {
        match self {
            JsonValue::Null => JsonValue::Null,
            JsonValue::Bool(b) => JsonValue::Bool(*b),
            JsonValue::PosInt(n) => JsonValue::PosInt(*n),
            JsonValue::NegInt(n) => JsonValue::NegInt(*n),
            JsonValue::Float(n) => JsonValue::Float(*n),
            JsonValue::Text(s) => JsonValue::Text(s.clone()),
            JsonValue::Array(items) => {
                let mut out: Vec<JsonValue> = Vec::new();
                let mut i: usize = 0;
                while i < items.len()
                    invariant
                        i <= items@.len(),
                        data_of_items(out@) == data_of_items(items@.take(i as int)),
                    decreases items@.len() - i,
                {
                    proof {
                        assert(*items == self->Array_0);
                        assert(decreases_to!(*self => self->Array_0));
                        assert(decreases_to!(*items => items@));
                        assert(decreases_to!(items@ => items@[i as int]));
                    }
                    let c = items[i].copy();
                    let ghost before = out@;
                    out.push(c);
                    proof {
                        assert(out@.drop_last() =~= before);
                        assert(items@.take(i + 1).drop_last() =~= items@.take(i as int));
                    }
                    i = i + 1;
                }
                proof {
                    assert(items@.take(i as int) =~= items@);
                }
                JsonValue::Array(out)
            },
            JsonValue::Object(fields) => {
                let mut out: Vec<(String, JsonValue)> = Vec::new();
                let mut i: usize = 0;
                while i < fields.len()
                    invariant
                        i <= fields@.len(),
                        data_of_fields(out@) == data_of_fields(fields@.take(i as int)),
                    decreases fields@.len() - i,
                {
                    proof {
                        assert(*fields == self->Object_0);
                        assert(decreases_to!(*self => self->Object_0));
                        assert(decreases_to!(*fields => fields@));
                        assert(decreases_to!(fields@ => fields@[i as int]));
                        assert(decreases_to!(fields@[i as int] => fields@[i as int].1));
                    }
                    let c = fields[i].1.copy();
                    let k = fields[i].0.clone();
                    let ghost before = out@;
                    out.push((k, c));
                    proof {
                        assert(out@.drop_last() =~= before);
                        assert(fields@.take(i + 1).drop_last() =~= fields@.take(i as int));
                    }
                    i = i + 1;
                }
                proof {
                    assert(fields@.take(i as int) =~= fields@);
                }
                JsonValue::Object(out)
            },
        }
    }
}


/// The first index of a field named `key`.
pub open spec fn field_index<V>(fields: Seq<(String, V)>, key: Seq<char>) -> Option<int>
    decreases fields.len(),
{
    if fields.len() == 0 {
        None
    } else {
        match field_index(fields.drop_last(), key) {
            Some(i) => Some(i),
            None => if fields.last().0@ == key { Some(fields.len() - 1) } else { None },
        }
    }
}

/// What `field_index` finds: the first field of that name.
pub proof fn lemma_field_index<V>(fields: Seq<(String, V)>, key: Seq<char>)
    ensures
        field_index(fields, key) matches Some(i) ==> 0 <= i < fields.len() && fields[i].0@ == key
            && forall|j: int| 0 <= j < i ==> fields[j].0@ != key,
        field_index(fields, key) is None ==> forall|j: int| 0 <= j < fields.len() ==> fields[j].0@ != key,
    decreases fields.len(),
{
    if fields.len() > 0 {
        let d = fields.drop_last();
        lemma_field_index(d, key);
        assert forall|j: int| 0 <= j < d.len() implies d[j] == fields[j] by {}
    }
}

/// The value of the first field named `key`.
pub open spec fn field_value(fields: Seq<(String, JsonValue)>, key: Seq<char>) -> Option<JsonValue> {
    match field_index(fields, key) {
        Some(i) => Some(fields[i].1),
        None => None,
    }
}

/// The fields after setting `key` to `value`: the first field of that name
/// takes the value, or the field is added at the end.
pub open spec fn with_field(fields: Seq<(String, JsonValue)>, key: String, value: JsonValue) -> Seq<(String, JsonValue)> {
    match field_index(fields, key@) {
        Some(i) => fields.update(i, (fields[i].0, value)),
        None => fields.push((key, value)),
    }
}

/// The index of the first field named `key`.
pub fn find_field<V>(fields: &Vec<(String, V)>, key: &str) -> (res: Option<usize>)
    ensures
        match res {
            Some(i) => field_index(fields@, key@) == Some(i as int),
            None => field_index(fields@, key@) is None,
        },
{
    let name = key.to_owned();
    let mut i: usize = 0;
    while i < fields.len()
        invariant
            i <= fields@.len(),
            name@ == key@,
            forall|j: int| 0 <= j < i ==> fields@[j].0@ != key@,
        decreases fields@.len() - i,
    {
        if fields[i].0.eq(&name) {
            proof {
                lemma_field_index(fields@, key@);
                lemma_first_field(fields@, key@, i as int);
            }
            return Some(i);
        }
        i = i + 1;
    }
    proof {
        lemma_field_index(fields@, key@);
    }
    None
}

/// The first field named `key` is at `i` when `i` has that name and no
/// earlier field does.
pub proof fn lemma_first_field<V>(fields: Seq<(String, V)>, key: Seq<char>, i: int)
    requires
        0 <= i < fields.len(),
        fields[i].0@ == key,
        forall|j: int| 0 <= j < i ==> fields[j].0@ != key,
    ensures
        field_index(fields, key) == Some(i),
    decreases fields.len(),
{
    if fields.len() - 1 > i {
        lemma_first_field(fields.drop_last(), key, i);
    } else {
        lemma_field_index(fields.drop_last(), key);
        assert forall|j: int| 0 <= j < fields.drop_last().len() implies fields.drop_last()[j].0@ != key by {
            assert(fields.drop_last()[j] == fields[j]);
        }
    }
}

/// Sets the field `key` to `value`.
pub fn set_field(fields: &mut Vec<(String, JsonValue)>, key: String, value: JsonValue)
    ensures
        final(fields)@ == with_field(old(fields)@, key, value),
{
    match find_field(fields, key.as_str()) {
        Some(i) => {
            proof {
                lemma_field_index(old(fields)@, key@);
            }
            let name = fields[i].0.clone();
            fields.set(i, (name, value));
        },
        None => {
            fields.push((key, value));
        },
    }
}

/// A deep copy of a list of fields.
pub fn copy_fields(fields: &Vec<(String, JsonValue)>) -> (res: Vec<(String, JsonValue)>)
    ensures
        data_of_fields(res@) == data_of_fields(fields@),
{
    let mut out: Vec<(String, JsonValue)> = Vec::new();
    let mut i: usize = 0;
    while i < fields.len()
        invariant
            i <= fields@.len(),
            data_of_fields(out@) == data_of_fields(fields@.take(i as int)),
        decreases fields@.len() - i,
    {
        let c = fields[i].1.copy();
        let k = fields[i].0.clone();
        let ghost before = out@;
        out.push((k, c));
        proof {
            assert(out@.drop_last() =~= before);
            assert(fields@.take(i + 1).drop_last() =~= fields@.take(i as int));
        }
        i = i + 1;
    }
    proof {
        assert(fields@.take(i as int) =~= fields@);
    }
    out
}


/// The integer a value holds, where it fits in an `i64`.
pub open spec fn int_value(v: JsonValue) -> Option<i64> {
    match v {
        JsonValue::PosInt(n) => if n <= i64::MAX { Some(n as i64) } else { None },
        JsonValue::NegInt(n) => Some(n),
        _ => None,
    }
}

/// The value of field `key` of an object; nothing for another value.
pub open spec fn json_get(v: JsonValue, key: Seq<char>) -> Option<JsonValue> {
    match v {
        JsonValue::Object(fields) => field_value(fields@, key),
        _ => None,
    }
}

/// The items of an array; none for another value or for no value.
pub open spec fn array_items(v: Option<JsonValue>) -> Seq<JsonValue> {
    match v {
        Some(JsonValue::Array(items)) => items@,
        _ => Seq::empty(),
    }
}

/// The text of a string; nothing for another value or for no value.
pub open spec fn text_of(v: Option<JsonValue>) -> Option<Seq<char>> {
    match v {
        Some(JsonValue::Text(s)) => Some(s@),
        _ => None,
    }
}

impl JsonValue {
    /// The integer the value holds, where it fits in an `i64`.
    pub fn as_i64(&self) -> (res: Option<i64>)
        ensures
            res == int_value(*self),
    {
        match self {
            JsonValue::PosInt(n) => if *n <= i64::MAX as u64 { Some(*n as i64) } else { None },
            JsonValue::NegInt(n) => Some(*n),
            _ => None,
        }
    }

    /// The boolean the value holds.
    pub fn as_bool(&self) -> (res: Option<bool>)
        ensures
            res == match *self {
                JsonValue::Bool(b) => Some(b),
                _ => None,
            },
    {
        match self {
            JsonValue::Bool(b) => Some(*b),
            _ => None,
        }
    }

    /// The text the value holds.
    pub fn as_text(&self) -> (res: Option<&String>)
        ensures
            match res {
                Some(s) => *self == JsonValue::Text(*s),
                None => !(*self is Text),
            },
    {
        match self {
            JsonValue::Text(s) => Some(s),
            _ => None,
        }
    }

    /// The items the value holds, for an array.
    pub fn as_array(&self) -> (res: Option<&Vec<JsonValue>>)
        ensures
            match res {
                Some(items) => *self == JsonValue::Array(*items),
                None => !(*self is Array),
            },
    {
        match self {
            JsonValue::Array(items) => Some(items),
            _ => None,
        }
    }

    /// The value of field `key`, for an object.
    pub fn get(&self, key: &str) -> (res: Option<&JsonValue>)
        ensures
            match res {
                Some(v) => json_get(*self, key@) == Some(*v),
                None => json_get(*self, key@) is None,
            },
    {
        match self {
            JsonValue::Object(fields) => match find_field(fields, key) {
                Some(i) => {
                    proof {
                        lemma_field_index(fields@, key@);
                    }
                    Some(&fields[i].1)
                },
                None => None,
            },
            _ => None,
        }
    }
}

/// The first index of a field named `key`, among fields by name.
pub open spec fn data_index(d: Seq<(Seq<char>, JsonData)>, key: Seq<char>) -> Option<int>
    decreases d.len(),
{
    if d.len() == 0 {
        None
    } else {
        match data_index(d.drop_last(), key) {
            Some(i) => Some(i),
            None => if d.last().0 == key { Some(d.len() - 1) } else { None },
        }
    }
}

/// The fields, by name, after setting `key` to `v`.
pub open spec fn data_set(d: Seq<(Seq<char>, JsonData)>, key: Seq<char>, v: JsonData) -> Seq<(Seq<char>, JsonData)> {
    match data_index(d, key) {
        Some(i) => d.update(i, (key, v)),
        None => d.push((key, v)),
    }
}

/// What the fields of an object hold, field by field.
pub proof fn lemma_data_of_fields(s: Seq<(String, JsonValue)>)
    ensures
        data_of_fields(s).len() == s.len(),
        forall|i: int| 0 <= i < s.len() ==> #[trigger] data_of_fields(s)[i] == (s[i].0@, data_of(s[i].1)),
        forall|key: Seq<char>| #[trigger] data_index(data_of_fields(s), key) == field_index(s, key),
    decreases s.len(),
{
    if s.len() > 0 {
        let d = s.drop_last();
        lemma_data_of_fields(d);
        assert forall|i: int| 0 <= i < s.len() implies #[trigger] data_of_fields(s)[i] == (s[i].0@, data_of(s[i].1)) by {
            if i < s.len() - 1 {
                assert(d[i] == s[i]);
            }
        }
        assert forall|key: Seq<char>| #[trigger] data_index(data_of_fields(s), key) == field_index(s, key) by {
            assert(data_of_fields(s).drop_last() =~= data_of_fields(d));
            assert(data_index(data_of_fields(d), key) == field_index(d, key));
        }
    }
}

/// Setting a field, seen by name and data.
pub proof fn lemma_data_of_with_field(s: Seq<(String, JsonValue)>, key: String, v: JsonValue)
    ensures
        data_of_fields(with_field(s, key, v)) == data_set(data_of_fields(s), key@, data_of(v)),
{
    lemma_data_of_fields(s);
    let t = with_field(s, key, v);
    lemma_data_of_fields(t);
    lemma_field_index(s, key@);
    assert(data_of_fields(t) =~= data_set(data_of_fields(s), key@, data_of(v)));
}

/// Appending a field, seen by name and data.
pub proof fn lemma_data_of_push(s: Seq<(String, JsonValue)>, f: (String, JsonValue))
    ensures
        data_of_fields(s.push(f)) == data_of_fields(s).push((f.0@, data_of(f.1))),
{
    assert(s.push(f).drop_last() =~= s);
}

} // verus!
