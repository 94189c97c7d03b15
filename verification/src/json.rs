//! JSON values as plain data, with parsing and printing done by `serde_json`.
use vstd::prelude::*;
use crate::text::{chars_of, string_of, chars_eq, signed_decimal};

verus! {

broadcast use vstd::std_specs::vec::axiom_vec_index_decreases;

/// The mathematical model of a JSON value. Numbers keep the text `serde_json` prints for them.
pub enum Json {
    Null,
    Bool(bool),
    Number(Seq<char>),
    Str(Seq<char>),
    Array(Seq<Json>),
    Object(Seq<(Seq<char>, Json)>),
}

/// A JSON value. Object members keep their order; numbers hold their JSON text.
#[derive(Debug)]
pub enum JsonValue {
    Null,
    Bool(bool),
    Number(String),
    Str(String),
    Array(Vec<JsonValue>),
    Object(Vec<(String, JsonValue)>),
}

impl JsonValue {
    /// The model of this value.
    pub open spec fn model(&self) -> Json
        decreases self,
    {
        match self {
            JsonValue::Null => Json::Null,
            JsonValue::Bool(b) => Json::Bool(*b),
            JsonValue::Number(t) => Json::Number(t@),
            JsonValue::Str(s) => Json::Str(s@),
            JsonValue::Array(v) => Json::Array(
                Seq::new(
                    v@.len(),
                    |i: int|
                        if 0 <= i < v@.len() {
                            v@[i].model()
                        } else {
                            Json::Null
                        },
                ),
            ),
            JsonValue::Object(v) => Json::Object(
                Seq::new(
                    v@.len(),
                    |i: int|
                        if 0 <= i < v@.len() {
                            (v@[i].0@, v@[i].1.model())
                        } else {
                            (Seq::empty(), Json::Null)
                        },
                ),
            ),
        }
    }

    /// A copy of this value.
    pub fn deep_copy(&self) -> (r: JsonValue)
        ensures
            r.model() == self.model(),
        decreases self,
    {
        match self {
            JsonValue::Null => JsonValue::Null,
            JsonValue::Bool(b) => JsonValue::Bool(*b),
            JsonValue::Number(t) => JsonValue::Number(t.clone()),
            JsonValue::Str(s) => JsonValue::Str(s.clone()),
            JsonValue::Array(v) => {
                let mut out: Vec<JsonValue> = Vec::new();
                let mut i: usize = 0;
                while i < v.len()
                    invariant
                        *self == JsonValue::Array(*v),
                        i <= v.len(),
                        out@.len() == i,
                        forall|k: int| 0 <= k < i ==> #[trigger] out@[k].model() == v@[k].model(),
                    decreases v.len() - i,
                {
                    proof {
                        assert(decreases_to!(*v => v[i as int]));
                        assert(decreases_to!(*self => self->Array_0));
                        assert(self->Array_0 == *v);
                        assert(decreases_to!(*self => v[i as int]));
                    }
                    let c = v[i].deep_copy();
                    out.push(c);
                    i += 1;
                }
                proof {
                    lemma_array_model(out);
                    lemma_array_model(*v);
                    let (a, b) = (JsonValue::Array(out).model(), self.model());
                    if let (Json::Array(x), Json::Array(y)) = (a, b) {
                        assert(x =~= y);
                    }
                }
                JsonValue::Array(out)
            },
            JsonValue::Object(v) => {
                let mut out: Vec<(String, JsonValue)> = Vec::new();
                let mut i: usize = 0;
                while i < v.len()
                    invariant
                        *self == JsonValue::Object(*v),
                        i <= v.len(),
                        out@.len() == i,
                        forall|k: int| 0 <= k < i ==> #[trigger] out@[k].1.model() == v@[k].1.model() && out@[k].0@ == v@[k].0@,
                    decreases v.len() - i,
                {
                    proof {
                        assert(decreases_to!(*v => v[i as int]));
                        assert(decreases_to!(v[i as int] => v[i as int].1));
                        assert(decreases_to!(*self => self->Object_0));
                        assert(self->Object_0 == *v);
                        assert(decreases_to!(*self => v[i as int].1));
                    }
                    let c = v[i].1.deep_copy();
                    out.push((v[i].0.clone(), c));
                    i += 1;
                }
                proof {
                    lemma_object_model(out);
                    lemma_object_model(*v);
                    let (a, b) = (JsonValue::Object(out).model(), self.model());
                    if let (Json::Object(x), Json::Object(y)) = (a, b) {
                        assert(x =~= y);
                    }
                }
                JsonValue::Object(out)
            },
        }
    }
}

/// The value of member `k` in a model object: that of its first member named `k`.
pub open spec fn obj_lookup(m: Seq<(Seq<char>, Json)>, k: Seq<char>) -> Option<Json>
    decreases m.len(),
{
    if m.len() == 0 {
        None
    } else if m[0].0 == k {
        Some(m[0].1)
    } else {
        obj_lookup(m.drop_first(), k)
    }
}

/// A model object after setting member `k` to `v`: the first member named `k` is
/// overwritten in place, or a new member goes last.
pub open spec fn obj_insert(m: Seq<(Seq<char>, Json)>, k: Seq<char>, v: Json) -> Seq<(Seq<char>, Json)> {
    match obj_index(m, k) {
        Some(i) => m.update(i, (k, v)),
        None => m.push((k, v)),
    }
}

/// Index of the first member named `k`.
pub open spec fn obj_index(m: Seq<(Seq<char>, Json)>, k: Seq<char>) -> Option<int>
    decreases m.len(),
{
    if m.len() == 0 {
        None
    } else if m[0].0 == k {
        Some(0)
    } else {
        match obj_index(m.drop_first(), k) {
            Some(i) => Some(i + 1),
            None => None,
        }
    }
}

pub proof fn lemma_obj_index(m: Seq<(Seq<char>, Json)>, k: Seq<char>)
    ensures
        obj_index(m, k) matches Some(i) ==> 0 <= i < m.len() && m[i].0 == k && obj_lookup(m, k) == Some(m[i].1),
        obj_index(m, k) is None ==> obj_lookup(m, k) is None,
    decreases m.len(),
{
    if m.len() > 0 {
        lemma_obj_index(m.drop_first(), k);
    }
}

/// After setting member `k` of an object, looking `k` up gives the value set.
pub proof fn law_obj_lookup_after_insert(m: Seq<(Seq<char>, Json)>, k: Seq<char>, v: Json)
    ensures
        obj_lookup(obj_insert(m, k, v), k) == Some(v),
    decreases m.len(),
{
    if m.len() > 0 && m[0].0 != k {
        let r = obj_insert(m, k, v);
        law_obj_lookup_after_insert(m.drop_first(), k, v);
        lemma_obj_index(m.drop_first(), k);
        match obj_index(m.drop_first(), k) {
            Some(i) => {
                assert(r =~= m.update(i + 1, (k, v)));
                assert(r.drop_first() =~= obj_insert(m.drop_first(), k, v));
            },
            None => {
                assert(r.drop_first() =~= obj_insert(m.drop_first(), k, v));
            },
        }
        assert(r[0] == m[0]);
    } else if m.len() == 0 {
        assert(obj_insert(m, k, v)[0] == (k, v));
    } else {
        assert(obj_insert(m, k, v)[0] == (k, v));
    }
}

/// Index of the first member named `k` of an object.
pub fn member_index(v: &Vec<(String, JsonValue)>, k: &Vec<char>) -> (r: Option<usize>)
    ensures
        ({
            let m = Seq::new(v@.len(), |i: int| (v@[i].0@, v@[i].1.model()));
            &&& r matches Some(i) ==> obj_index(m, k@) == Some(i as int)
            &&& r is None ==> obj_index(m, k@) is None
        }),
{
    let ghost m = Seq::new(v@.len(), |i: int| (v@[i].0@, v@[i].1.model()));
    let mut i: usize = 0;
    assert(m.skip(0) =~= m);
    while i < v.len()
        invariant
            i <= v.len(),
            m == Seq::new(v@.len(), |i: int| (v@[i].0@, v@[i].1.model())),
            obj_index(m, k@) == shift_index(obj_index(m.skip(i as int), k@), i as int),
        decreases v.len() - i,
    {
        let name = chars_of(v[i].0.as_str());
        assert(m.skip(i as int)[0].0 == name@);
        assert(m.skip(i as int).drop_first() =~= m.skip(i + 1));
        if chars_eq(&name, k) {
            return Some(i);
        }
        i += 1;
    }
    assert(m.skip(i as int).len() == 0);
    None
}

pub open spec fn shift_index(r: Option<int>, by: int) -> Option<int> {
    match r {
        Some(i) => Some(i + by),
        None => None,
    }
}

/// The model of an object whose members are `v`.
pub open spec fn members_model(v: Seq<(String, JsonValue)>) -> Seq<(Seq<char>, Json)> {
    Seq::new(v.len(), |i: int| (v[i].0@, v[i].1.model()))
}

/// The member `k` of an object (`serde_json::Value::get`); nothing for other values.
pub open spec fn field(j: Json, k: Seq<char>) -> Option<Json> {
    match j {
        Json::Object(m) => obj_lookup(m, k),
        _ => None,
    }
}

/// The text of a string value (`serde_json::Value::as_str`).
pub open spec fn str_of(j: Option<Json>) -> Option<Seq<char>> {
    match j {
        Some(Json::Str(s)) => Some(s),
        _ => None,
    }
}

/// The member `k` of an object value.
pub fn get_field<'a>(j: &'a JsonValue, k: &str) -> (r: Option<&'a JsonValue>)
    ensures
        r matches Some(v) ==> field(j.model(), k@) == Some(v.model()),
        r is None ==> field(j.model(), k@) is None,
{
    match j {
        JsonValue::Object(members) => {
            proof {
                lemma_object_model(*members);
                lemma_obj_index(members_model(members@), k@);
            }
            assert(Seq::new(members@.len(), |i: int| (members@[i].0@, members@[i].1.model())) =~= members_model(members@));
            match member_index(members, &chars_of(k)) {
                Some(i) => Some(&members[i].1),
                None => None,
            }
        },
        _ => None,
    }
}

/// The text of a string value.
pub fn get_str<'a>(j: Option<&'a JsonValue>) -> (r: Option<&'a String>)
    ensures
        r matches Some(s) ==> j matches Some(v) && v.model() == Json::Str(s@),
        r is None ==> !(j matches Some(v) && v.model() is Str),
{
    match j {
        Some(JsonValue::Str(s)) => Some(s),
        _ => None,
    }
}

/// Sets member `k` of an object's members to `v`: the first member named `k` is overwritten in
/// place, or a new member goes last (`serde_json::Map::insert` on the printed text).
pub fn object_set(members: &mut Vec<(String, JsonValue)>, k: String, v: JsonValue)
    ensures
        members_model(final(members)@) == obj_insert(members_model(old(members)@), k@, v.model()),
{
    let ghost m0 = members_model(members@);
    let ghost kv = k@;
    let ghost vm = v.model();
    let key = chars_of(k.as_str());
    assert(Seq::new(members@.len(), |i: int| (members@[i].0@, members@[i].1.model())) =~= m0);
    proof {
        lemma_obj_index(m0, kv);
    }
    match member_index(members, &key) {
        Some(i) => {
            members.set(i, (k, v));
            assert(members_model(members@) =~= m0.update(i as int, (kv, vm)));
        },
        None => {
            members.push((k, v));
            assert(members_model(members@) =~= m0.push((kv, vm)));
        },
    }
}

pub proof fn lemma_object_model(v: Vec<(String, JsonValue)>)
    ensures
        JsonValue::Object(v).model() is Object,
        JsonValue::Object(v).model()->Object_0 =~= members_model(v@),
{
}

pub proof fn lemma_array_model(v: Vec<JsonValue>)
    ensures
        JsonValue::Array(v).model() is Array,
        JsonValue::Array(v).model()->Array_0 =~= Seq::new(v@.len(), |i: int| v@[i].model()),
{
}

// ---------------------------------------------------------------------------
// serde_json at the edges
// ---------------------------------------------------------------------------

#[verifier::external_type_specification]
#[verifier::external_body]
pub struct ExSerdeJsonValue(serde_json::Value);

/// What `serde_json::from_str::<serde_json::Value>` gives for the text, as a model:
/// `None` when the text is not a single JSON value.
pub uninterp spec fn json_parse(text: Seq<char>) -> Option<Json>;

/// The compact text `serde_json` prints for a value (`Value`'s `Display`), objects with their
/// members sorted by name and a repeated name keeping its last value.
pub uninterp spec fn json_text(v: Json) -> Seq<char>;

#[verifier::external_body]
pub(crate) fn json_from_serde(v: serde_json::Value) -> JsonValue {
    match v {
        serde_json::Value::Null => JsonValue::Null,
        serde_json::Value::Bool(b) => JsonValue::Bool(b),
        serde_json::Value::Number(n) => JsonValue::Number(n.to_string()),
        serde_json::Value::String(s) => JsonValue::Str(s),
        serde_json::Value::Array(a) => JsonValue::Array(a.into_iter().map(json_from_serde).collect()),
        serde_json::Value::Object(m) => JsonValue::Object(
            m.into_iter().map(|(k, x)| (k, json_from_serde(x))).collect(),
        ),
    }
}

#[verifier::external_body]
fn to_serde(v: &JsonValue) -> serde_json::Value {
    match v {
        JsonValue::Null => serde_json::Value::Null,
        JsonValue::Bool(b) => serde_json::Value::Bool(*b),
        JsonValue::Number(t) => t.parse::<serde_json::Number>().map(serde_json::Value::Number).unwrap_or(
            serde_json::Value::Null,
        ),
        JsonValue::Str(s) => serde_json::Value::String(s.clone()),
        JsonValue::Array(a) => serde_json::Value::Array(a.iter().map(to_serde).collect()),
        JsonValue::Object(m) => serde_json::Value::Object(
            m.iter().map(|(k, x)| (k.clone(), to_serde(x))).collect(),
        ),
    }
}

/// Calls `serde_json::from_str::<serde_json::Value>` and converts the result member for member.
#[verifier::external_body]
pub fn parse_json(text: &str) -> (r: Option<JsonValue>)
    ensures
        r matches Some(v) ==> json_parse(text@) == Some(v.model()),
        r is None ==> json_parse(text@) is None,
{
    serde_json::from_str::<serde_json::Value>(text).ok().map(json_from_serde)
}

/// Converts the value member for member and prints it with `serde_json::Value::to_string`.
#[verifier::external_body]
pub fn to_json_text(v: &JsonValue) -> (r: String)
    ensures
        r@ == json_text(v.model()),
{
    to_serde(v).to_string()
}

/// What `serde_json` reads as a number from the text (`str::parse::<serde_json::Number>`),
/// printed back with `Number`'s `Display`; `None` when the text is not a number it accepts.
pub uninterp spec fn json_number_text(text: Seq<char>) -> Option<Seq<char>>;

/// Calls `str::parse::<serde_json::Number>` and prints the number back.
#[verifier::external_body]
pub fn parse_json_number(text: &str) -> (r: Option<String>)
    ensures
        r matches Some(t) ==> json_number_text(text@) == Some(t@),
        r is None ==> json_number_text(text@) is None,
{
    text.parse::<serde_json::Number>().ok().map(|n| n.to_string())
}

/// The text a JSON value stands for when read out as a string: a string's own characters,
/// a number's or boolean's spelling, `null`, or the JSON text of an array or object.
pub open spec fn value_text(j: Json) -> Seq<char> {
    match j {
        Json::Str(s) => s,
        Json::Number(t) => t,
        Json::Bool(b) => if b { "true"@ } else { "false"@ },
        Json::Null => "null"@,
        _ => json_text(j),
    }
}

/// The value read out as a string.
pub fn value_to_text(v: &JsonValue) -> (r: String)
    ensures
        r@ == value_text(v.model()),
{
    match v {
        JsonValue::Str(s) => s.clone(),
        JsonValue::Number(t) => t.clone(),
        JsonValue::Bool(b) => {
            if *b {
                "true".to_owned()
            } else {
                "false".to_owned()
            }
        },
        JsonValue::Null => "null".to_owned(),
        _ => to_json_text(v),
    }
}

/// The JSON value `str::parse::<i64>` makes of a text: the number when it parses, else the string.
pub open spec fn scalar_for(value: Seq<char>) -> Json {
    match crate::text::parse_i64_spec(value) {
        Some(n) => Json::Number(signed_decimal(n as int)),
        None => Json::Str(value),
    }
}

} // verus!
