//! Reading endpoints, parameters and schemas out of an OpenAPI document.
use vstd::prelude::*;
use crate::json::{
    Json, JsonValue, field, str_of, get_field, get_str, obj_index, obj_lookup, lemma_obj_index, members_model,
    lemma_object_model, lemma_array_model, member_index, parse_json, json_parse,
};
use crate::text::{chars_of, chars_eq, string_of, split_chars, split_on, views, rfind_char, last_index_of, slice_chars};
use super::types::{
    ApiSpec, Endpoint, Parameter, ParameterLocation, PropertySchema, SchemaType, HttpMethod, SchemaModel, PropModel,
    ParamModel, EndpointModel, example_model, props_model, params_model, endpoints_model,
};

verus! {

broadcast use vstd::std_specs::vec::axiom_vec_index_decreases;

/// Why a document gives no API description.
#[derive(Debug, Clone, Copy, PartialEq, Eq, Structural)]
pub enum SpecError {
    /// The text is not a JSON (or YAML) document.
    InvalidDocument,
    /// The document has no `paths` object.
    NoPaths,
}

impl SpecError {
    /// The error as text.
    pub fn message(&self) -> (r: String)
        ensures
            *self == SpecError::InvalidDocument ==> r@ == "Invalid OpenAPI document"@,
            *self == SpecError::NoPaths ==> r@ == "No paths found in spec"@,
    {
        match self {
            SpecError::InvalidDocument => "Invalid OpenAPI document".to_owned(),
            SpecError::NoPaths => "No paths found in spec".to_owned(),
        }
    }
}

// ---------------------------------------------------------------------------
// Schemas
// ---------------------------------------------------------------------------

/// The schema type a JSON schema describes: by its `type` member; an array's items by
/// `items` (a string without it); an object's properties by `properties`, none required;
/// anything else a string.
pub open spec fn schema_of(j: Json) -> SchemaModel
    decreases j,
{
    match j {
        Json::Object(m) => match obj_lookup(m, "type"@) {
            Some(Json::Str(t)) => if t == "string"@ {
                SchemaModel::String
            } else if t == "integer"@ {
                SchemaModel::Integer
            } else if t == "number"@ {
                SchemaModel::Number
            } else if t == "boolean"@ {
                SchemaModel::Boolean
            } else if t == "array"@ {
                match obj_index(m, "items"@) {
                    Some(i) => if 0 <= i < m.len() {
                        SchemaModel::Array(Box::new(schema_of(m[i].1)))
                    } else {
                        SchemaModel::Array(Box::new(SchemaModel::String))
                    },
                    None => SchemaModel::Array(Box::new(SchemaModel::String)),
                }
            } else if t == "object"@ {
                match obj_index(m, "properties"@) {
                    Some(i) => if 0 <= i < m.len() {
                        match m[i].1 {
                            Json::Object(ps) => SchemaModel::Object(
                                Seq::new(
                                    ps.len(),
                                    |k: int|
                                        if 0 <= k < ps.len() {
                                            (
                                                ps[k].0,
                                                PropModel {
                                                    schema_type: schema_of(ps[k].1),
                                                    required: false,
                                                    example: field(ps[k].1, "example"@),
                                                },
                                            )
                                        } else {
                                            (Seq::empty(), PropModel { schema_type: SchemaModel::String, required: false, example: None })
                                        },
                                ),
                            ),
                            _ => SchemaModel::Object(Seq::empty()),
                        }
                    } else {
                        SchemaModel::Object(Seq::empty())
                    },
                    None => SchemaModel::Object(Seq::empty()),
                }
            } else {
                SchemaModel::String
            },
            _ => SchemaModel::String,
        },
        _ => SchemaModel::String,
    }
}

fn text_is(s: &String, lit: &str) -> (r: bool)
    ensures
        r == (s@ == lit@),
{
    chars_eq(&chars_of(s.as_str()), &chars_of(lit))
}

/// The schema type a JSON schema describes (see `schema_of`).
pub fn parse_schema_type(schema: &JsonValue) -> (r: SchemaType)
    ensures
        r.model() == schema_of(schema.model()),
    decreases schema,
{
    match schema {
        JsonValue::Object(members) => {
            let ghost m = members_model(members@);
            proof {
                lemma_object_model(*members);
                lemma_obj_index(m, "type"@);
                lemma_obj_index(m, "items"@);
                lemma_obj_index(m, "properties"@);
            }
            assert(Seq::new(members@.len(), |i: int| (members@[i].0@, members@[i].1.model())) =~= m);
            assert(schema.model() == Json::Object(m));
            let t = match member_index(members, &chars_of("type")) {
                Some(i) => match &members[i].1 {
                    JsonValue::Str(s) => s,
                    _ => {
                        return SchemaType::String;
                    },
                },
                None => {
                    return SchemaType::String;
                },
            };
            assert(obj_lookup(m, "type"@) == Some(Json::Str(t@)));
            if text_is(t, "string") {
                let r = SchemaType::String;
                assert(r.model() == schema_of(schema.model()));
                r
            } else if text_is(t, "integer") {
                let r = SchemaType::Integer;
                assert(r.model() == schema_of(schema.model()));
                r
            } else if text_is(t, "number") {
                let r = SchemaType::Number;
                assert(r.model() == schema_of(schema.model()));
                r
            } else if text_is(t, "boolean") {
                let r = SchemaType::Boolean;
                assert(r.model() == schema_of(schema.model()));
                r
            } else if text_is(t, "array") {
                match member_index(members, &chars_of("items")) {
                    Some(i) => {
                        proof {
                            assert(decreases_to!(*schema => schema->Object_0));
                            assert(schema->Object_0 == *members);
                            assert(decreases_to!(*members => members@[i as int]));
                            assert(decreases_to!(members@[i as int] => members@[i as int].1));
                        }
                        let inner = parse_schema_type(&members[i].1);
                        let r = SchemaType::Array(Box::new(inner));
                        assert(r.model() == schema_of(schema.model()));
                        r
                    },
                    None => {
                        let r = SchemaType::Array(Box::new(SchemaType::String));
                        assert(r.model() == schema_of(schema.model()));
                        r
                    },
                }
            } else if text_is(t, "object") {
                let mut props: Vec<(String, PropertySchema)> = Vec::new();
                let ghost mut expected: Seq<(Seq<char>, PropModel)> = Seq::empty();
                match member_index(members, &chars_of("properties")) {
                    Some(i) => {
                        match &members[i].1 {
                            JsonValue::Object(ps) => {
                                let ghost pm = members_model(ps@);
                                proof {
                                    lemma_object_model(*ps);
                                }
                                let mut k: usize = 0;
                                while k < ps.len()
                                    invariant
                                        k <= ps.len(),
                                        *schema == JsonValue::Object(*members),
                                        i < members@.len(),
                                        members@[i as int].1 == JsonValue::Object(*ps),
                                        pm == members_model(ps@),
                                        props@.len() == k,
                                        forall|j: int| 0 <= j < k ==> (#[trigger] props@[j]).0@ == pm[j].0 && props@[j].1.model() == (PropModel {
                                            schema_type: schema_of(pm[j].1),
                                            required: false,
                                            example: field(pm[j].1, "example"@),
                                        }),
                                    decreases ps.len() - k,
                                {
                                    proof {
                                        assert(decreases_to!(*schema => schema->Object_0));
                                        assert(schema->Object_0 == *members);
                                        assert(decreases_to!(*members => members@[i as int]));
                                        assert(decreases_to!(members@[i as int] => members@[i as int].1));
                                        assert(members@[i as int].1 == JsonValue::Object(*ps));
                                        assert(decreases_to!(members@[i as int].1 => members@[i as int].1->Object_0));
                                        assert(decreases_to!(*ps => ps@[k as int]));
                                        assert(decreases_to!(ps@[k as int] => ps@[k as int].1));
                                    }
                                    let st = parse_schema_type(&ps[k].1);
                                    let example = match get_field(&ps[k].1, "example") {
                                        Some(e) => Some(e.deep_copy()),
                                        None => None,
                                    };
                                    props.push((ps[k].0.clone(), PropertySchema { schema_type: st, required: false, example }));
                                    k += 1;
                                }
                                proof {
                                    expected = Seq::new(
                                        pm.len(),
                                        |k: int|
                                            if 0 <= k < pm.len() {
                                                (pm[k].0, PropModel { schema_type: schema_of(pm[k].1), required: false, example: field(pm[k].1, "example"@) })
                                            } else {
                                                (Seq::empty(), PropModel { schema_type: SchemaModel::String, required: false, example: None })
                                            },
                                    );
                                    assert(props_model(props@) =~= expected);
                                    assert(m[i as int].1 == Json::Object(pm));
                                    assert(schema.model() == Json::Object(m));
                                    assert(schema_of(schema.model()) is Object);
                                    assert(schema_of(schema.model())->Object_0 =~= expected);
                                }
                            },
                            _ => {
                                assert(props_model(props@) =~= expected);
                                assert(schema_of(schema.model()) == SchemaModel::Object(expected));
                            },
                        }
                    },
                    None => {
                        assert(props_model(props@) =~= expected);
                        assert(schema_of(schema.model()) == SchemaModel::Object(expected));
                    },
                }
                assert(props_model(props@) == expected);
                assert(schema_of(schema.model())->Object_0 == expected);
                assert(schema_of(schema.model()) is Object);
                let r = SchemaType::Object(props);
                proof {
                    assert(r.model()->Object_0 =~= props_model(props@));
                }
                assert(r.model() == schema_of(schema.model()));
                r
            } else {
                SchemaType::String
            }
        },
        _ => SchemaType::String,
    }
}

// ---------------------------------------------------------------------------
// Parameters and bodies
// ---------------------------------------------------------------------------

/// Where a parameter goes, by the name its `in` member gives.
pub open spec fn location_of(s: Seq<char>) -> Option<ParameterLocation> {
    if s == "path"@ {
        Some(ParameterLocation::Path)
    } else if s == "query"@ {
        Some(ParameterLocation::Query)
    } else if s == "header"@ {
        Some(ParameterLocation::Header)
    } else {
        None
    }
}

/// The value of a boolean.
pub open spec fn bool_of(j: Option<Json>) -> Option<bool> {
    match j {
        Some(Json::Bool(b)) => Some(b),
        _ => None,
    }
}

/// The parameter a JSON parameter object describes: it needs a `name` and an `in` of `path`,
/// `query` or `header`; `required` is false unless it says true; `schema` gives its type.
pub open spec fn param_of(j: Json) -> Option<ParamModel> {
    match str_of(field(j, "name"@)) {
        None => None,
        Some(name) => match str_of(field(j, "in"@)) {
            None => None,
            Some(loc) => match location_of(loc) {
                None => None,
                Some(l) => Some(
                    ParamModel {
                        name,
                        location: l,
                        required: match bool_of(field(j, "required"@)) {
                            Some(b) => b,
                            None => false,
                        },
                        schema_type: schema_of(
                            match field(j, "schema"@) {
                                Some(x) => x,
                                None => Json::Null,
                            },
                        ),
                        example: field(j, "example"@),
                    },
                ),
            },
        },
    }
}

fn location_exec(s: &String) -> (r: Option<ParameterLocation>)
    ensures
        r == location_of(s@),
{
    if text_is(s, "path") {
        Some(ParameterLocation::Path)
    } else if text_is(s, "query") {
        Some(ParameterLocation::Query)
    } else if text_is(s, "header") {
        Some(ParameterLocation::Header)
    } else {
        None
    }
}

/// The parameter a JSON parameter object describes (see `param_of`).
pub fn parse_parameter(param: &JsonValue) -> (r: Option<Parameter>)
    ensures
        r matches Some(p) ==> param_of(param.model()) == Some(p.model()),
        r is None ==> param_of(param.model()) is None,
{
    let name = match get_str(get_field(param, "name")) {
        Some(n) => n.clone(),
        None => {
            return None;
        },
    };
    let loc = match get_str(get_field(param, "in")) {
        Some(l) => l,
        None => {
            return None;
        },
    };
    let location = match location_exec(loc) {
        Some(l) => l,
        None => {
            return None;
        },
    };
    let required = match get_field(param, "required") {
        Some(JsonValue::Bool(b)) => *b,
        _ => false,
    };
    let schema_type = match get_field(param, "schema") {
        Some(s) => parse_schema_type(s),
        None => parse_schema_type(&JsonValue::Null),
    };
    let example = match get_field(param, "example") {
        Some(e) => Some(e.deep_copy()),
        None => None,
    };
    Some(Parameter { name, location, required, schema_type, example })
}

/// The parameters a list of JSON parameter objects describes, those that describe one.
pub open spec fn params_in(a: Seq<Json>) -> Seq<ParamModel>
    decreases a.len(),
{
    if a.len() == 0 {
        Seq::empty()
    } else {
        let prev = params_in(a.drop_last());
        match param_of(a.last()) {
            Some(p) => prev.push(p),
            None => prev,
        }
    }
}

/// The parameters of a `parameters` member that is an array.
pub open spec fn params_from(src: Option<Json>) -> Seq<ParamModel> {
    match src {
        Some(Json::Array(a)) => params_in(a),
        _ => Seq::empty(),
    }
}

/// An operation's parameters: those of its path item, then its own.
pub open spec fn params_of(path_item: Json, operation: Json) -> Seq<ParamModel> {
    params_from(field(path_item, "parameters"@)) + params_from(field(operation, "parameters"@))
}

fn push_params(out: &mut Vec<Parameter>, src: Option<&JsonValue>)
    ensures
        params_model(final(out)@) == params_model(old(out)@) + params_from(
            match src {
                Some(v) => Some(v.model()),
                None => None,
            },
        ),
{
    let ghost start = params_model(out@);
    match src {
        Some(JsonValue::Array(items)) => {
            let ghost a = Seq::new(items@.len(), |i: int| items@[i].model());
            proof {
                lemma_array_model(*items);
            }
            let mut i: usize = 0;
            while i < items.len()
                invariant
                    i <= items.len(),
                    a == Seq::new(items@.len(), |i: int| items@[i].model()),
                    params_model(out@) == start + params_in(a.take(i as int)),
                decreases items.len() - i,
            {
                assert(a.take(i + 1).drop_last() =~= a.take(i as int));
                assert(a.take(i + 1).last() == items@[i as int].model());
                let ghost before = params_model(out@);
                match parse_parameter(&items[i]) {
                    Some(p) => {
                        let ghost pm = p.model();
                        out.push(p);
                        assert(params_model(out@) =~= before.push(pm));
                    },
                    None => {},
                }
                i += 1;
            }
            assert(a.take(items.len() as int) =~= a);
        },
        _ => {
            assert(params_model(out@) =~= start + Seq::<ParamModel>::empty());
        },
    }
}

/// The parameters of an operation (see `params_of`).
pub fn extract_parameters(operation: &JsonValue, path_item: &JsonValue) -> (r: Vec<Parameter>)
    ensures
        params_model(r@) == params_of(path_item.model(), operation.model()),
{
    let mut params: Vec<Parameter> = Vec::new();
    assert(params_model(params@) =~= Seq::<ParamModel>::empty());
    push_params(&mut params, get_field(path_item, "parameters"));
    push_params(&mut params, get_field(operation, "parameters"));
    assert(params_model(params@) =~= params_of(path_item.model(), operation.model()));
    params
}

/// The strings among a list of values.
pub open spec fn strings_in(a: Seq<Json>) -> Seq<Seq<char>>
    decreases a.len(),
{
    if a.len() == 0 {
        Seq::empty()
    } else {
        let prev = strings_in(a.drop_last());
        match a.last() {
            Json::Str(s) => prev.push(s),
            _ => prev,
        }
    }
}

/// The names a schema's `required` member lists.
pub open spec fn required_names(r: Option<Json>) -> Seq<Seq<char>> {
    match r {
        Some(Json::Array(a)) => strings_in(a),
        _ => Seq::empty(),
    }
}

/// The properties of a JSON request body: those of the `application/json` schema's
/// `properties` object, required when the schema's `required` list names them; nothing
/// when the operation has no such schema or the schema no `properties`.
pub open spec fn body_of(op: Json) -> Option<Seq<(Seq<char>, PropModel)>> {
    match field(op, "requestBody"@) {
        None => None,
        Some(rb) => match field(rb, "content"@) {
            None => None,
            Some(c) => match field(c, "application/json"@) {
                None => None,
                Some(aj) => match field(aj, "schema"@) {
                    None => None,
                    Some(schema) => match field(schema, "properties"@) {
                        None => None,
                        Some(props) => {
                            let req = required_names(field(schema, "required"@));
                            Some(
                                match props {
                                    Json::Object(m) => Seq::new(
                                        m.len(),
                                        |k: int|
                                            (
                                                m[k].0,
                                                PropModel {
                                                    schema_type: schema_of(m[k].1),
                                                    required: req.contains(m[k].0),
                                                    example: field(m[k].1, "example"@),
                                                },
                                            ),
                                    ),
                                    _ => Seq::empty(),
                                },
                            )
                        },
                    },
                },
            },
        },
    }
}

fn required_list(r: Option<&JsonValue>) -> (out: Vec<String>)
    ensures
        out@.map_values(|s: String| s@) == required_names(
            match r {
                Some(v) => Some(v.model()),
                None => None,
            },
        ),
{
    let mut out: Vec<String> = Vec::new();
    match r {
        Some(JsonValue::Array(items)) => {
            let ghost a = Seq::new(items@.len(), |i: int| items@[i].model());
            proof {
                lemma_array_model(*items);
            }
            let mut i: usize = 0;
            while i < items.len()
                invariant
                    i <= items.len(),
                    a == Seq::new(items@.len(), |i: int| items@[i].model()),
                    out@.map_values(|s: String| s@) == strings_in(a.take(i as int)),
                decreases items.len() - i,
            {
                assert(a.take(i + 1).drop_last() =~= a.take(i as int));
                assert(a.take(i + 1).last() == items@[i as int].model());
                let ghost before = out@.map_values(|s: String| s@);
                match &items[i] {
                    JsonValue::Str(s) => {
                        out.push(s.clone());
                        assert(out@.map_values(|s: String| s@) =~= before.push(s@));
                    },
                    _ => {},
                }
                i += 1;
            }
            assert(a.take(items.len() as int) =~= a);
        },
        _ => {
            assert(out@.map_values(|s: String| s@) =~= Seq::<Seq<char>>::empty());
        },
    }
    out
}

fn names_contain(names: &Vec<String>, key: &String) -> (r: bool)
    ensures
        r == names@.map_values(|s: String| s@).contains(key@),
{
    let ghost v = names@.map_values(|s: String| s@);
    let mut i: usize = 0;
    while i < names.len()
        invariant
            i <= names.len(),
            v == names@.map_values(|s: String| s@),
            forall|k: int| 0 <= k < i ==> v[k] != key@,
        decreases names.len() - i,
    {
        assert(v[i as int] == names@[i as int]@);
        if text_is(&names[i], key.as_str()) {
            return true;
        }
        i += 1;
    }
    false
}

/// The properties of an operation's JSON request body (see `body_of`).
pub fn extract_request_body(operation: &JsonValue) -> (r: Option<Vec<(String, PropertySchema)>>)
    ensures
        match r {
            Some(v) => body_of(operation.model()) == Some(props_model(v@)),
            None => body_of(operation.model()) is None,
        },
{
    let rb = match get_field(operation, "requestBody") {
        Some(x) => x,
        None => {
            return None;
        },
    };
    let content = match get_field(rb, "content") {
        Some(x) => x,
        None => {
            return None;
        },
    };
    let aj = match get_field(content, "application/json") {
        Some(x) => x,
        None => {
            return None;
        },
    };
    let schema = match get_field(aj, "schema") {
        Some(x) => x,
        None => {
            return None;
        },
    };
    let properties = match get_field(schema, "properties") {
        Some(x) => x,
        None => {
            return None;
        },
    };
    let required_fields = required_list(get_field(schema, "required"));
    let ghost req = required_names(field(schema.model(), "required"@));
    let mut body_schema: Vec<(String, PropertySchema)> = Vec::new();
    match properties {
        JsonValue::Object(ps) => {
            let ghost pm = members_model(ps@);
            proof {
                lemma_object_model(*ps);
            }
            let mut k: usize = 0;
            while k < ps.len()
                invariant
                    k <= ps.len(),
                    pm == members_model(ps@),
                    required_fields@.map_values(|s: String| s@) == req,
                    body_schema@.len() == k,
                    forall|j: int| 0 <= j < k ==> (#[trigger] body_schema@[j]).0@ == pm[j].0 && body_schema@[j].1.model() == (PropModel {
                        schema_type: schema_of(pm[j].1),
                        required: req.contains(pm[j].0),
                        example: field(pm[j].1, "example"@),
                    }),
                decreases ps.len() - k,
            {
                let st = parse_schema_type(&ps[k].1);
                let required = names_contain(&required_fields, &ps[k].0);
                let example = match get_field(&ps[k].1, "example") {
                    Some(e) => Some(e.deep_copy()),
                    None => None,
                };
                body_schema.push((ps[k].0.clone(), PropertySchema { schema_type: st, required, example }));
                k += 1;
            }
            proof {
                let want = Seq::new(
                    pm.len(),
                    |k: int| (pm[k].0, PropModel { schema_type: schema_of(pm[k].1), required: req.contains(pm[k].0), example: field(pm[k].1, "example"@) }),
                );
                assert(props_model(body_schema@) =~= want);
                assert(properties.model() == Json::Object(pm));
            }
        },
        _ => {
            assert(props_model(body_schema@) =~= Seq::<(Seq<char>, PropModel)>::empty());
        },
    }
    Some(body_schema)
}

// ---------------------------------------------------------------------------
// Endpoints
// ---------------------------------------------------------------------------

/// The operation names an endpoint can have, with their methods, in the order they are read.
pub open spec fn method_keys() -> Seq<(Seq<char>, HttpMethod)> {
    seq![("get"@, HttpMethod::Get), ("post"@, HttpMethod::Post), ("put"@, HttpMethod::Put), ("delete"@, HttpMethod::Delete), ("patch"@, HttpMethod::Patch)]
}

/// The endpoints of one path item, for the first `n` method names.
pub open spec fn item_endpoints(path: Seq<char>, item: Json, n: nat) -> Seq<EndpointModel>
    decreases n,
{
    if n == 0 {
        Seq::empty()
    } else {
        let prev = item_endpoints(path, item, (n - 1) as nat);
        let (key, method) = method_keys()[n - 1];
        match field(item, key) {
            Some(op) => prev.push(EndpointModel { path, method, parameters: params_of(item, op), request_body: body_of(op) }),
            None => prev,
        }
    }
}

/// The methods of the endpoints of a path item come from its first `n` operation names, one each.
proof fn lemma_item_methods(path: Seq<char>, item: Json, n: nat)
    requires
        n <= 5,
    ensures
        forall|i: int|
            0 <= i < item_endpoints(path, item, n).len() ==> exists|k: int|
                0 <= k < n && (#[trigger] item_endpoints(path, item, n)[i]).method == method_keys()[k].1
                    && field(item, method_keys()[k].0) is Some,
        forall|i: int, j: int|
            0 <= i < j < item_endpoints(path, item, n).len() ==> (#[trigger] item_endpoints(path, item, n)[i]).method
                != (#[trigger] item_endpoints(path, item, n)[j]).method,
        forall|i: int| 0 <= i < item_endpoints(path, item, n).len() ==> (#[trigger] item_endpoints(path, item, n)[i]).path == path,
    decreases n,
{
    if n > 0 {
        lemma_item_methods(path, item, (n - 1) as nat);
        let prev = item_endpoints(path, item, (n - 1) as nat);
        let cur = item_endpoints(path, item, n);
        assert forall|k: int| 0 <= k < n - 1 implies (#[trigger] method_keys()[k]).1 != method_keys()[n - 1].1 by {}
        assert forall|i: int| 0 <= i < prev.len() implies #[trigger] cur[i] == prev[i] by {}
        assert forall|i: int|
            0 <= i < cur.len() implies exists|k: int|
                0 <= k < n && (#[trigger] cur[i]).method == method_keys()[k].1 && field(item, method_keys()[k].0) is Some by {
            if i < prev.len() {
                assert(cur[i] == prev[i]);
            } else {
                assert(cur[i].method == method_keys()[n - 1].1);
            }
        }
        assert forall|i: int, j: int| 0 <= i < j < cur.len() implies (#[trigger] cur[i]).method != (#[trigger] cur[j]).method by {
            assert(cur[i] == prev[i]);
            if j < prev.len() {
                assert(cur[j] == prev[j]);
            } else {
                let k = choose|k: int| 0 <= k < n - 1 && (#[trigger] prev[i]).method == method_keys()[k].1 && field(item, method_keys()[k].0) is Some;
                assert(cur[j].method == method_keys()[n - 1].1);
            }
        }
    }
}

/// A path item's endpoints have pairwise different methods, one for each operation it holds:
/// `get` gives GET, `post` POST, `put` PUT, `delete` DELETE and `patch` PATCH.
pub proof fn law_operation_keys_give_methods(path: Seq<char>, item: Json, key: Seq<char>, method: HttpMethod)
    requires
        (key == "get"@ && method == HttpMethod::Get) || (key == "post"@ && method == HttpMethod::Post) || (key == "put"@
            && method == HttpMethod::Put) || (key == "delete"@ && method == HttpMethod::Delete) || (key == "patch"@ && method
            == HttpMethod::Patch),
    ensures
        field(item, key) is Some <==> exists|i: int|
            0 <= i < item_endpoints(path, item, 5).len() && (#[trigger] item_endpoints(path, item, 5)[i]).method == method,
        forall|i: int, j: int|
            0 <= i < j < item_endpoints(path, item, 5).len() ==> (#[trigger] item_endpoints(path, item, 5)[i]).method
                != (#[trigger] item_endpoints(path, item, 5)[j]).method,
{
    lemma_item_methods(path, item, 5);
    reveal_with_fuel(item_endpoints, 6);
    let e = item_endpoints(path, item, 5);
    let k: int = if key == "get"@ && method == HttpMethod::Get {
        0
    } else if key == "post"@ && method == HttpMethod::Post {
        1
    } else if key == "put"@ && method == HttpMethod::Put {
        2
    } else if key == "delete"@ && method == HttpMethod::Delete {
        3
    } else {
        4
    };
    assert(method_keys()[k].0 == key && method_keys()[k].1 == method);
    if field(item, key) is Some {
        assert(exists|i: int| 0 <= i < e.len() && (#[trigger] e[i]).method == method) by {
            lemma_item_has(path, item, k);
        }
    }
    if exists|i: int| 0 <= i < e.len() && (#[trigger] e[i]).method == method {
        let i = choose|i: int| 0 <= i < e.len() && (#[trigger] e[i]).method == method;
        let k2 = choose|k2: int| 0 <= k2 < 5 && (#[trigger] e[i]).method == method_keys()[k2].1 && field(item, method_keys()[k2].0) is Some;
        assert(k2 == k);
    }
}

/// The operation named by method name `k` of a path item, when the item has it, gives an
/// endpoint with that method.
proof fn lemma_item_has(path: Seq<char>, item: Json, k: int)
    requires
        0 <= k < 5,
        field(item, method_keys()[k].0) is Some,
    ensures
        exists|i: int|
            0 <= i < item_endpoints(path, item, 5).len() && (#[trigger] item_endpoints(path, item, 5)[i]).method == method_keys()[k].1,
{
    lemma_item_has_upto(path, item, k, 5);
}

proof fn lemma_item_has_upto(path: Seq<char>, item: Json, k: int, n: nat)
    requires
        0 <= k < n <= 5,
        field(item, method_keys()[k].0) is Some,
    ensures
        exists|i: int|
            0 <= i < item_endpoints(path, item, n).len() && (#[trigger] item_endpoints(path, item, n)[i]).method == method_keys()[k].1,
    decreases n,
{
    let prev = item_endpoints(path, item, (n - 1) as nat);
    let cur = item_endpoints(path, item, n);
    if k == n - 1 {
        assert(cur[prev.len() as int].method == method_keys()[k].1);
    } else {
        lemma_item_has_upto(path, item, k, (n - 1) as nat);
        let i = choose|i: int| 0 <= i < prev.len() && (#[trigger] prev[i]).method == method_keys()[k].1;
        assert(cur[i] == prev[i]);
    }
}

/// The endpoints of the paths object's members, one path after the other.
pub open spec fn endpoints_of(paths: Seq<(Seq<char>, Json)>) -> Seq<EndpointModel>
    decreases paths.len(),
{
    if paths.len() == 0 {
        Seq::empty()
    } else {
        endpoints_of(paths.drop_last()) + item_endpoints(paths.last().0, paths.last().1, 5)
    }
}

fn method_key(k: usize) -> (r: (&'static str, HttpMethod))
    requires
        k < 5,
    ensures
        r.0@ == method_keys()[k as int].0,
        r.1 == method_keys()[k as int].1,
{
    if k == 0 {
        ("get", HttpMethod::Get)
    } else if k == 1 {
        ("post", HttpMethod::Post)
    } else if k == 2 {
        ("put", HttpMethod::Put)
    } else if k == 3 {
        ("delete", HttpMethod::Delete)
    } else {
        ("patch", HttpMethod::Patch)
    }
}

/// The endpoints of the document's `paths` object; an error when it has none.
pub fn extract_endpoints(spec: &JsonValue) -> (r: Result<Vec<Endpoint>, SpecError>)
    ensures
        match field(spec.model(), "paths"@) {
            Some(Json::Object(m)) => r matches Ok(v) && endpoints_model(v@) == endpoints_of(m),
            _ => r == Err::<Vec<Endpoint>, SpecError>(SpecError::NoPaths),
        },
{
    let paths = match get_field(spec, "paths") {
        Some(JsonValue::Object(ps)) => ps,
        _ => {
            return Err(SpecError::NoPaths);
        },
    };
    let ghost m = members_model(paths@);
    proof {
        lemma_object_model(*paths);
    }
    let mut endpoints: Vec<Endpoint> = Vec::new();
    let mut i: usize = 0;
    while i < paths.len()
        invariant
            i <= paths.len(),
            m == members_model(paths@),
            endpoints_model(endpoints@) == endpoints_of(m.take(i as int)),
        decreases paths.len() - i,
    {
        assert(m.take(i + 1).drop_last() =~= m.take(i as int));
        assert(m.take(i + 1).last() == m[i as int]);
        let path = &paths[i].0;
        let item = &paths[i].1;
        let ghost start = endpoints_model(endpoints@);
        let mut k: usize = 0;
        while k < 5
            invariant
                k <= 5,
                i < paths.len(),
                m == members_model(paths@),
                *path == paths@[i as int].0,
                *item == paths@[i as int].1,
                endpoints_model(endpoints@) == start + item_endpoints(m[i as int].0, m[i as int].1, k as nat),
            decreases 5 - k,
        {
            let (key, method) = method_key(k);
            match get_field(item, key) {
                Some(op) => {
                    let parameters = extract_parameters(op, item);
                    let request_body = extract_request_body(op);
                    let ghost before = endpoints_model(endpoints@);
                    let ep = Endpoint { path: path.clone(), method, parameters, request_body };
                    let ghost em = ep.model();
                    endpoints.push(ep);
                    assert(endpoints_model(endpoints@) =~= before.push(em));
                },
                None => {},
            }
            k += 1;
        }
        i += 1;
    }
    assert(m.take(paths.len() as int) =~= m);
    Ok(endpoints)
}

/// The URL of the document's first server, or `http://localhost:8080`.
pub open spec fn base_url_of(spec: Json) -> Seq<char> {
    match field(spec, "servers"@) {
        Some(Json::Array(a)) => if a.len() > 0 {
            match str_of(field(a[0], "url"@)) {
                Some(u) => u,
                None => "http://localhost:8080"@,
            }
        } else {
            "http://localhost:8080"@
        },
        _ => "http://localhost:8080"@,
    }
}

/// The URL of the document's first server, or `http://localhost:8080`.
pub fn extract_base_url(spec: &JsonValue) -> (r: String)
    ensures
        r@ == base_url_of(spec.model()),
{
    match get_field(spec, "servers") {
        Some(JsonValue::Array(servers)) => {
            proof {
                lemma_array_model(*servers);
            }
            if servers.len() > 0 {
                match get_str(get_field(&servers[0], "url")) {
                    Some(u) => u.clone(),
                    None => "http://localhost:8080".to_owned(),
                }
            } else {
                "http://localhost:8080".to_owned()
            }
        },
        _ => "http://localhost:8080".to_owned(),
    }
}

/// The document's title (`info.title`), or `Unknown API`.
pub open spec fn title_of(spec: Json) -> Seq<char> {
    match field(spec, "info"@) {
        Some(info) => match str_of(field(info, "title"@)) {
            Some(t) => t,
            None => "Unknown API"@,
        },
        None => "Unknown API"@,
    }
}

/// The API a parsed document describes: its title, base URL and endpoints.
pub fn parse_openapi_value(spec: &JsonValue) -> (r: Result<ApiSpec, SpecError>)
    ensures
        match field(spec.model(), "paths"@) {
            Some(Json::Object(m)) => r matches Ok(a) && a.title@ == title_of(spec.model()) && a.base_url@ == base_url_of(spec.model())
                && endpoints_model(a.endpoints@) == endpoints_of(m),
            _ => r == Err::<ApiSpec, SpecError>(SpecError::NoPaths),
        },
{
    let title = match get_field(spec, "info") {
        Some(info) => match get_str(get_field(info, "title")) {
            Some(t) => t.clone(),
            None => "Unknown API".to_owned(),
        },
        None => "Unknown API".to_owned(),
    };
    let base_url = extract_base_url(spec);
    let endpoints = match extract_endpoints(spec) {
        Ok(e) => e,
        Err(e) => {
            return Err(e);
        },
    };
    Ok(ApiSpec { title, base_url, endpoints })
}

/// What `serde_yaml::from_str::<serde_json::Value>` gives for the text, as a model:
/// `None` when the text is not a YAML document that maps onto JSON.
pub uninterp spec fn yaml_parse(text: Seq<char>) -> Option<Json>;

/// Calls `serde_yaml::from_str::<serde_json::Value>` and converts the result member for member.
#[verifier::external_body]
pub fn parse_yaml(text: &str) -> (r: Option<JsonValue>)
    ensures
        r matches Some(v) ==> yaml_parse(text@) == Some(v.model()),
        r is None ==> yaml_parse(text@) is None,
{
    serde_yaml::from_str::<serde_json::Value>(text).ok().map(crate::json::json_from_serde)
}

/// The last path component that is a name, scanning `parts` from the end past empty
/// components and `.`.
pub open spec fn last_name(parts: Seq<Seq<char>>) -> Option<Seq<char>>
    decreases parts.len(),
{
    if parts.len() == 0 {
        None
    } else if parts.last().len() == 0 || parts.last() == "."@ {
        last_name(parts.drop_last())
    } else {
        Some(parts.last())
    }
}

/// The extension of a path as `Path::extension` gives it on `/`-separated paths: what follows
/// the last `.` of the file name, where the file name is the last component (not `..`) and
/// the `.` is not its first character.
pub open spec fn path_extension(path: Seq<char>) -> Option<Seq<char>> {
    match last_name(split_on(path, '/')) {
        Some(name) => if name == ".."@ {
            None
        } else {
            match last_index_of(name, '.') {
                Some(i) => if i == 0 { None } else { Some(name.skip(i + 1)) },
                None => None,
            }
        },
        None => None,
    }
}

/// A file is read as YAML when its extension is `yaml` or `yml`.
pub open spec fn yaml_path(path: Seq<char>) -> bool {
    path_extension(path) == Some("yaml"@) || path_extension(path) == Some("yml"@)
}

/// Whether a document at `path` is read as YAML (see `yaml_path`).
pub fn is_yaml_path(path: &str) -> (r: bool)
    ensures
        r == yaml_path(path@),
{
    let parts = split_chars(&chars_of(path), '/');
    let ghost ps = views(parts@);
    let dot = chars_of(".");
    let mut i: usize = parts.len();
    assert(ps.take(i as int) =~= ps);
    while i > 0
        invariant
            i <= parts.len(),
            ps == views(parts@),
            ps == split_on(path@, '/'),
            dot@ == "."@,
            last_name(ps) == last_name(ps.take(i as int)),
        decreases i,
    {
        let part = &parts[i - 1];
        proof {
            assert(ps.take(i as int).last() == part@);
            assert(ps.take(i as int).drop_last() =~= ps.take(i - 1));
        }
        if part.len() > 0 && !chars_eq(part, &dot) {
            let name = part;
            if chars_eq(name, &chars_of("..")) {
                return false;
            }
            match rfind_char(name, '.') {
                Some(k) => {
                    if k == 0 {
                        return false;
                    }
                    let ext = slice_chars(name, k + 1, name.len());
                    assert(ext@ =~= name@.skip(k + 1));
                    return chars_eq(&ext, &chars_of("yaml")) || chars_eq(&ext, &chars_of("yml"));
                },
                None => {
                    return false;
                },
            }
        }
        i -= 1;
    }
    assert(ps.take(0).len() == 0);
    false
}

/// The document the text holds, read as YAML or as JSON.
pub open spec fn document_of(content: Seq<char>, yaml: bool) -> Option<Json> {
    if yaml {
        yaml_parse(content)
    } else {
        json_parse(content)
    }
}

/// The API described by an OpenAPI document's text, read as YAML when `yaml` holds and as
/// JSON otherwise.
pub fn parse_openapi_text(content: &str, yaml: bool) -> (r: Result<ApiSpec, SpecError>)
    ensures
        match document_of(content@, yaml) {
            None => r == Err::<ApiSpec, SpecError>(SpecError::InvalidDocument),
            Some(d) => match field(d, "paths"@) {
                Some(Json::Object(m)) => r matches Ok(a) && a.title@ == title_of(d) && a.base_url@ == base_url_of(d)
                    && endpoints_model(a.endpoints@) == endpoints_of(m),
                _ => r == Err::<ApiSpec, SpecError>(SpecError::NoPaths),
            },
        },
{
    let doc = if yaml {
        parse_yaml(content)
    } else {
        parse_json(content)
    };
    match doc {
        Some(d) => parse_openapi_value(&d),
        None => Err(SpecError::InvalidDocument),
    }
}

} // verus!
