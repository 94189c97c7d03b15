//! Request sequences built from an API description: create-then-use chains, full CRUD
//! cycles and login-then-call pairs, with the extractions that carry ids and tokens.
use vstd::prelude::*;
use crate::string_map::{StringMap, Entries, insert_entry};
use crate::text::{
    chars_of, string_of, chars_eq, append_chars, append_str, has_prefix, has_suffix, split_chars,
    split_on, views, trim_end_matches, trim_end_char, replace_chars, replace_all, to_lowercase,
    lowercase, starts_with, ends_with, contains, contains_chars,
};
use crate::json::{Json, JsonValue, json_text, to_json_text, value_text, value_to_text, members_model, lemma_object_model};
use crate::parser::types::{Endpoint, Parameter, ParameterLocation, SchemaType, PropertySchema, HttpMethod, method_name};
use crate::fuzzer::input::{FuzzHttpRequest, RequestModel};
use crate::fuzzer::sequence_input::{FuzzRequestSequence, reqs_view};
use crate::fuzzer::state_manager::{StateExtraction, InjectionTarget, ExtractionModel, TargetModel, exts_view, id_placeholder};

verus! {

// ---------------------------------------------------------------------------
// Id parameters
// ---------------------------------------------------------------------------

/// Parameter names known to hold an id.
pub open spec fn id_param_patterns() -> Seq<Seq<char>> {
    seq![
        "id"@, "Id"@, "ID"@, "petId"@, "userId"@, "orderId"@, "itemId"@, "productId"@,
        "accountId"@, "postId"@, "commentId"@, "resourceId"@, "entityId"@, "recordId"@,
        "pet_id"@, "user_id"@, "order_id"@, "item_id"@, "product_id"@,
    ]
}

fn id_param_pattern(i: usize) -> (r: &'static str)
    requires
        i < 19,
    ensures
        r@ == id_param_patterns()[i as int],
{
    if i == 0 { "id" } else if i == 1 { "Id" } else if i == 2 { "ID" } else if i == 3 { "petId" }
    else if i == 4 { "userId" } else if i == 5 { "orderId" } else if i == 6 { "itemId" }
    else if i == 7 { "productId" } else if i == 8 { "accountId" } else if i == 9 { "postId" }
    else if i == 10 { "commentId" } else if i == 11 { "resourceId" } else if i == 12 { "entityId" }
    else if i == 13 { "recordId" } else if i == 14 { "pet_id" } else if i == 15 { "user_id" }
    else if i == 16 { "order_id" } else if i == 17 { "item_id" } else { "product_id" }
}

/// A parameter name that holds an id: in lower case it is `id`, ends in `id` or `_id`,
/// or is one of the known id names in lower case.
pub open spec fn is_id_name(name: Seq<char>) -> bool {
    let lower = lowercase(name);
    ||| lower == "id"@
    ||| ends_with(lower, "id"@)
    ||| ends_with(lower, "_id"@)
    ||| exists|k: int| 0 <= k < id_param_patterns().len() && lowercase(#[trigger] id_param_patterns()[k]) == lower
}

/// Whether a parameter name holds an id.
pub fn is_id_param(name: &str) -> (r: bool)
    ensures
        r == is_id_name(name@),
{
    let lower = to_lowercase(&chars_of(name));
    let id = chars_of("id");
    if chars_eq(&lower, &id) || has_suffix(&lower, &id) || has_suffix(&lower, &chars_of("_id")) {
        return true;
    }
    let mut k: usize = 0;
    while k < 19
        invariant
            k <= 19,
            lower@ == lowercase(name@),
            forall|j: int| 0 <= j < k ==> lowercase(#[trigger] id_param_patterns()[j]) != lower@,
        decreases 19 - k,
    {
        let p = to_lowercase(&chars_of(id_param_pattern(k)));
        if chars_eq(&p, &lower) {
            return true;
        }
        k += 1;
    }
    false
}

// ---------------------------------------------------------------------------
// Parameter values
// ---------------------------------------------------------------------------

/// A parameter's value: its example read out as text, else a default for its type.
pub open spec fn param_default(p: Parameter) -> Seq<char> {
    match p.example {
        Some(ex) => value_text(ex.model()),
        None => match p.schema_type {
            SchemaType::String => "test"@,
            SchemaType::Integer => "1"@,
            SchemaType::Number => "1.0"@,
            SchemaType::Boolean => "true"@,
            _ => Seq::empty(),
        },
    }
}

/// The value a parameter gets in a built request.
pub fn param_example_or_default(param: &Parameter) -> (r: String)
    ensures
        r@ == param_default(*param),
{
    match &param.example {
        Some(ex) => value_to_text(ex),
        None => match &param.schema_type {
            SchemaType::String => "test".to_owned(),
            SchemaType::Integer => "1".to_owned(),
            SchemaType::Number => "1.0".to_owned(),
            SchemaType::Boolean => "true".to_owned(),
            _ => {
                let r = String::new();
                assert(r@ =~= Seq::<char>::empty());
                r
            },
        },
    }
}

/// The names of the path parameters that hold ids, in order.
pub open spec fn path_id_names(ps: Seq<Parameter>) -> Seq<Seq<char>>
    decreases ps.len(),
{
    if ps.len() == 0 {
        Seq::empty()
    } else {
        let rest = path_id_names(ps.drop_last());
        let p = ps.last();
        if p.location == ParameterLocation::Path && is_id_name(p.name@) {
            rest.push(p.name@)
        } else {
            rest
        }
    }
}

/// The names of the endpoint's path parameters that hold ids.
pub fn get_path_id_params(endpoint: &Endpoint) -> (r: Vec<String>)
    ensures
        views_of(r@) == path_id_names(endpoint.parameters@),
{
    let ghost ps = endpoint.parameters@;
    let mut out: Vec<String> = Vec::new();
    let mut i: usize = 0;
    while i < endpoint.parameters.len()
        invariant
            i <= endpoint.parameters.len(),
            ps == endpoint.parameters@,
            views_of(out@) == path_id_names(ps.take(i as int)),
        decreases endpoint.parameters.len() - i,
    {
        let p = &endpoint.parameters[i];
        assert(ps.take(i + 1).drop_last() =~= ps.take(i as int));
        assert(ps.take(i + 1).last() == *p);
        if p.location == ParameterLocation::Path && is_id_param(p.name.as_str()) {
            let ghost before = views_of(out@);
            out.push(p.name.clone());
            assert(views_of(out@) =~= before.push(p.name@));
        }
        i += 1;
    }
    assert(ps.take(endpoint.parameters.len() as int) =~= ps);
    out
}

pub open spec fn views_of(v: Seq<String>) -> Seq<Seq<char>> {
    v.map_values(|s: String| s@)
}

/// Whether the endpoint has a path parameter that holds an id.
pub fn has_path_id_param(endpoint: &Endpoint) -> (r: bool)
    ensures
        r == (path_id_names(endpoint.parameters@).len() > 0),
{
    get_path_id_params(endpoint).len() > 0
}

// ---------------------------------------------------------------------------
// Resources
// ---------------------------------------------------------------------------

/// The pieces of a path between slashes, empty ones dropped.
pub open spec fn nonempty_pieces(ps: Seq<Seq<char>>) -> Seq<Seq<char>>
    decreases ps.len(),
{
    if ps.len() == 0 {
        Seq::empty()
    } else {
        let rest = nonempty_pieces(ps.drop_last());
        if ps.last().len() > 0 {
            rest.push(ps.last())
        } else {
            rest
        }
    }
}

/// Number of leading pieces that are not `{...}` templates.
pub open spec fn static_count(ps: Seq<Seq<char>>) -> nat
    decreases ps.len(),
{
    if ps.len() == 0 || starts_with(ps[0], "{"@) {
        0
    } else {
        1 + static_count(ps.drop_first())
    }
}

/// The pieces joined with `/` between them.
pub open spec fn join_slash(ps: Seq<Seq<char>>) -> Seq<char>
    decreases ps.len(),
{
    if ps.len() == 0 {
        Seq::empty()
    } else if ps.len() == 1 {
        ps[0]
    } else {
        join_slash(ps.drop_last()) + seq!['/'] + ps.last()
    }
}

/// The resource a path belongs to: `/` and its leading pieces up to the first template;
/// `/` alone for a path of no pieces.
pub open spec fn resource_prefix(path: Seq<char>) -> Seq<char> {
    let pieces = nonempty_pieces(split_on(path, '/'));
    if pieces.len() == 0 {
        "/"@
    } else {
        seq!['/'] + join_slash(pieces.take(static_count(pieces) as int))
    }
}

proof fn lemma_static_count(ps: Seq<Seq<char>>, n: int)
    requires
        0 <= n <= ps.len(),
        forall|j: int| 0 <= j < n ==> !starts_with(#[trigger] ps[j], "{"@),
        n == ps.len() || starts_with(ps[n], "{"@),
    ensures
        static_count(ps) == n,
    decreases n,
{
    if n > 0 {
        assert(!starts_with(ps[0], "{"@));
        assert forall|j: int| 0 <= j < n - 1 implies !starts_with(#[trigger] ps.drop_first()[j], "{"@) by {
            assert(ps.drop_first()[j] == ps[j + 1]);
        }
        if n < ps.len() {
            assert(ps.drop_first()[n - 1] == ps[n]);
        }
        lemma_static_count(ps.drop_first(), n - 1);
    }
}

// ---------------------------------------------------------------------------
// Requests
// ---------------------------------------------------------------------------

/// The value a path parameter gets: the id placeholder for an id when placeholders are asked for.
pub open spec fn path_value(p: Parameter, use_ph: bool) -> Seq<char> {
    if use_ph && is_id_name(p.name@) {
        id_placeholder()
    } else {
        param_default(p)
    }
}

/// The `{name}` template of a parameter.
pub open spec fn template(name: Seq<char>) -> Seq<char> {
    seq!['{'] + name + seq!['}']
}

/// The path after filling in the path parameters one after the other.
pub open spec fn built_path(path: Seq<char>, ps: Seq<Parameter>, use_ph: bool) -> Seq<char>
    decreases ps.len(),
{
    if ps.len() == 0 {
        path
    } else {
        let prev = built_path(path, ps.drop_last(), use_ph);
        let p = ps.last();
        if p.location == ParameterLocation::Path {
            replace_all(prev, template(p.name@), path_value(p, use_ph))
        } else {
            prev
        }
    }
}

/// The query parameters of a built request: the required ones.
pub open spec fn built_query(ps: Seq<Parameter>) -> Entries
    decreases ps.len(),
{
    if ps.len() == 0 {
        Seq::empty()
    } else {
        let prev = built_query(ps.drop_last());
        let p = ps.last();
        if p.location == ParameterLocation::Query && p.required {
            insert_entry(prev, p.name@, param_default(p))
        } else {
            prev
        }
    }
}

/// The JSON content type header every built request starts with.
pub open spec fn json_content_type() -> Entries {
    seq![("Content-Type"@, "application/json"@)]
}

/// The headers of a built request: the content type, then the header parameters.
pub open spec fn built_headers(ps: Seq<Parameter>) -> Entries
    decreases ps.len(),
{
    if ps.len() == 0 {
        json_content_type()
    } else {
        let prev = built_headers(ps.drop_last());
        let p = ps.last();
        if p.location == ParameterLocation::Header {
            insert_entry(prev, p.name@, param_default(p))
        } else {
            prev
        }
    }
}

/// The value a body property gets in a built request.
pub open spec fn body_member_value(key: Seq<char>, prop: PropertySchema) -> Json {
    match prop.schema_type {
        SchemaType::String => match prop.example {
            Some(ex) => match ex.model() {
                Json::Str(s) => Json::Str(s),
                _ => Json::Str("test"@),
            },
            None => Json::Str("fuzz_"@ + key),
        },
        SchemaType::Integer => match prop.example {
            Some(ex) => ex.model(),
            None => Json::Number("1"@),
        },
        SchemaType::Number => match prop.example {
            Some(ex) => ex.model(),
            None => Json::Number("1.0"@),
        },
        SchemaType::Boolean => match prop.example {
            Some(ex) => ex.model(),
            None => Json::Bool(true),
        },
        _ => Json::Null,
    }
}

/// The members of a built body, one per property, in order.
pub open spec fn body_members(schema: Seq<(String, PropertySchema)>) -> Seq<(Seq<char>, Json)> {
    Seq::new(schema.len(), |i: int| (schema[i].0@, body_member_value(schema[i].0@, schema[i].1)))
}

/// The body of a built request: the JSON text of an object with one member per property.
pub open spec fn built_body(schema: Option<Vec<(String, PropertySchema)>>) -> Option<Seq<char>> {
    match schema {
        Some(v) => Some(json_text(Json::Object(body_members(v@)))),
        None => None,
    }
}

/// The request built for an endpoint.
pub open spec fn built_request(base: Seq<char>, ep: Endpoint, use_ph: bool) -> RequestModel {
    RequestModel {
        url: base + built_path(ep.path@, ep.parameters@, use_ph),
        method: method_name(ep.method),
        headers: built_headers(ep.parameters@),
        query_params: built_query(ep.parameters@),
        body: built_body(ep.request_body),
    }
}

fn body_value(key: &String, prop: &PropertySchema) -> (r: JsonValue)
    ensures
        r.model() == body_member_value(key@, *prop),
{
    match &prop.schema_type {
        SchemaType::String => match &prop.example {
            Some(ex) => match ex {
                JsonValue::Str(s) => JsonValue::Str(s.clone()),
                _ => JsonValue::Str("test".to_owned()),
            },
            None => {
                let mut t = chars_of("fuzz_");
                append_chars(&mut t, &chars_of(key.as_str()));
                JsonValue::Str(string_of(&t))
            },
        },
        SchemaType::Integer => match &prop.example {
            Some(ex) => ex.deep_copy(),
            None => JsonValue::Number("1".to_owned()),
        },
        SchemaType::Number => match &prop.example {
            Some(ex) => ex.deep_copy(),
            None => JsonValue::Number("1.0".to_owned()),
        },
        SchemaType::Boolean => match &prop.example {
            Some(ex) => ex.deep_copy(),
            None => JsonValue::Bool(true),
        },
        _ => JsonValue::Null,
    }
}

fn body_text(schema: &Vec<(String, PropertySchema)>) -> (r: String)
    ensures
        r@ == json_text(Json::Object(body_members(schema@))),
{
    let mut members: Vec<(String, JsonValue)> = Vec::new();
    let mut i: usize = 0;
    while i < schema.len()
        invariant
            i <= schema.len(),
            members_model(members@) == body_members(schema@).take(i as int),
        decreases schema.len() - i,
    {
        let v = body_value(&schema[i].0, &schema[i].1);
        let ghost before = members_model(members@);
        let k = schema[i].0.clone();
        let ghost item = (k@, v.model());
        members.push((k, v));
        assert(members_model(members@) =~= before.push(item));
        assert(body_members(schema@).take(i + 1) =~= body_members(schema@).take(i as int).push(item));
        i += 1;
    }
    assert(body_members(schema@).take(schema.len() as int) =~= body_members(schema@));
    let obj = JsonValue::Object(members);
    proof {
        lemma_object_model(members);
    }
    to_json_text(&obj)
}

// ---------------------------------------------------------------------------
// Extractions
// ---------------------------------------------------------------------------

/// Response paths an id is looked for at.
pub open spec fn id_response_paths() -> Seq<Seq<char>> {
    seq!["$.id"@, "$.Id"@, "$.ID"@, "$.data.id"@, "$.result.id"@, "$.response.id"@]
}

/// Response paths a token is looked for at.
pub open spec fn token_response_paths() -> Seq<Seq<char>> {
    seq!["$.token"@, "$.access_token"@, "$.accessToken"@, "$.data.token"@, "$.jwt"@, "$.session_id"@, "$.sessionId"@]
}

fn id_response_path(k: usize) -> (r: &'static str)
    requires
        k < 6,
    ensures
        r@ == id_response_paths()[k as int],
{
    if k == 0 { "$.id" } else if k == 1 { "$.Id" } else if k == 2 { "$.ID" }
    else if k == 3 { "$.data.id" } else if k == 4 { "$.result.id" } else { "$.response.id" }
}

fn token_response_path(k: usize) -> (r: &'static str)
    requires
        k < 7,
    ensures
        r@ == token_response_paths()[k as int],
{
    if k == 0 { "$.token" } else if k == 1 { "$.access_token" } else if k == 2 { "$.accessToken" }
    else if k == 3 { "$.data.token" } else if k == 4 { "$.jwt" } else if k == 5 { "$.session_id" }
    else { "$.sessionId" }
}

/// For one id parameter: read each id path of the first response into it.
pub open spec fn id_paths_for(name: Seq<char>, target: nat) -> Seq<ExtractionModel> {
    Seq::new(
        6,
        |k: int| ExtractionModel { source: 0, path: id_response_paths()[k], target_idx: target, target: TargetModel::PathParam(name) },
    )
}

/// For each id parameter in turn, the id paths of the first response read into it.
pub open spec fn id_extractions(names: Seq<Seq<char>>, target: nat) -> Seq<ExtractionModel>
    decreases names.len(),
{
    if names.len() == 0 {
        Seq::empty()
    } else {
        id_extractions(names.drop_last(), target) + id_paths_for(names.last(), target)
    }
}

/// Each token path of the first response read into the `Authorization` header of the second.
pub open spec fn token_extractions() -> Seq<ExtractionModel> {
    Seq::new(
        7,
        |k: int| ExtractionModel {
            source: 0,
            path: token_response_paths()[k],
            target_idx: 1,
            target: TargetModel::Header("Authorization"@),
        },
    )
}

proof fn lemma_id_extractions(names: Seq<Seq<char>>, target: nat)
    ensures
        forall|i: int| 0 <= i < id_extractions(names, target).len() ==> (#[trigger] id_extractions(names, target)[i]).source == 0
            && id_extractions(names, target)[i].target_idx == target,
    decreases names.len(),
{
    if names.len() > 0 {
        lemma_id_extractions(names.drop_last(), target);
    }
}

fn push_id_extractions(out: &mut Vec<StateExtraction>, names: &Vec<String>, target: usize)
    ensures
        exts_view(final(out)@) == exts_view(old(out)@) + id_extractions(views_of(names@), target as nat),
{
    let ghost start = exts_view(out@);
    let ghost ns = views_of(names@);
    let mut i: usize = 0;
    while i < names.len()
        invariant
            i <= names.len(),
            ns == views_of(names@),
            exts_view(out@) == start + id_extractions(ns.take(i as int), target as nat),
        decreases names.len() - i,
    {
        assert(ns.take(i + 1).drop_last() =~= ns.take(i as int));
        assert(ns.take(i + 1).last() == names@[i as int]@);
        let ghost mid = exts_view(out@);
        let mut k: usize = 0;
        while k < 6
            invariant
                k <= 6,
                i < names.len(),
                exts_view(out@) == mid + id_paths_for(names@[i as int]@, target as nat).take(k as int),
            decreases 6 - k,
        {
            let ghost before = exts_view(out@);
            let e = StateExtraction {
                source_request_idx: 0,
                json_path: id_response_path(k).to_owned(),
                target_request_idx: target,
                target: InjectionTarget::PathParam(names[i].clone()),
            };
            out.push(e);
            assert(exts_view(out@) =~= before.push(e@));
            assert(id_paths_for(names@[i as int]@, target as nat).take(k + 1) =~= id_paths_for(
                names@[i as int]@,
                target as nat,
            ).take(k as int).push(e@));
            k += 1;
        }
        assert(id_paths_for(names@[i as int]@, target as nat).take(6) =~= id_paths_for(names@[i as int]@, target as nat));
        i += 1;
        assert(exts_view(out@) =~= start + id_extractions(ns.take(i as int), target as nat));
    }
    assert(ns.take(names.len() as int) =~= ns);
}

fn token_extraction_list() -> (r: Vec<StateExtraction>)
    ensures
        exts_view(r@) == token_extractions(),
{
    let mut out: Vec<StateExtraction> = Vec::new();
    let mut k: usize = 0;
    while k < 7
        invariant
            k <= 7,
            exts_view(out@) == token_extractions().take(k as int),
        decreases 7 - k,
    {
        let ghost before = exts_view(out@);
        let e = StateExtraction {
            source_request_idx: 0,
            json_path: token_response_path(k).to_owned(),
            target_request_idx: 1,
            target: InjectionTarget::Header("Authorization".to_owned()),
        };
        out.push(e);
        assert(exts_view(out@) =~= before.push(e@));
        assert(token_extractions().take(k + 1) =~= token_extractions().take(k as int).push(e@));
        k += 1;
    }
    assert(token_extractions().take(7) =~= token_extractions());
    out
}

// ---------------------------------------------------------------------------
// Sequences
// ---------------------------------------------------------------------------

/// The model of a sequence: its requests and its extractions.
pub open spec fn seq_model(s: FuzzRequestSequence) -> (Seq<RequestModel>, Seq<ExtractionModel>) {
    (reqs_view(s.requests@), exts_view(s.state_extractions@))
}

pub open spec fn seqs_model(v: Seq<FuzzRequestSequence>) -> Seq<(Seq<RequestModel>, Seq<ExtractionModel>)> {
    v.map_values(|s: FuzzRequestSequence| seq_model(s))
}

/// Every extraction reads an earlier request of the sequence and writes a later one.
pub open spec fn flows_forward(m: (Seq<RequestModel>, Seq<ExtractionModel>)) -> bool {
    forall|i: int| 0 <= i < m.1.len() ==> (#[trigger] m.1[i]).source < m.1[i].target_idx && m.1[i].target_idx < m.0.len()
}

/// Every sequence lets values flow forward only, and its requests are well formed.
pub open spec fn all_forward(v: Seq<FuzzRequestSequence>) -> bool {
    forall|k: int| 0 <= k < v.len() ==> flows_forward(#[trigger] seq_model(v[k])) && v[k].wf()
}

/// A producer request, then a consumer request whose id parameters take the producer's id;
/// nothing when the consumer has no id parameter.
pub open spec fn pc_model(base: Seq<char>, producer: Endpoint, consumer: Endpoint) -> Option<(Seq<RequestModel>, Seq<ExtractionModel>)> {
    let names = path_id_names(consumer.parameters@);
    if names.len() == 0 {
        None
    } else {
        Some((seq![built_request(base, producer, false), built_request(base, consumer, true)], id_extractions(names, 1)))
    }
}

/// Create, read, optionally update, then delete, the later requests taking the created id.
pub open spec fn crud_model(base: Seq<char>, c: Endpoint, r: Endpoint, u: Option<Endpoint>, d: Endpoint) -> (Seq<RequestModel>, Seq<ExtractionModel>) {
    let reqs = seq![built_request(base, c, false), built_request(base, r, true)] + match u {
        Some(u) => seq![built_request(base, u, true)],
        None => Seq::empty(),
    } + seq![built_request(base, d, true)];
    let exts = id_extractions(path_id_names(r.parameters@), 1) + match u {
        Some(u) => id_extractions(path_id_names(u.parameters@), 2),
        None => Seq::empty(),
    } + id_extractions(path_id_names(d.parameters@), if u is Some { 3 } else { 2 });
    (reqs, exts)
}

// ---------------------------------------------------------------------------
// Choosing endpoints
// ---------------------------------------------------------------------------

/// The kinds of endpoints the sequences are built from.
pub enum Pick {
    Creator,
    Reader,
    Updater,
    Deleter,
    NotPost,
    Auth,
}

/// A path that looks like it logs in or hands out tokens.
pub open spec fn is_auth_path(path: Seq<char>) -> bool {
    let lower = lowercase(path);
    contains(lower, "login"@) || contains(lower, "auth"@) || contains(lower, "token"@) || contains(lower, "session"@)
}

pub open spec fn picks(ep: Endpoint, k: Pick) -> bool {
    let has_id = path_id_names(ep.parameters@).len() > 0;
    match k {
        Pick::Creator => ep.method == HttpMethod::Post,
        Pick::Reader => ep.method == HttpMethod::Get && has_id,
        Pick::Updater => (ep.method == HttpMethod::Put || ep.method == HttpMethod::Patch) && has_id,
        Pick::Deleter => ep.method == HttpMethod::Delete && has_id,
        Pick::NotPost => ep.method != HttpMethod::Post,
        Pick::Auth => ep.method == HttpMethod::Post && is_auth_path(ep.path@),
    }
}

fn pick_matches(ep: &Endpoint, k: &Pick) -> (r: bool)
    ensures
        r == picks(*ep, *k),
{
    match k {
        Pick::Creator => ep.method == HttpMethod::Post,
        Pick::Reader => ep.method == HttpMethod::Get && has_path_id_param(ep),
        Pick::Updater => (ep.method == HttpMethod::Put || ep.method == HttpMethod::Patch) && has_path_id_param(ep),
        Pick::Deleter => ep.method == HttpMethod::Delete && has_path_id_param(ep),
        Pick::NotPost => ep.method != HttpMethod::Post,
        Pick::Auth => {
            if ep.method != HttpMethod::Post {
                return false;
            }
            let lower = to_lowercase(&chars_of(ep.path.as_str()));
            contains_chars(&lower, &chars_of("login")) || contains_chars(&lower, &chars_of("auth"))
                || contains_chars(&lower, &chars_of("token")) || contains_chars(&lower, &chars_of("session"))
        },
    }
}

/// The members of `g` (indices into `eps`) whose endpoints are of kind `k`, in order.
pub open spec fn select(eps: Seq<Endpoint>, g: Seq<usize>, k: Pick) -> Seq<usize>
    decreases g.len(),
{
    if g.len() == 0 {
        Seq::empty()
    } else {
        let prev = select(eps, g.drop_last(), k);
        if picks(eps[g.last() as int], k) {
            prev.push(g.last())
        } else {
            prev
        }
    }
}

/// All indices of a list of `n`.
pub open spec fn all_indices(n: nat) -> Seq<usize> {
    Seq::new(n, |i: int| i as usize)
}

pub open spec fn indices_below(g: Seq<usize>, n: nat) -> bool {
    forall|i: int| 0 <= i < g.len() ==> #[trigger] g[i] < n
}

fn indices(n: usize) -> (r: Vec<usize>)
    ensures
        r@ == all_indices(n as nat),
        indices_below(r@, n as nat),
{
    let mut v: Vec<usize> = Vec::new();
    let mut i: usize = 0;
    while i < n
        invariant
            i <= n,
            v@ == all_indices(i as nat),
        decreases n - i,
    {
        v.push(i);
        i += 1;
        assert(v@ =~= all_indices(i as nat));
    }
    v
}

fn select_exec(eps: &Vec<Endpoint>, g: &Vec<usize>, k: &Pick) -> (r: Vec<usize>)
    requires
        indices_below(g@, eps@.len()),
    ensures
        r@ == select(eps@, g@, *k),
        indices_below(r@, eps@.len()),
{
    let mut out: Vec<usize> = Vec::new();
    let mut i: usize = 0;
    while i < g.len()
        invariant
            i <= g.len(),
            indices_below(g@, eps@.len()),
            out@ == select(eps@, g@.take(i as int), *k),
            indices_below(out@, eps@.len()),
        decreases g.len() - i,
    {
        assert(g@.take(i + 1).drop_last() =~= g@.take(i as int));
        assert(g@.take(i + 1).last() == g@[i as int]);
        let j = g[i];
        assert(j < eps@.len());
        if pick_matches(&eps[j], k) {
            out.push(j);
        }
        i += 1;
    }
    assert(g@.take(g.len() as int) =~= g@);
    out
}

/// At most the first three.
pub open spec fn first3(s: Seq<usize>) -> Seq<usize> {
    if s.len() <= 3 {
        s
    } else {
        s.take(3)
    }
}

// ---------------------------------------------------------------------------
// Whole-list models
// ---------------------------------------------------------------------------

/// The producer-consumer sequences of creator `c` with each of `ts`, where there is one.
pub open spec fn pcs(base: Seq<char>, eps: Seq<Endpoint>, c: usize, ts: Seq<usize>) -> Seq<(Seq<RequestModel>, Seq<ExtractionModel>)>
    decreases ts.len(),
{
    if ts.len() == 0 {
        Seq::empty()
    } else {
        let prev = pcs(base, eps, c, ts.drop_last());
        match pc_model(base, eps[c as int], eps[ts.last() as int]) {
            Some(m) => prev.push(m),
            None => prev,
        }
    }
}

/// The sequences of one creator: with each reader, updater and deleter, then a full cycle
/// with the first of each when there is a reader and a deleter.
pub open spec fn creator_model(
    base: Seq<char>,
    eps: Seq<Endpoint>,
    c: usize,
    rs: Seq<usize>,
    us: Seq<usize>,
    ds: Seq<usize>,
) -> Seq<(Seq<RequestModel>, Seq<ExtractionModel>)> {
    pcs(base, eps, c, rs) + pcs(base, eps, c, us) + pcs(base, eps, c, ds) + if rs.len() > 0 && ds.len() > 0 {
        seq![crud_model(base, eps[c as int], eps[rs[0] as int], if us.len() > 0 { Some(eps[us[0] as int]) } else { None }, eps[ds[0] as int])]
    } else {
        Seq::empty()
    }
}

/// The sequences of the creators `cs`, one after the other.
pub open spec fn creators_model(
    base: Seq<char>,
    eps: Seq<Endpoint>,
    cs: Seq<usize>,
    rs: Seq<usize>,
    us: Seq<usize>,
    ds: Seq<usize>,
) -> Seq<(Seq<RequestModel>, Seq<ExtractionModel>)>
    decreases cs.len(),
{
    if cs.len() == 0 {
        Seq::empty()
    } else {
        creators_model(base, eps, cs.drop_last(), rs, us, ds) + creator_model(base, eps, cs.last(), rs, us, ds)
    }
}

/// The CRUD sequences of one resource group.
pub open spec fn group_model(base: Seq<char>, eps: Seq<Endpoint>, g: Seq<usize>) -> Seq<(Seq<RequestModel>, Seq<ExtractionModel>)> {
    creators_model(
        base,
        eps,
        select(eps, g, Pick::Creator),
        select(eps, g, Pick::Reader),
        select(eps, g, Pick::Updater),
        select(eps, g, Pick::Deleter),
    )
}

/// The groups after adding endpoint `i` under `key`: to the first group of that key, or
/// as a new last group.
pub open spec fn add_to_group(gs: Seq<(Seq<char>, Seq<usize>)>, key: Seq<char>, i: usize) -> Seq<(Seq<char>, Seq<usize>)> {
    match group_index(gs, key) {
        Some(j) => gs.update(j, (key, gs[j].1.push(i))),
        None => gs.push((key, seq![i])),
    }
}

/// Index of the first group with the given key.
pub open spec fn group_index(gs: Seq<(Seq<char>, Seq<usize>)>, key: Seq<char>) -> Option<int> {
    if exists|j: int| 0 <= j < gs.len() && gs[j].0 == key {
        Some(choose|j: int| 0 <= j < gs.len() && gs[j].0 == key && forall|m: int| 0 <= m < j ==> gs[m].0 != key)
    } else {
        None
    }
}

/// Endpoints grouped by resource prefix, groups in order of first appearance.
pub open spec fn grouped(keys: Seq<Seq<char>>) -> Seq<(Seq<char>, Seq<usize>)>
    decreases keys.len(),
{
    if keys.len() == 0 {
        Seq::empty()
    } else {
        add_to_group(grouped(keys.drop_last()), keys.last(), (keys.len() - 1) as usize)
    }
}

/// The resource prefix of each endpoint.
pub open spec fn prefixes(eps: Seq<Endpoint>) -> Seq<Seq<char>> {
    Seq::new(eps.len(), |i: int| resource_prefix(eps[i].path@))
}

/// The CRUD sequences of the groups, one group after the other.
pub open spec fn groups_model(base: Seq<char>, eps: Seq<Endpoint>, gs: Seq<(Seq<char>, Seq<usize>)>) -> Seq<(Seq<RequestModel>, Seq<ExtractionModel>)>
    decreases gs.len(),
{
    if gs.len() == 0 {
        Seq::empty()
    } else {
        groups_model(base, eps, gs.drop_last()) + group_model(base, eps, gs.last().1)
    }
}

/// Whether some endpoint of `a` has the given path.
pub open spec fn path_among(eps: Seq<Endpoint>, a: Seq<usize>, path: Seq<char>) -> bool {
    exists|k: int| 0 <= k < a.len() && eps[a[k] as int].path@ == path
}

/// The endpoints of `g` whose path no endpoint of `a` has.
pub open spec fn outside_paths(eps: Seq<Endpoint>, g: Seq<usize>, a: Seq<usize>) -> Seq<usize>
    decreases g.len(),
{
    if g.len() == 0 {
        Seq::empty()
    } else {
        let prev = outside_paths(eps, g.drop_last(), a);
        if !path_among(eps, a, eps[g.last() as int].path@) {
            prev.push(g.last())
        } else {
            prev
        }
    }
}

/// A login request, then another request carrying the token it returned.
pub open spec fn auth_pair(base: Seq<char>, a: Endpoint, p: Endpoint) -> (Seq<RequestModel>, Seq<ExtractionModel>) {
    (seq![built_request(base, a, false), built_request(base, p, false)], token_extractions())
}

pub open spec fn auth_rows(base: Seq<char>, eps: Seq<Endpoint>, a: Seq<usize>, ps: Seq<usize>) -> Seq<(Seq<RequestModel>, Seq<ExtractionModel>)>
    decreases a.len(),
{
    if a.len() == 0 {
        Seq::empty()
    } else {
        auth_rows(base, eps, a.drop_last(), ps) + Seq::new(ps.len(), |j: int| auth_pair(base, eps[a.last() as int], eps[ps[j] as int]))
    }
}

/// Each login endpoint paired with each of the first three endpoints on other paths.
pub open spec fn auth_model(base: Seq<char>, eps: Seq<Endpoint>) -> Seq<(Seq<RequestModel>, Seq<ExtractionModel>)> {
    let a = select(eps, all_indices(eps.len()), Pick::Auth);
    if a.len() == 0 {
        Seq::empty()
    } else {
        auth_rows(base, eps, a, first3(outside_paths(eps, all_indices(eps.len()), a)))
    }
}

/// A POST request, then another request whose id parameters take the POST's id.
pub open spec fn fallback_pair(base: Seq<char>, post: Endpoint, other: Endpoint) -> (Seq<RequestModel>, Seq<ExtractionModel>) {
    (seq![built_request(base, post, false), built_request(base, other, true)], id_extractions(path_id_names(other.parameters@), 1))
}

pub open spec fn fallback_rows(base: Seq<char>, eps: Seq<Endpoint>, posts: Seq<usize>, others: Seq<usize>) -> Seq<(Seq<RequestModel>, Seq<ExtractionModel>)>
    decreases posts.len(),
{
    if posts.len() == 0 {
        Seq::empty()
    } else {
        fallback_rows(base, eps, posts.drop_last(), others) + Seq::new(
            others.len(),
            |j: int| fallback_pair(base, eps[posts.last() as int], eps[others[j] as int]),
        )
    }
}

/// Each POST endpoint paired with each of the first three other endpoints; failing that,
/// each endpoint followed by the next one.
pub open spec fn fallback_model(base: Seq<char>, eps: Seq<Endpoint>) -> Seq<(Seq<RequestModel>, Seq<ExtractionModel>)> {
    let all = all_indices(eps.len());
    let rows = fallback_rows(base, eps, select(eps, all, Pick::Creator), first3(select(eps, all, Pick::NotPost)));
    if rows.len() == 0 && eps.len() >= 2 {
        Seq::new(
            (eps.len() - 1) as nat,
            |i: int| (seq![built_request(base, eps[i], false), built_request(base, eps[i + 1], false)], Seq::<ExtractionModel>::empty()),
        )
    } else {
        rows
    }
}

/// All sequences: the CRUD sequences of every resource group and the login pairs; the
/// fallback sequences when there are none.
pub open spec fn sequences_model(base: Seq<char>, eps: Seq<Endpoint>) -> Seq<(Seq<RequestModel>, Seq<ExtractionModel>)> {
    let s = groups_model(base, eps, grouped(prefixes(eps))) + auth_model(base, eps);
    if s.len() == 0 {
        fallback_model(base, eps)
    } else {
        s
    }
}

pub open spec fn groups_view(v: Seq<(String, Vec<usize>)>) -> Seq<(Seq<char>, Seq<usize>)> {
    v.map_values(|g: (String, Vec<usize>)| (g.0@, g.1@))
}

proof fn lemma_group_index(gs: Seq<(Seq<char>, Seq<usize>)>, key: Seq<char>, j: int)
    requires
        0 <= j < gs.len(),
        gs[j].0 == key,
        forall|m: int| 0 <= m < j ==> gs[m].0 != key,
    ensures
        group_index(gs, key) == Some(j),
{
    let k = choose|k: int| 0 <= k < gs.len() && gs[k].0 == key && forall|m: int| 0 <= m < k ==> gs[m].0 != key;
    if k < j {
        assert(gs[k].0 != key);
    }
    if j < k {
        assert(gs[j].0 != key);
    }
}

fn append_sequences(out: &mut Vec<FuzzRequestSequence>, more: Vec<FuzzRequestSequence>)
    requires
        all_forward(old(out)@),
        all_forward(more@),
    ensures
        seqs_model(final(out)@) == seqs_model(old(out)@) + seqs_model(more@),
        all_forward(final(out)@),
{
    let mut more = more;
    let ghost a = out@;
    let ghost b = more@;
    out.append(&mut more);
    assert(out@ =~= a + b);
    assert(seqs_model(out@) =~= seqs_model(a) + seqs_model(b));
    assert forall|k: int| 0 <= k < out@.len() implies flows_forward(#[trigger] seq_model(out@[k])) && out@[k].wf() by {
        if k < a.len() {
            assert(out@[k] == a[k]);
        } else {
            assert(out@[k] == b[k - a.len()]);
        }
    }
}

fn push_sequence(out: &mut Vec<FuzzRequestSequence>, s: FuzzRequestSequence)
    requires
        all_forward(old(out)@),
        flows_forward(seq_model(s)),
        s.wf(),
    ensures
        seqs_model(final(out)@) == seqs_model(old(out)@).push(seq_model(s)),
        all_forward(final(out)@),
{
    let ghost a = out@;
    out.push(s);
    assert(seqs_model(out@) =~= seqs_model(a).push(seq_model(s)));
    assert forall|k: int| 0 <= k < out@.len() implies flows_forward(#[trigger] seq_model(out@[k])) && out@[k].wf() by {
        if k < a.len() {
            assert(out@[k] == a[k]);
        }
    }
}

fn two_requests(a: FuzzHttpRequest, b: FuzzHttpRequest) -> (r: Vec<FuzzHttpRequest>)
    ensures
        r@ == seq![a, b],
{
    let mut v: Vec<FuzzHttpRequest> = Vec::new();
    v.push(a);
    v.push(b);
    assert(v@ =~= seq![a, b]);
    v
}

fn first_three(v: &Vec<usize>) -> (r: Vec<usize>)
    ensures
        r@ == first3(v@),
{
    let mut out: Vec<usize> = Vec::new();
    let mut i: usize = 0;
    while i < v.len() && i < 3
        invariant
            i <= v.len(),
            i <= 3,
            out@ == v@.take(i as int),
        decreases v.len() - i,
    {
        out.push(v[i]);
        i += 1;
        assert(out@ =~= v@.take(i as int));
    }
    if v.len() <= 3 {
        assert(v@.take(v.len() as int) =~= v@);
    }
    out
}

/// Request sequences for the endpoints of an API, against one base URL.
pub struct SequenceCorpusGenerator {
    base_url: String,
}

impl SequenceCorpusGenerator {
    /// The base URL the requests go to, without trailing slashes.
    pub closed spec fn base_url_spec(&self) -> Seq<char> {
        self.base_url@
    }

    /// A generator for the given base URL, trailing slashes removed.
    pub fn new(base_url: &str) -> (r: Self)
        ensures
            r.base_url_spec() == trim_end_char(base_url@, '/'),
    {
        SequenceCorpusGenerator { base_url: string_of(&trim_end_matches(&chars_of(base_url), '/')) }
    }

    /// The resource a path belongs to, such as `/users` for `/users/{id}/posts`.
    pub fn extract_resource_prefix(&self, path: &str) -> (r: String)
        ensures
            r@ == resource_prefix(path@),
    {
        let parts = split_chars(&chars_of(path), '/');
        let ghost all = views(parts@);
        let mut pieces: Vec<Vec<char>> = Vec::new();
        let mut i: usize = 0;
        while i < parts.len()
            invariant
                i <= parts.len(),
                all == views(parts@),
                views(pieces@) == nonempty_pieces(all.take(i as int)),
            decreases parts.len() - i,
        {
            assert(all.take(i + 1).drop_last() =~= all.take(i as int));
            assert(all.take(i + 1).last() == parts@[i as int]@);
            if parts[i].len() > 0 {
                let ghost before = views(pieces@);
                let c = parts[i].clone();
                pieces.push(c);
                assert(views(pieces@) =~= before.push(parts@[i as int]@));
            }
            i += 1;
        }
        assert(all.take(parts.len() as int) =~= all);
        let ghost ps = views(pieces@);
        if pieces.len() == 0 {
            return "/".to_owned();
        }
        let brace = chars_of("{");
        let mut n: usize = 0;
        while n < pieces.len() && !has_prefix(&pieces[n], &brace)
            invariant
                n <= pieces.len(),
                ps == views(pieces@),
                brace@ == "{"@,
                forall|j: int| 0 <= j < n ==> !starts_with(#[trigger] ps[j], "{"@),
            decreases pieces.len() - n,
        {
            assert(ps[n as int] == pieces@[n as int]@);
            n += 1;
        }
        proof {
            if n < pieces.len() {
                assert(ps[n as int] == pieces@[n as int]@);
            }
            lemma_static_count(ps, n as int);
        }
        let mut out: Vec<char> = Vec::new();
        out.push('/');
        let mut k: usize = 0;
        while k < n
            invariant
                k <= n <= pieces.len(),
                ps == views(pieces@),
                out@ == seq!['/'] + join_slash(ps.take(k as int)),
            decreases n - k,
        {
            assert(ps.take(k + 1).drop_last() =~= ps.take(k as int));
            assert(ps.take(k + 1).last() == pieces@[k as int]@);
            if k > 0 {
                out.push('/');
            } else {
                assert(ps.take(0) =~= Seq::<Seq<char>>::empty());
            }
            append_chars(&mut out, &pieces[k]);
            k += 1;
            assert(out@ =~= seq!['/'] + join_slash(ps.take(k as int)));
        }
        string_of(&out)
    }

    /// The request for an endpoint: its path filled in (ids left as the placeholder when
    /// `use_id_placeholder` holds), required query parameters, header parameters and a JSON body.
    pub fn build_request(&self, endpoint: &Endpoint, use_id_placeholder: bool) -> (r: FuzzHttpRequest)
        ensures
            r@ == built_request(self.base_url_spec(), *endpoint, use_id_placeholder),
            r.wf(),
    {
        let ghost ps = endpoint.parameters@;
        let mut path = chars_of(endpoint.path.as_str());
        let mut query_params = StringMap::new();
        let mut headers = StringMap::new();
        headers.insert("Content-Type".to_owned(), "application/json".to_owned());
        assert(headers@ =~= json_content_type());
        let mut i: usize = 0;
        while i < endpoint.parameters.len()
            invariant
                i <= endpoint.parameters.len(),
                ps == endpoint.parameters@,
                path@ == built_path(endpoint.path@, ps.take(i as int), use_id_placeholder),
                query_params@ == built_query(ps.take(i as int)),
                headers@ == built_headers(ps.take(i as int)),
                query_params.wf(),
                headers.wf(),
            decreases endpoint.parameters.len() - i,
        {
            let param = &endpoint.parameters[i];
            assert(ps.take(i + 1).drop_last() =~= ps.take(i as int));
            assert(ps.take(i + 1).last() == *param);
            match param.location {
                ParameterLocation::Path => {
                    let mut placeholder: Vec<char> = Vec::new();
                    placeholder.push('{');
                    append_chars(&mut placeholder, &chars_of(param.name.as_str()));
                    placeholder.push('}');
                    assert(placeholder@ =~= template(param.name@));
                    let value = if use_id_placeholder && is_id_param(param.name.as_str()) {
                        chars_of("__PATHFUZZ_ID__")
                    } else {
                        chars_of(param_example_or_default(param).as_str())
                    };
                    path = replace_chars(&path, &placeholder, &value);
                },
                ParameterLocation::Query => {
                    if param.required {
                        query_params.insert(param.name.clone(), param_example_or_default(param));
                    }
                },
                ParameterLocation::Header => {
                    headers.insert(param.name.clone(), param_example_or_default(param));
                },
                ParameterLocation::Body => {},
            }
            i += 1;
        }
        assert(ps.take(endpoint.parameters.len() as int) =~= ps);
        let body = match &endpoint.request_body {
            Some(schema) => Some(body_text(schema)),
            None => None,
        };
        let mut url = chars_of(self.base_url.as_str());
        append_chars(&mut url, &path);
        FuzzHttpRequest {
            url: string_of(&url),
            method: endpoint.method.to_name(),
            headers,
            query_params,
            body,
        }
    }

    /// The producer's request then the consumer's, the consumer's id parameters filled from
    /// the producer's response; `None` when the consumer has no id parameter.
    pub fn build_producer_consumer_sequence(&self, producer: &Endpoint, consumer: &Endpoint) -> (r: Option<FuzzRequestSequence>)
        ensures
            r matches Some(s) ==> pc_model(self.base_url_spec(), *producer, *consumer) == Some(seq_model(s))
                && flows_forward(seq_model(s)) && s.wf(),
            r is None ==> pc_model(self.base_url_spec(), *producer, *consumer) is None,
    {
        let producer_req = self.build_request(producer, false);
        let consumer_req = self.build_request(consumer, true);
        let id_params = get_path_id_params(consumer);
        if id_params.len() == 0 {
            return None;
        }
        let mut extractions: Vec<StateExtraction> = Vec::new();
        push_id_extractions(&mut extractions, &id_params, 1);
        assert(exts_view(extractions@) =~= id_extractions(views_of(id_params@), 1));
        let mut requests: Vec<FuzzHttpRequest> = Vec::new();
        requests.push(producer_req);
        requests.push(consumer_req);
        let s = FuzzRequestSequence::with_extractions(requests, extractions);
        proof {
            lemma_id_extractions(views_of(id_params@), 1);
            assert(reqs_view(s.requests@) =~= seq![producer_req@, consumer_req@]);
            assert(s.requests@[0] == producer_req);
            assert(s.requests@[1] == consumer_req);
        }
        Some(s)
    }

    /// Create, read, optionally update, then delete, the later requests' id parameters
    /// filled from the first response.
    pub fn build_full_crud_sequence(
        &self,
        creator: &Endpoint,
        reader: &Endpoint,
        updater: Option<&Endpoint>,
        deleter: &Endpoint,
    ) -> (r: Option<FuzzRequestSequence>)
        ensures
            r matches Some(s) && seq_model(s) == crud_model(
                self.base_url_spec(),
                *creator,
                *reader,
                match updater {
                    Some(u) => Some(*u),
                    None => None,
                },
                *deleter,
            ) && flows_forward(seq_model(s)) && s.wf(),
    {
        let ghost base = self.base_url_spec();
        let ghost u_opt: Option<Endpoint> = match updater {
            Some(u) => Some(*u),
            None => None,
        };
        let mut requests: Vec<FuzzHttpRequest> = Vec::new();
        let mut extractions: Vec<StateExtraction> = Vec::new();
        requests.push(self.build_request(creator, false));
        let mut next_idx: usize = 1;
        requests.push(self.build_request(reader, true));
        let reader_ids = get_path_id_params(reader);
        push_id_extractions(&mut extractions, &reader_ids, next_idx);
        next_idx += 1;
        match updater {
            Some(up) => {
                requests.push(self.build_request(up, true));
                let up_ids = get_path_id_params(up);
                push_id_extractions(&mut extractions, &up_ids, next_idx);
                next_idx += 1;
            },
            None => {},
        }
        requests.push(self.build_request(deleter, true));
        let deleter_ids = get_path_id_params(deleter);
        push_id_extractions(&mut extractions, &deleter_ids, next_idx);
        let s = FuzzRequestSequence::with_extractions(requests, extractions);
        proof {
            let m = crud_model(base, *creator, *reader, u_opt, *deleter);
            assert(reqs_view(s.requests@) =~= m.0);
            assert(exts_view(s.state_extractions@) =~= m.1);
            lemma_id_extractions(path_id_names(reader.parameters@), 1);
            lemma_id_extractions(path_id_names(deleter.parameters@), next_idx as nat);
            match updater {
                Some(u) => {
                    lemma_id_extractions(path_id_names(u.parameters@), 2);
                },
                None => {},
            }
            assert forall|i: int| 0 <= i < s.requests@.len() implies (#[trigger] s.requests@[i]).wf() by {
                assert(reqs_view(s.requests@)[i] == s.requests@[i]@);
            }
        }
        Some(s)
    }

    fn push_pcs(&self, out: &mut Vec<FuzzRequestSequence>, eps: &Vec<Endpoint>, c: usize, ts: &Vec<usize>)
        requires
            c < eps@.len(),
            indices_below(ts@, eps@.len()),
            all_forward(old(out)@),
        ensures
            seqs_model(final(out)@) == seqs_model(old(out)@) + pcs(self.base_url_spec(), eps@, c, ts@),
            all_forward(final(out)@),
    {
        let ghost start = seqs_model(out@);
        let mut i: usize = 0;
        while i < ts.len()
            invariant
                i <= ts.len(),
                c < eps@.len(),
                indices_below(ts@, eps@.len()),
                all_forward(out@),
                seqs_model(out@) == start + pcs(self.base_url_spec(), eps@, c, ts@.take(i as int)),
            decreases ts.len() - i,
        {
            assert(ts@.take(i + 1).drop_last() =~= ts@.take(i as int));
            assert(ts@.take(i + 1).last() == ts@[i as int]);
            let t = ts[i];
            assert(t < eps@.len());
            match self.build_producer_consumer_sequence(&eps[c], &eps[t]) {
                Some(sq) => {
                    push_sequence(out, sq);
                    assert(seqs_model(out@) =~= start + pcs(self.base_url_spec(), eps@, c, ts@.take(i + 1)));
                },
                None => {
                    assert(seqs_model(out@) =~= start + pcs(self.base_url_spec(), eps@, c, ts@.take(i + 1)));
                },
            }
            i += 1;
        }
        assert(ts@.take(ts.len() as int) =~= ts@);
    }

    /// The CRUD sequences of one group of endpoints (indices into `endpoints`): each creator
    /// with each reader, updater and deleter, then a full create-read-update-delete cycle.
    pub fn generate_crud_sequences(&self, endpoints: &Vec<Endpoint>, group: &Vec<usize>) -> (r: Vec<FuzzRequestSequence>)
        requires
            indices_below(group@, endpoints@.len()),
        ensures
            seqs_model(r@) == group_model(self.base_url_spec(), endpoints@, group@),
            all_forward(r@),
    {
        let ghost base = self.base_url_spec();
        let ghost eps = endpoints@;
        let creators = select_exec(endpoints, group, &Pick::Creator);
        let readers = select_exec(endpoints, group, &Pick::Reader);
        let updaters = select_exec(endpoints, group, &Pick::Updater);
        let deleters = select_exec(endpoints, group, &Pick::Deleter);
        let mut out: Vec<FuzzRequestSequence> = Vec::new();
        assert(seqs_model(out@) =~= Seq::<(Seq<RequestModel>, Seq<ExtractionModel>)>::empty());
        let mut ci: usize = 0;
        while ci < creators.len()
            invariant
                ci <= creators.len(),
                eps == endpoints@,
                base == self.base_url_spec(),
                indices_below(creators@, eps.len()),
                indices_below(readers@, eps.len()),
                indices_below(updaters@, eps.len()),
                indices_below(deleters@, eps.len()),
                all_forward(out@),
                seqs_model(out@) == creators_model(base, eps, creators@.take(ci as int), readers@, updaters@, deleters@),
            decreases creators.len() - ci,
        {
            assert(creators@.take(ci + 1).drop_last() =~= creators@.take(ci as int));
            assert(creators@.take(ci + 1).last() == creators@[ci as int]);
            let c = creators[ci];
            assert(c < eps.len());
            self.push_pcs(&mut out, endpoints, c, &readers);
            self.push_pcs(&mut out, endpoints, c, &updaters);
            self.push_pcs(&mut out, endpoints, c, &deleters);
            if readers.len() > 0 && deleters.len() > 0 {
                let r0 = readers[0];
                let d0 = deleters[0];
                assert(r0 < eps.len() && d0 < eps.len());
                let up: Option<&Endpoint> = if updaters.len() > 0 {
                    assert(updaters@[0] < eps.len());
                    Some(&endpoints[updaters[0]])
                } else {
                    None
                };
                match self.build_full_crud_sequence(&endpoints[c], &endpoints[r0], up, &endpoints[d0]) {
                    Some(sq) => {
                        push_sequence(&mut out, sq);
                    },
                    None => {},
                }
            }
            ci += 1;
            assert(seqs_model(out@) =~= creators_model(base, eps, creators@.take(ci as int), readers@, updaters@, deleters@));
        }
        assert(creators@.take(creators.len() as int) =~= creators@);
        out
    }

    /// The endpoints grouped by resource prefix, as indices, groups in order of first appearance.
    pub fn group_by_resource(&self, endpoints: &Vec<Endpoint>) -> (r: Vec<(String, Vec<usize>)>)
        ensures
            groups_view(r@) == grouped(prefixes(endpoints@)),
            forall|j: int| 0 <= j < r@.len() ==> indices_below(#[trigger] r@[j].1@, endpoints@.len()),
    {
        let ghost keys = prefixes(endpoints@);
        let mut groups: Vec<(String, Vec<usize>)> = Vec::new();
        assert(groups_view(groups@) =~= grouped(keys.take(0)));
        let mut i: usize = 0;
        while i < endpoints.len()
            invariant
                i <= endpoints.len(),
                keys == prefixes(endpoints@),
                groups_view(groups@) == grouped(keys.take(i as int)),
                forall|j: int| 0 <= j < groups@.len() ==> indices_below(#[trigger] groups@[j].1@, i as nat),
            decreases endpoints.len() - i,
        {
            let key = self.extract_resource_prefix(endpoints[i].path.as_str());
            let ghost gv = groups_view(groups@);
            assert(keys.take(i + 1).drop_last() =~= keys.take(i as int));
            assert(keys.take(i + 1).last() == key@);
            let mut j: usize = 0;
            let mut found = false;
            while j < groups.len()
                invariant
                    j <= groups.len(),
                    gv == groups_view(groups@),
                    forall|m: int| 0 <= m < j ==> gv[m].0 != key@,
                    found ==> j < groups.len() && gv[j as int].0 == key@,
                ensures
                    found ==> j < groups.len() && gv[j as int].0 == key@,
                    !found ==> j == groups.len(),
                    forall|m: int| 0 <= m < j ==> gv[m].0 != key@,
                decreases groups.len() - j,
            {
                if groups[j].0 == key {
                    found = true;
                    break;
                }
                j += 1;
            }
            assert(grouped(keys.take(i + 1)) == add_to_group(gv, key@, i));
            if found {
                proof {
                    lemma_group_index(gv, key@, j as int);
                }
                let mut g = groups.remove(j);
                g.1.push(i);
                groups.insert(j, g);
                assert(groups_view(groups@) =~= gv.update(j as int, (key@, gv[j as int].1.push(i))));
            } else {
                assert(group_index(gv, key@) is None);
                let mut one: Vec<usize> = Vec::new();
                one.push(i);
                let ghost kv = key@;
                groups.push((key, one));
                assert(groups_view(groups@) =~= gv.push((kv, seq![i])));
            }
            i += 1;
            assert forall|m: int| 0 <= m < groups@.len() implies indices_below(#[trigger] groups@[m].1@, i as nat) by {
                assert(groups_view(groups@)[m].1 == groups@[m].1@);
            }
        }
        assert(keys.take(endpoints.len() as int) =~= keys);
        groups
    }

    fn path_is_among(endpoints: &Vec<Endpoint>, auth: &Vec<usize>, path: &String) -> (r: bool)
        requires
            indices_below(auth@, endpoints@.len()),
        ensures
            r == path_among(endpoints@, auth@, path@),
    {
        let mut k: usize = 0;
        while k < auth.len()
            invariant
                k <= auth.len(),
                indices_below(auth@, endpoints@.len()),
                forall|m: int| 0 <= m < k ==> endpoints@[auth@[m] as int].path@ != path@,
            decreases auth.len() - k,
        {
            let a = auth[k];
            assert(a < endpoints@.len());
            if endpoints[a].path == *path {
                return true;
            }
            k += 1;
        }
        false
    }

    /// Each login endpoint (a POST whose path mentions login, auth, token or session) followed
    /// by each of the first three endpoints on other paths, the token carried into `Authorization`.
    pub fn generate_auth_sequences(&self, endpoints: &Vec<Endpoint>) -> (r: Vec<FuzzRequestSequence>)
        ensures
            seqs_model(r@) == auth_model(self.base_url_spec(), endpoints@),
            all_forward(r@),
    {
        let ghost base = self.base_url_spec();
        let ghost eps = endpoints@;
        let all = indices(endpoints.len());
        let auth = select_exec(endpoints, &all, &Pick::Auth);
        let mut out: Vec<FuzzRequestSequence> = Vec::new();
        if auth.len() == 0 {
            assert(seqs_model(out@) =~= Seq::<(Seq<RequestModel>, Seq<ExtractionModel>)>::empty());
            return out;
        }
        let mut protected: Vec<usize> = Vec::new();
        let mut i: usize = 0;
        while i < endpoints.len()
            invariant
                i <= endpoints.len(),
                eps == endpoints@,
                all@ == all_indices(eps.len()),
                indices_below(auth@, eps.len()),
                protected@ == first3(outside_paths(eps, all@.take(i as int), auth@)),
                indices_below(protected@, i as nat),
            decreases endpoints.len() - i,
        {
            let ghost prev = outside_paths(eps, all@.take(i as int), auth@);
            assert(all@.take(i + 1).drop_last() =~= all@.take(i as int));
            assert(all@.take(i + 1).last() == i);
            if protected.len() < 3 {
                if !Self::path_is_among(endpoints, &auth, &endpoints[i].path) {
                    protected.push(i);
                    assert(protected@ =~= first3(outside_paths(eps, all@.take(i + 1), auth@)));
                } else {
                    assert(protected@ =~= first3(outside_paths(eps, all@.take(i + 1), auth@)));
                }
            } else {
                let ghost next = outside_paths(eps, all@.take(i + 1), auth@);
                assert(prev.len() >= 3);
                assert(next.take(3) =~= prev.take(3));
            }
            i += 1;
        }
        assert(all@.take(endpoints.len() as int) =~= all@);
        assert(seqs_model(out@) =~= auth_rows(base, eps, auth@.take(0), protected@));
        let mut ai: usize = 0;
        while ai < auth.len()
            invariant
                ai <= auth.len(),
                eps == endpoints@,
                base == self.base_url_spec(),
                indices_below(auth@, eps.len()),
                indices_below(protected@, eps.len()),
                all_forward(out@),
                seqs_model(out@) == auth_rows(base, eps, auth@.take(ai as int), protected@),
            decreases auth.len() - ai,
        {
            assert(auth@.take(ai + 1).drop_last() =~= auth@.take(ai as int));
            assert(auth@.take(ai + 1).last() == auth@[ai as int]);
            let a = auth[ai];
            assert(a < eps.len());
            let ghost start = seqs_model(out@);
            let mut pj: usize = 0;
            while pj < protected.len()
                invariant
                    pj <= protected.len(),
                    a < eps.len(),
                    eps == endpoints@,
                    base == self.base_url_spec(),
                    indices_below(protected@, eps.len()),
                    all_forward(out@),
                    seqs_model(out@) == start + Seq::new(pj as nat, |j: int| auth_pair(base, eps[a as int], eps[protected@[j] as int])),
                decreases protected.len() - pj,
            {
                let p = protected[pj];
                assert(p < eps.len());
                let auth_req = self.build_request(&endpoints[a], false);
                let protected_req = self.build_request(&endpoints[p], false);
                let extractions = token_extraction_list();
                let sq = FuzzRequestSequence::with_extractions(two_requests(auth_req, protected_req), extractions);
                proof {
                    assert(reqs_view(sq.requests@) =~= seq![auth_req@, protected_req@]);
                    assert(seq_model(sq) == auth_pair(base, eps[a as int], eps[p as int]));
                    assert forall|k: int| 0 <= k < sq.requests@.len() implies (#[trigger] sq.requests@[k]).wf() by {
                        if k == 0 {
                            assert(sq.requests@[k] == auth_req);
                        } else {
                            assert(sq.requests@[k] == protected_req);
                        }
                    }
                }
                push_sequence(&mut out, sq);
                pj += 1;
                assert(seqs_model(out@) =~= start + Seq::new(pj as nat, |j: int| auth_pair(base, eps[a as int], eps[protected@[j] as int])));
            }
            ai += 1;
            assert(seqs_model(out@) =~= auth_rows(base, eps, auth@.take(ai as int), protected@));
        }
        assert(auth@.take(auth.len() as int) =~= auth@);
        out
    }

    /// Each POST endpoint followed by each of the first three other endpoints, ids carried
    /// into the second; when that gives nothing and there are two endpoints or more, each
    /// endpoint followed by the next one.
    pub fn generate_fallback_sequences(&self, endpoints: &Vec<Endpoint>) -> (r: Vec<FuzzRequestSequence>)
        ensures
            seqs_model(r@) == fallback_model(self.base_url_spec(), endpoints@),
            all_forward(r@),
    {
        let ghost base = self.base_url_spec();
        let ghost eps = endpoints@;
        let all = indices(endpoints.len());
        let posts = select_exec(endpoints, &all, &Pick::Creator);
        let others_all = select_exec(endpoints, &all, &Pick::NotPost);
        let others = first_three(&others_all);
        let mut out: Vec<FuzzRequestSequence> = Vec::new();
        assert(seqs_model(out@) =~= fallback_rows(base, eps, posts@.take(0), others@));
        let mut pi: usize = 0;
        while pi < posts.len()
            invariant
                pi <= posts.len(),
                eps == endpoints@,
                base == self.base_url_spec(),
                indices_below(posts@, eps.len()),
                indices_below(others@, eps.len()),
                all_forward(out@),
                seqs_model(out@) == fallback_rows(base, eps, posts@.take(pi as int), others@),
            decreases posts.len() - pi,
        {
            assert(posts@.take(pi + 1).drop_last() =~= posts@.take(pi as int));
            assert(posts@.take(pi + 1).last() == posts@[pi as int]);
            let post = posts[pi];
            assert(post < eps.len());
            let ghost start = seqs_model(out@);
            let mut oj: usize = 0;
            while oj < others.len()
                invariant
                    oj <= others.len(),
                    post < eps.len(),
                    eps == endpoints@,
                    base == self.base_url_spec(),
                    indices_below(others@, eps.len()),
                    all_forward(out@),
                    seqs_model(out@) == start + Seq::new(oj as nat, |j: int| fallback_pair(base, eps[post as int], eps[others@[j] as int])),
                decreases others.len() - oj,
            {
                let o = others[oj];
                assert(o < eps.len());
                let post_req = self.build_request(&endpoints[post], false);
                let other_req = self.build_request(&endpoints[o], true);
                let id_params = get_path_id_params(&endpoints[o]);
                let mut extractions: Vec<StateExtraction> = Vec::new();
                push_id_extractions(&mut extractions, &id_params, 1);
                let sq = FuzzRequestSequence::with_extractions(two_requests(post_req, other_req), extractions);
                proof {
                    assert(exts_view(sq.state_extractions@) =~= id_extractions(views_of(id_params@), 1));
                    lemma_id_extractions(views_of(id_params@), 1);
                    assert(reqs_view(sq.requests@) =~= seq![post_req@, other_req@]);
                    assert(seq_model(sq) == fallback_pair(base, eps[post as int], eps[o as int]));
                    assert forall|k: int| 0 <= k < sq.requests@.len() implies (#[trigger] sq.requests@[k]).wf() by {
                        if k == 0 {
                            assert(sq.requests@[k] == post_req);
                        } else {
                            assert(sq.requests@[k] == other_req);
                        }
                    }
                }
                push_sequence(&mut out, sq);
                oj += 1;
                assert(seqs_model(out@) =~= start + Seq::new(oj as nat, |j: int| fallback_pair(base, eps[post as int], eps[others@[j] as int])));
            }
            pi += 1;
            assert(seqs_model(out@) =~= fallback_rows(base, eps, posts@.take(pi as int), others@));
        }
        assert(posts@.take(posts.len() as int) =~= posts@);
        if out.len() == 0 && endpoints.len() >= 2 {
            let mut i: usize = 0;
            while i + 1 < endpoints.len()
                invariant
                    i + 1 <= endpoints.len(),
                    eps == endpoints@,
                    base == self.base_url_spec(),
                    all_forward(out@),
                    seqs_model(out@) == Seq::new(
                        i as nat,
                        |k: int| (seq![built_request(base, eps[k], false), built_request(base, eps[k + 1], false)], Seq::<ExtractionModel>::empty()),
                    ),
                decreases endpoints.len() - i,
            {
                let req_a = self.build_request(&endpoints[i], false);
                let req_b = self.build_request(&endpoints[i + 1], false);
                let sq = FuzzRequestSequence::new(two_requests(req_a, req_b));
                proof {
                    assert(reqs_view(sq.requests@) =~= seq![req_a@, req_b@]);
                    assert(exts_view(sq.state_extractions@) =~= Seq::<ExtractionModel>::empty());
                    assert forall|k: int| 0 <= k < sq.requests@.len() implies (#[trigger] sq.requests@[k]).wf() by {
                        if k == 0 {
                            assert(sq.requests@[k] == req_a);
                        } else {
                            assert(sq.requests@[k] == req_b);
                        }
                    }
                }
                push_sequence(&mut out, sq);
                i += 1;
                assert(seqs_model(out@) =~= Seq::new(
                    i as nat,
                    |k: int| (seq![built_request(base, eps[k], false), built_request(base, eps[k + 1], false)], Seq::<ExtractionModel>::empty()),
                ));
            }
        }
        out
    }

    /// All request sequences for the endpoints: the CRUD sequences of each resource group,
    /// groups in order of first appearance, then the login sequences; the fallback
    /// sequences when these give none. Every extraction reads an earlier request and
    /// writes a later one of its sequence.
    pub fn generate_sequences(&self, endpoints: &Vec<Endpoint>) -> (r: Vec<FuzzRequestSequence>)
        ensures
            seqs_model(r@) == sequences_model(self.base_url_spec(), endpoints@),
            all_forward(r@),
    {
        let ghost base = self.base_url_spec();
        let ghost eps = endpoints@;
        let groups = self.group_by_resource(endpoints);
        let ghost gv = groups_view(groups@);
        let mut out: Vec<FuzzRequestSequence> = Vec::new();
        assert(seqs_model(out@) =~= groups_model(base, eps, gv.take(0)));
        let mut gi: usize = 0;
        while gi < groups.len()
            invariant
                gi <= groups.len(),
                eps == endpoints@,
                base == self.base_url_spec(),
                gv == groups_view(groups@),
                forall|j: int| 0 <= j < groups@.len() ==> indices_below(#[trigger] groups@[j].1@, eps.len()),
                all_forward(out@),
                seqs_model(out@) == groups_model(base, eps, gv.take(gi as int)),
            decreases groups.len() - gi,
        {
            assert(gv.take(gi + 1).drop_last() =~= gv.take(gi as int));
            assert(gv.take(gi + 1).last().1 == groups@[gi as int].1@);
            assert(indices_below(groups@[gi as int].1@, eps.len()));
            let part = self.generate_crud_sequences(endpoints, &groups[gi].1);
            append_sequences(&mut out, part);
            gi += 1;
        }
        assert(gv.take(groups.len() as int) =~= gv);
        let auth = self.generate_auth_sequences(endpoints);
        append_sequences(&mut out, auth);
        if out.len() == 0 {
            let fallback = self.generate_fallback_sequences(endpoints);
            append_sequences(&mut out, fallback);
            assert(seqs_model(out@) =~= fallback_model(base, eps));
        }
        out
    }
}

/// An endpoint counts as a login endpoint exactly when it is a POST whose lower-cased path
/// contains `login`, `auth`, `token` or `session`.
pub proof fn law_login_endpoints(ep: Endpoint)
    ensures
        picks(ep, Pick::Auth) <==> ep.method == HttpMethod::Post && (contains(lowercase(ep.path@), "login"@) || contains(
            lowercase(ep.path@),
            "auth"@,
        ) || contains(lowercase(ep.path@), "token"@) || contains(lowercase(ep.path@), "session"@)),
{
}

/// The token extractions: seven response paths of request 0, each into the `Authorization`
/// header of request 1.
pub proof fn law_token_extractions_shape()
    ensures
        token_extractions().len() == 7,
        forall|k: int| 0 <= k < 7 ==> (#[trigger] token_extractions()[k]).source == 0 && token_extractions()[k].target_idx == 1
            && token_extractions()[k].target == TargetModel::Header("Authorization"@),
{
}

proof fn lemma_select_has(eps: Seq<Endpoint>, g: Seq<usize>, k: Pick, m: int)
    requires
        0 <= m < g.len(),
        0 <= g[m] < eps.len(),
        picks(eps[g[m] as int], k),
    ensures
        exists|q: int| 0 <= q < select(eps, g, k).len() && select(eps, g, k)[q] == g[m],
    decreases g.len(),
{
    let prev = select(eps, g.drop_last(), k);
    if m == g.len() - 1 {
        assert(select(eps, g, k)[prev.len() as int] == g[m]);
    } else {
        assert(g.drop_last()[m] == g[m]);
        lemma_select_has(eps, g.drop_last(), k, m);
        let q = choose|q: int| 0 <= q < prev.len() && prev[q] == g[m];
        assert(select(eps, g, k)[q] == g[m]);
    }
}

proof fn lemma_select_picks(eps: Seq<Endpoint>, g: Seq<usize>, k: Pick)
    ensures
        forall|q: int| 0 <= q < select(eps, g, k).len() ==> picks(eps[#[trigger] select(eps, g, k)[q] as int], k),
    decreases g.len(),
{
    if g.len() > 0 {
        lemma_select_picks(eps, g.drop_last(), k);
        let prev = select(eps, g.drop_last(), k);
        assert forall|q: int| 0 <= q < select(eps, g, k).len() implies picks(eps[#[trigger] select(eps, g, k)[q] as int], k) by {
            if q < prev.len() {
                assert(select(eps, g, k)[q] == prev[q]);
            }
        }
    }
}

proof fn lemma_outside_nonempty(eps: Seq<Endpoint>, g: Seq<usize>, a: Seq<usize>, m: int)
    requires
        0 <= m < g.len(),
        !path_among(eps, a, eps[g[m] as int].path@),
    ensures
        outside_paths(eps, g, a).len() > 0,
    decreases g.len(),
{
    if m < g.len() - 1 {
        assert(g.drop_last()[m] == g[m]);
        lemma_outside_nonempty(eps, g.drop_last(), a, m);
    }
}

proof fn lemma_auth_rows_has(base: Seq<char>, eps: Seq<Endpoint>, a: Seq<usize>, ps: Seq<usize>, q: int)
    requires
        0 <= q < a.len(),
        ps.len() > 0,
    ensures
        exists|r: int| 0 <= r < auth_rows(base, eps, a, ps).len() && auth_rows(base, eps, a, ps)[r] == auth_pair(
            base,
            eps[a[q] as int],
            eps[ps[0] as int],
        ),
    decreases a.len(),
{
    let prev = auth_rows(base, eps, a.drop_last(), ps);
    let rows = auth_rows(base, eps, a, ps);
    if q == a.len() - 1 {
        assert(rows[prev.len() as int] == auth_pair(base, eps[a[q] as int], eps[ps[0] as int]));
    } else {
        assert(a.drop_last()[q] == a[q]);
        lemma_auth_rows_has(base, eps, a.drop_last(), ps, q);
        let r = choose|r: int| 0 <= r < prev.len() && prev[r] == auth_pair(base, eps[a[q] as int], eps[ps[0] as int]);
        assert(rows[r] == prev[r]);
    }
}

/// Every login endpoint starts a login pair, once some endpoint lies on a path that no login
/// endpoint has: the pair's first request is the login request, and its extractions carry
/// the token into the second request's `Authorization` header.
pub proof fn law_login_pairs(base: Seq<char>, eps: Seq<Endpoint>, i: int, j: int)
    requires
        eps.len() <= usize::MAX,
        0 <= i < eps.len(),
        0 <= j < eps.len(),
        eps[i].method == HttpMethod::Post,
        contains(lowercase(eps[i].path@), "login"@) || contains(lowercase(eps[i].path@), "auth"@) || contains(
            lowercase(eps[i].path@),
            "token"@,
        ) || contains(lowercase(eps[i].path@), "session"@),
        forall|k: int| 0 <= k < eps.len() && #[trigger] picks(eps[k], Pick::Auth) ==> eps[k].path@ != eps[j].path@,
    ensures
        exists|r: int|
            0 <= r < auth_model(base, eps).len() && (#[trigger] auth_model(base, eps)[r]).0[0] == built_request(
                base,
                eps[i],
                false,
            ) && auth_model(base, eps)[r].1 == token_extractions(),
{
    let all = all_indices(eps.len());
    let a = select(eps, all, Pick::Auth);
    assert(all[i] == i);
    assert(all[j] == j);
    lemma_select_has(eps, all, Pick::Auth, i);
    let q = choose|q: int| 0 <= q < a.len() && a[q] == all[i];
    lemma_select_picks(eps, all, Pick::Auth);
    assert(!path_among(eps, a, eps[j].path@)) by {
        if path_among(eps, a, eps[j].path@) {
            let k = choose|k: int| 0 <= k < a.len() && eps[a[k] as int].path@ == eps[j].path@;
            assert(picks(eps[a[k] as int], Pick::Auth));
            assert(a[k] < eps.len()) by {
                lemma_select_below(eps, all, Pick::Auth, eps.len() as nat);
            }
        }
    }
    lemma_outside_nonempty(eps, all, a, j);
    let ps = first3(outside_paths(eps, all, a));
    lemma_auth_rows_has(base, eps, a, ps, q);
    let r = choose|r: int| 0 <= r < auth_rows(base, eps, a, ps).len() && auth_rows(base, eps, a, ps)[r] == auth_pair(
        base,
        eps[a[q] as int],
        eps[ps[0] as int],
    );
    assert(auth_model(base, eps)[r].0[0] == built_request(base, eps[i], false));
}

proof fn lemma_select_below(eps: Seq<Endpoint>, g: Seq<usize>, k: Pick, n: nat)
    requires
        forall|q: int| 0 <= q < g.len() ==> #[trigger] g[q] < n,
    ensures
        forall|q: int| 0 <= q < select(eps, g, k).len() ==> #[trigger] select(eps, g, k)[q] < n,
    decreases g.len(),
{
    if g.len() > 0 {
        assert forall|q: int| 0 <= q < g.drop_last().len() implies #[trigger] g.drop_last()[q] < n by {
            assert(g.drop_last()[q] == g[q]);
        }
        lemma_select_below(eps, g.drop_last(), k, n);
        let prev = select(eps, g.drop_last(), k);
        assert forall|q: int| 0 <= q < select(eps, g, k).len() implies #[trigger] select(eps, g, k)[q] < n by {
            if q < prev.len() {
                assert(select(eps, g, k)[q] == prev[q]);
            }
        }
    }
}

} // verus!
