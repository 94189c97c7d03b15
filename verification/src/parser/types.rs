//! Endpoints, parameters and schemas read from an OpenAPI description.
use vstd::prelude::*;
use crate::json::{Json, JsonValue};

verus! {

broadcast use vstd::std_specs::vec::axiom_vec_index_decreases;

/// The HTTP methods an endpoint can have.
#[derive(Debug, Clone, Copy, PartialEq, Eq, Structural)]
pub enum HttpMethod {
    Get,
    Post,
    Put,
    Delete,
    Patch,
}

/// The method's name as it goes on the wire.
pub open spec fn method_name(m: HttpMethod) -> Seq<char> {
    match m {
        HttpMethod::Get => "GET"@,
        HttpMethod::Post => "POST"@,
        HttpMethod::Put => "PUT"@,
        HttpMethod::Delete => "DELETE"@,
        HttpMethod::Patch => "PATCH"@,
    }
}

impl HttpMethod {
    /// The method's name, as `Display` prints it.
    pub fn as_str(&self) -> (r: &'static str)
        ensures
            r@ == method_name(*self),
    {
        match self {
            HttpMethod::Get => "GET",
            HttpMethod::Post => "POST",
            HttpMethod::Put => "PUT",
            HttpMethod::Delete => "DELETE",
            HttpMethod::Patch => "PATCH",
        }
    }

    /// The method's name as an owned string.
    pub fn to_name(&self) -> (r: String)
        ensures
            r@ == method_name(*self),
    {
        self.as_str().to_owned()
    }
}

/// Where a parameter goes in a request.
#[derive(Debug, Clone, Copy, PartialEq, Eq, Structural)]
pub enum ParameterLocation {
    Path,
    Query,
    Header,
    Body,
}

/// The type a schema gives a value.
#[derive(Debug)]
pub enum SchemaType {
    String,
    Integer,
    Number,
    Boolean,
    Array(Box<SchemaType>),
    Object(Vec<(String, PropertySchema)>),
}

/// A property of an object schema.
#[derive(Debug)]
pub struct PropertySchema {
    pub schema_type: SchemaType,
    pub required: bool,
    pub example: Option<JsonValue>,
}

/// A parameter of an endpoint.
#[derive(Debug)]
pub struct Parameter {
    pub name: String,
    pub location: ParameterLocation,
    pub required: bool,
    pub schema_type: SchemaType,
    pub example: Option<JsonValue>,
}

/// One method on one path.
#[derive(Debug)]
pub struct Endpoint {
    pub path: String,
    pub method: HttpMethod,
    pub parameters: Vec<Parameter>,
    pub request_body: Option<Vec<(String, PropertySchema)>>,
}

/// A whole API description.
#[derive(Debug)]
pub struct ApiSpec {
    pub title: String,
    pub base_url: String,
    pub endpoints: Vec<Endpoint>,
}

/// The model of a schema type.
pub enum SchemaModel {
    String,
    Integer,
    Number,
    Boolean,
    Array(Box<SchemaModel>),
    Object(Seq<(Seq<char>, PropModel)>),
}

/// The model of a property schema.
pub struct PropModel {
    pub schema_type: SchemaModel,
    pub required: bool,
    pub example: Option<Json>,
}

/// The model of a parameter.
pub struct ParamModel {
    pub name: Seq<char>,
    pub location: ParameterLocation,
    pub required: bool,
    pub schema_type: SchemaModel,
    pub example: Option<Json>,
}

/// The model of an endpoint.
pub struct EndpointModel {
    pub path: Seq<char>,
    pub method: HttpMethod,
    pub parameters: Seq<ParamModel>,
    pub request_body: Option<Seq<(Seq<char>, PropModel)>>,
}

pub open spec fn example_model(e: Option<JsonValue>) -> Option<Json> {
    match e {
        Some(v) => Some(v.model()),
        None => None,
    }
}

impl SchemaType {
    /// The model of this schema type.
    pub open spec fn model(&self) -> SchemaModel
        decreases self,
    {
        match self {
            SchemaType::String => SchemaModel::String,
            SchemaType::Integer => SchemaModel::Integer,
            SchemaType::Number => SchemaModel::Number,
            SchemaType::Boolean => SchemaModel::Boolean,
            SchemaType::Array(inner) => SchemaModel::Array(Box::new((**inner).model())),
            SchemaType::Object(v) => SchemaModel::Object(
                Seq::new(
                    v@.len(),
                    |i: int|
                        if 0 <= i < v@.len() {
                            (
                                v@[i].0@,
                                PropModel {
                                    schema_type: v@[i].1.schema_type.model(),
                                    required: v@[i].1.required,
                                    example: example_model(v@[i].1.example),
                                },
                            )
                        } else {
                            (Seq::empty(), PropModel { schema_type: SchemaModel::String, required: false, example: None })
                        },
                ),
            ),
        }
    }
}

impl PropertySchema {
    pub open spec fn model(&self) -> PropModel {
        PropModel { schema_type: self.schema_type.model(), required: self.required, example: example_model(self.example) }
    }
}

/// The model of a list of properties.
pub open spec fn props_model(v: Seq<(String, PropertySchema)>) -> Seq<(Seq<char>, PropModel)> {
    Seq::new(v.len(), |i: int| (v[i].0@, v[i].1.model()))
}

impl Parameter {
    pub open spec fn model(&self) -> ParamModel {
        ParamModel {
            name: self.name@,
            location: self.location,
            required: self.required,
            schema_type: self.schema_type.model(),
            example: example_model(self.example),
        }
    }
}

pub open spec fn params_model(v: Seq<Parameter>) -> Seq<ParamModel> {
    Seq::new(v.len(), |i: int| v[i].model())
}

impl Endpoint {
    pub open spec fn model(&self) -> EndpointModel {
        EndpointModel {
            path: self.path@,
            method: self.method,
            parameters: params_model(self.parameters@),
            request_body: match self.request_body {
                Some(b) => Some(props_model(b@)),
                None => None,
            },
        }
    }
}

pub open spec fn endpoints_model(v: Seq<Endpoint>) -> Seq<EndpointModel> {
    Seq::new(v.len(), |i: int| v[i].model())
}

} // verus!
