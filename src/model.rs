//! The in-memory document model that the generator consumes.
use vstd::prelude::*;

verus! {

/// A value that is either given inline or named by a reference string.
pub enum ReferenceOr<T> {
    Reference { reference: String },
    Item(T),
}

/// A node of type information.
pub struct Schema {
    /// Excluded from request bodies.
    pub read_only: bool,
    /// Excluded from response assertions.
    pub write_only: bool,
    pub kind: SchemaKind,
}

/// An object schema: ordered properties and the names that are required.
pub struct ObjectType {
    pub properties: Vec<(String, ReferenceOr<Schema>)>,
    pub required: Vec<String>,
}

pub enum SchemaKind {
    Boolean,
    String,
    Number,
    Integer,
    /// The element schema, when one is declared.
    Array(Option<Box<ReferenceOr<Schema>>>),
    Object(ObjectType),
    AllOf(Vec<ReferenceOr<Schema>>),
    OneOf,
    AnyOf,
    Not,
    Any,
}

/// Where a parameter is sent.
pub enum ParameterLocation {
    Query,
    Header,
    Path,
    Cookie,
}

pub struct Parameter {
    pub name: String,
    pub location: ParameterLocation,
}

/// The description of one media type of a body.
pub struct MediaType {
    pub schema: Option<ReferenceOr<Schema>>,
}

pub struct RequestBody {
    /// Media type name and its description, in declaration order.
    pub content: Vec<(String, MediaType)>,
}

pub struct Response {
    /// Media type name and its description, in declaration order.
    pub content: Vec<(String, MediaType)>,
}

/// The key of a response: a concrete code, or a range such as `5XX`.
pub enum StatusCode {
    Code(u16),
    Range(u16),
}

#[derive(Clone, Copy, Debug, PartialEq, Eq, Structural)]
pub enum Method {
    Get,
    Put,
    Post,
    Delete,
    Options,
    Head,
    Patch,
    Trace,
}

pub struct Operation {
    pub path: String,
    pub method: Method,
    pub operation_id: Option<String>,
    pub parameters: Vec<ReferenceOr<Parameter>>,
    pub request_body: Option<ReferenceOr<RequestBody>>,
    /// Status code and response, in declaration order.
    pub responses: Vec<(StatusCode, ReferenceOr<Response>)>,
}

/// The named, reusable definitions of a document.
pub struct Components {
    pub schemas: Vec<(String, ReferenceOr<Schema>)>,
    pub parameters: Vec<(String, ReferenceOr<Parameter>)>,
    pub request_bodies: Vec<(String, ReferenceOr<RequestBody>)>,
    pub responses: Vec<(String, ReferenceOr<Response>)>,
}

/// A parsed API description: its components, if it declares any, and its
/// operations in document order.
pub struct Document {
    pub components: Option<Components>,
    pub operations: Vec<Operation>,
}

impl Document {
    /// The schema section, as a sequence, when the document has components.
    pub open spec fn schema_section(self) -> Option<Seq<(String, ReferenceOr<Schema>)>> {
        match self.components {
            Some(c) => Some(c.schemas@),
            None => None,
        }
    }

    /// The number of named schemas: no traversal can have more of them open
    /// at once.
    pub open spec fn schema_count(self) -> int {
        match self.components {
            Some(c) => c.schemas@.len() as int,
            None => 0,
        }
    }
}

impl Method {
    /// The lower-case name of the method, as it stands in a document.
    pub open spec fn lower(self) -> Seq<char> {
        match self {
            Method::Get => seq!['g', 'e', 't'],
            Method::Put => seq!['p', 'u', 't'],
            Method::Post => seq!['p', 'o', 's', 't'],
            Method::Delete => seq!['d', 'e', 'l', 'e', 't', 'e'],
            Method::Options => seq!['o', 'p', 't', 'i', 'o', 'n', 's'],
            Method::Head => seq!['h', 'e', 'a', 'd'],
            Method::Patch => seq!['p', 'a', 't', 'c', 'h'],
            Method::Trace => seq!['t', 'r', 'a', 'c', 'e'],
        }
    }

    /// The upper-case name of the method, as it stands in a request line.
    pub open spec fn upper(self) -> Seq<char> {
        match self {
            Method::Get => seq!['G', 'E', 'T'],
            Method::Put => seq!['P', 'U', 'T'],
            Method::Post => seq!['P', 'O', 'S', 'T'],
            Method::Delete => seq!['D', 'E', 'L', 'E', 'T', 'E'],
            Method::Options => seq!['O', 'P', 'T', 'I', 'O', 'N', 'S'],
            Method::Head => seq!['H', 'E', 'A', 'D'],
            Method::Patch => seq!['P', 'A', 'T', 'C', 'H'],
            Method::Trace => seq!['T', 'R', 'A', 'C', 'E'],
        }
    }

    pub fn lower_name(&self) -> (r: &'static str)
        ensures
            r@ == self.lower(),
    {
        proof {
            reveal_strlit("get");
            reveal_strlit("put");
            reveal_strlit("post");
            reveal_strlit("delete");
            reveal_strlit("options");
            reveal_strlit("head");
            reveal_strlit("patch");
            reveal_strlit("trace");
        }
        match self {
            Method::Get => "get",
            Method::Put => "put",
            Method::Post => "post",
            Method::Delete => "delete",
            Method::Options => "options",
            Method::Head => "head",
            Method::Patch => "patch",
            Method::Trace => "trace",
        }
    }

    pub fn upper_name(&self) -> (r: &'static str)
        ensures
            r@ == self.upper(),
    {
        proof {
            reveal_strlit("GET");
            reveal_strlit("PUT");
            reveal_strlit("POST");
            reveal_strlit("DELETE");
            reveal_strlit("OPTIONS");
            reveal_strlit("HEAD");
            reveal_strlit("PATCH");
            reveal_strlit("TRACE");
        }
        match self {
            Method::Get => "GET",
            Method::Put => "PUT",
            Method::Post => "POST",
            Method::Delete => "DELETE",
            Method::Options => "OPTIONS",
            Method::Head => "HEAD",
            Method::Patch => "PATCH",
            Method::Trace => "TRACE",
        }
    }
}

} // verus!
