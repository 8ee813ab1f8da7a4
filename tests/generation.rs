use heave::{
    generate, Components, Document, GenerateError, GenerateResult, HeaveError, MediaType, Method, ObjectType, Operation,
    Parameter, ParameterLocation, ReferenceOr, RequestBody, Response, Schema, SchemaKind, StatusCode, UnsupportedKind,
};

fn schema(kind: SchemaKind) -> Schema {
    Schema { read_only: false, write_only: false, kind }
}

fn item(s: Schema) -> ReferenceOr<Schema> {
    ReferenceOr::Item(s)
}

fn reference<T>(r: &str) -> ReferenceOr<T> {
    ReferenceOr::Reference { reference: r.to_string() }
}

fn object(props: Vec<(&str, ReferenceOr<Schema>)>, required: &[&str]) -> Schema {
    schema(SchemaKind::Object(ObjectType {
        properties: props.into_iter().map(|(n, s)| (n.to_string(), s)).collect(),
        required: required.iter().map(|s| s.to_string()).collect(),
    }))
}

fn array(items: ReferenceOr<Schema>) -> Schema {
    schema(SchemaKind::Array(Some(Box::new(items))))
}

fn json(s: ReferenceOr<Schema>) -> Vec<(String, MediaType)> {
    vec![("application/json".to_string(), MediaType { schema: Some(s) })]
}

fn ok_response(s: ReferenceOr<Schema>) -> (StatusCode, ReferenceOr<Response>) {
    (StatusCode::Code(200), ReferenceOr::Item(Response { content: json(s) }))
}

fn operation(
    path: &str,
    method: Method,
    id: Option<&str>,
    parameters: Vec<ReferenceOr<Parameter>>,
    request_body: Option<ReferenceOr<RequestBody>>,
    responses: Vec<(StatusCode, ReferenceOr<Response>)>,
) -> Operation {
    Operation {
        path: path.to_string(),
        method,
        operation_id: id.map(|s| s.to_string()),
        parameters,
        request_body,
        responses,
    }
}

fn schemas(named: Vec<(&str, ReferenceOr<Schema>)>) -> Components {
    Components {
        schemas: named.into_iter().map(|(n, s)| (n.to_string(), s)).collect(),
        parameters: vec![],
        request_bodies: vec![],
        responses: vec![],
    }
}

fn document(components: Option<Components>, operations: Vec<Operation>) -> Document {
    Document { components, operations }
}

fn run(doc: &Document) -> GenerateResult {
    match generate(doc) {
        Ok(r) => r,
        Err(_) => panic!("generation failed"),
    }
}

fn asserts_of(doc: &Document) -> Vec<String> {
    let r = run(doc);
    assert_eq!(r.outputs.len(), 1);
    r.outputs[0].asserts.clone()
}

fn body_of(s: ReferenceOr<Schema>, components: Option<Components>) -> GenerateResult {
    let doc = document(
        components,
        vec![operation(
            "/things",
            Method::Post,
            Some("make"),
            vec![],
            Some(ReferenceOr::Item(RequestBody { content: json(s) })),
            vec![ok_response(item(schema(SchemaKind::Boolean)))],
        )],
    );
    run(&doc)
}

fn body_value(s: ReferenceOr<Schema>, components: Option<Components>) -> serde_json::Value {
    let r = body_of(s, components);
    serde_json::from_str(&r.outputs[0].request_body_parameter).unwrap()
}

fn pet() -> Schema {
    object(
        vec![
            ("id", item(schema(SchemaKind::Integer))),
            ("name", item(schema(SchemaKind::String))),
            ("tag", item(schema(SchemaKind::String))),
        ],
        &["id", "name"],
    )
}

fn query(name: &str) -> ReferenceOr<Parameter> {
    ReferenceOr::Item(Parameter { name: name.to_string(), location: ParameterLocation::Query })
}

fn header(name: &str) -> ReferenceOr<Parameter> {
    ReferenceOr::Item(Parameter { name: name.to_string(), location: ParameterLocation::Header })
}

#[test]
fn petstore() {
    let doc = document(
        Some(schemas(vec![("Pet", item(pet())), ("Pets", item(array(reference("#/components/schemas/Pet"))))])),
        vec![
            operation(
                "/pets",
                Method::Get,
                Some("listPets"),
                vec![query("limit"), header("X-Trace")],
                None,
                vec![ok_response(reference("#/components/schemas/Pets"))],
            ),
            operation(
                "/pets",
                Method::Post,
                None,
                vec![],
                Some(ReferenceOr::Item(RequestBody { content: json(reference("#/components/schemas/Pet")) })),
                vec![(StatusCode::Code(201), ReferenceOr::Item(Response { content: vec![] }))],
            ),
            operation(
                "/pets/{petId}",
                Method::Get,
                None,
                vec![ReferenceOr::Item(Parameter { name: "petId".to_string(), location: ParameterLocation::Path })],
                None,
                vec![ok_response(reference("#/components/schemas/Pet"))],
            ),
        ],
    );
    let r = run(&doc);
    assert_eq!(r.outputs.len(), 2);
    let list = &r.outputs[0];
    assert_eq!(list.name, "listPets_200.hurl");
    assert_eq!(list.method, "GET");
    assert_eq!(list.path, "/pets");
    assert_eq!(list.expected_status_code, 200);
    assert_eq!(list.query_parameters, vec!["limit".to_string()]);
    assert_eq!(list.header_parameters, vec!["X-Trace".to_string()]);
    assert_eq!(
        list.asserts,
        vec![
            "jsonpath \"$\" isCollection",
            "#jsonpath \"$[0]\" isCollection",
            "#jsonpath \"$[0].id\" isInteger",
            "#jsonpath \"$[0].name\" isString",
            "#jsonpath \"$[0].tag\" isString",
        ]
    );
    assert_eq!(list.request_body_parameter, "");
    let show = &r.outputs[1];
    assert_eq!(show.name, "get__pets_{petId}_200.hurl");
    assert_eq!(show.path, "/pets/{{petId}}");
    assert!(show.query_parameters.is_empty());
    assert!(show.header_parameters.is_empty());
    assert_eq!(
        show.asserts,
        vec![
            "jsonpath \"$\" isCollection",
            "jsonpath \"$.id\" isInteger",
            "jsonpath \"$.name\" isString",
            "#jsonpath \"$.tag\" isString",
        ]
    );
    assert_eq!(r.diagnostics.len(), 1);
    assert!(matches!(&r.diagnostics[0], HeaveError::MissingApplicationJsonResponseBodyMediaType { context }
        if context.operation == "post__pets" && context.path == "/pets"));
}

#[test]
fn request_body_is_pretty_json() {
    let r = body_of(reference("#/components/schemas/Pet"), Some(schemas(vec![("Pet", item(pet()))])));
    assert_eq!(r.outputs[0].request_body_parameter, "{\n  \"id\": 0,\n  \"name\": \"\",\n  \"tag\": \"\"\n}");
}

#[test]
fn required_object_scenario() {
    let doc = document(
        None,
        vec![operation(
            "/items",
            Method::Get,
            Some("items"),
            vec![],
            None,
            vec![ok_response(item(object(
                vec![("id", item(schema(SchemaKind::Integer))), ("name", item(schema(SchemaKind::String)))],
                &["id"],
            )))],
        )],
    );
    assert_eq!(
        asserts_of(&doc),
        vec!["jsonpath \"$\" isCollection", "jsonpath \"$.id\" isInteger", "#jsonpath \"$.name\" isString"]
    );
}

#[test]
fn status_code_range_scenario() {
    let doc = document(
        None,
        vec![operation(
            "/items",
            Method::Get,
            Some("items"),
            vec![],
            None,
            vec![(StatusCode::Range(5), ReferenceOr::Item(Response { content: json(item(schema(SchemaKind::String))) }))],
        )],
    );
    let r = run(&doc);
    assert!(r.outputs.is_empty());
    assert_eq!(r.diagnostics.len(), 1);
    assert!(matches!(&r.diagnostics[0], HeaveError::UnsupportedStatusCodeRange { .. }));
}

#[test]
fn missing_schema_reference_scenario() {
    let doc = document(
        Some(schemas(vec![])),
        vec![operation(
            "/widgets",
            Method::Get,
            Some("widgets"),
            vec![],
            None,
            vec![ok_response(reference("#/components/schemas/Widget"))],
        )],
    );
    let r = run(&doc);
    assert!(r.outputs.is_empty());
    assert_eq!(r.diagnostics.len(), 1);
    assert!(matches!(&r.diagnostics[0], HeaveError::MissingSchemaReference { reference, .. }
        if reference == "#/components/schemas/Widget"));

    let r = body_of(reference("#/components/schemas/Widget"), Some(schemas(vec![])));
    assert_eq!(r.outputs[0].request_body_parameter, "");
    assert_eq!(r.diagnostics.len(), 1);
    assert!(matches!(&r.diagnostics[0], HeaveError::MissingSchemaReference { reference, .. }
        if reference == "#/components/schemas/Widget"));
}

#[test]
fn primitive_bodies_read_back_with_their_type() {
    assert!(body_value(item(schema(SchemaKind::Boolean)), None).is_boolean());
    assert!(body_value(item(schema(SchemaKind::String)), None).is_string());
    assert!(body_value(item(schema(SchemaKind::Number)), None).is_number());
    assert!(body_value(item(schema(SchemaKind::Integer)), None).is_number());
    assert_eq!(body_of(item(schema(SchemaKind::Boolean)), None).outputs[0].request_body_parameter, "false");
    assert_eq!(body_of(item(schema(SchemaKind::String)), None).outputs[0].request_body_parameter, "\"\"");
    assert_eq!(body_of(item(schema(SchemaKind::Integer)), None).outputs[0].request_body_parameter, "0");
}

#[test]
fn write_only() {
    let mut secret = schema(SchemaKind::String);
    secret.write_only = true;
    let mut hidden = object(vec![("x", item(schema(SchemaKind::Integer)))], &["x"]);
    hidden.write_only = true;
    let inner = object(vec![("secret", item(secret)), ("visible", item(schema(SchemaKind::Boolean)))], &["secret", "visible"]);
    let doc = document(
        None,
        vec![operation(
            "/accounts",
            Method::Get,
            Some("accounts"),
            vec![],
            None,
            vec![ok_response(item(object(
                vec![("inner", item(inner)), ("hidden", item(hidden))],
                &["inner", "hidden"],
            )))],
        )],
    );
    assert_eq!(
        asserts_of(&doc),
        vec!["jsonpath \"$\" isCollection", "jsonpath \"$.inner\" isCollection", "jsonpath \"$.inner.visible\" isBoolean"]
    );
}

#[test]
fn read_only() {
    let mut id = schema(SchemaKind::Integer);
    id.read_only = true;
    let inner = object(vec![("id", item(id)), ("label", item(schema(SchemaKind::String)))], &[]);
    let v = body_value(item(object(vec![("inner", item(inner)), ("count", item(schema(SchemaKind::Number)))], &[])), None);
    assert_eq!(v, serde_json::from_str::<serde_json::Value>("{\"inner\": {\"label\": \"\"}, \"count\": 0}").unwrap());
}

#[test]
fn assertion_generation_is_repeatable() {
    let doc = document(
        Some(schemas(vec![("Pet", item(pet()))])),
        vec![operation("/pets", Method::Get, Some("pets"), vec![], None, vec![ok_response(reference("#/components/schemas/Pet"))])],
    );
    assert_eq!(asserts_of(&doc), asserts_of(&doc));
}

#[test]
fn cycle_detection() {
    let node = object(vec![("child", reference("#/components/schemas/Node"))], &["child"]);
    let doc = document(
        Some(schemas(vec![("Node", item(node))])),
        vec![operation("/nodes", Method::Get, Some("nodes"), vec![], None, vec![ok_response(reference("#/components/schemas/Node"))])],
    );
    let r = run(&doc);
    assert_eq!(r.outputs[0].asserts, vec!["jsonpath \"$\" isCollection"]);
    assert_eq!(r.diagnostics.len(), 1);
    assert!(matches!(&r.diagnostics[0], HeaveError::ResponseBodySchemaCycleDetected { jsonpath, .. } if jsonpath == "$.child"));

    let a = object(vec![("b", reference("#/components/schemas/B"))], &[]);
    let b = object(vec![("a", reference("#/components/schemas/A"))], &[]);
    let doc = document(
        Some(schemas(vec![("A", item(a)), ("B", item(b))])),
        vec![operation(
            "/a",
            Method::Post,
            Some("a"),
            vec![],
            Some(ReferenceOr::Item(RequestBody { content: json(reference("#/components/schemas/A")) })),
            vec![ok_response(reference("#/components/schemas/A"))],
        )],
    );
    let r = run(&doc);
    assert_eq!(r.outputs[0].asserts, vec!["jsonpath \"$\" isCollection", "#jsonpath \"$.b\" isCollection"]);
    assert_eq!(r.outputs[0].request_body_parameter, "{\n  \"b\": {}\n}");
    assert_eq!(r.diagnostics.len(), 2);
    assert!(matches!(&r.diagnostics[0], HeaveError::RequestBodySchemaCycleDetected { jsonpath, .. } if jsonpath == "$.b.a"));
    assert!(matches!(&r.diagnostics[1], HeaveError::ResponseBodySchemaCycleDetected { jsonpath, .. } if jsonpath == "$.b.a"));
}

#[test]
fn allof_inputs() {
    let named = schemas(vec![
        ("Base", item(object(vec![("id", item(schema(SchemaKind::Integer))), ("kind", item(schema(SchemaKind::String)))], &["id"]))),
        ("Extra", item(object(vec![("kind", item(schema(SchemaKind::Boolean))), ("size", item(schema(SchemaKind::Number)))], &["kind"]))),
    ]);
    let all = schema(SchemaKind::AllOf(vec![reference("#/components/schemas/Base"), reference("#/components/schemas/Extra")]));
    let v = body_value(item(all), Some(named));
    assert_eq!(v, serde_json::from_str::<serde_json::Value>("{\"id\": 0, \"kind\": false, \"size\": 0}").unwrap());

    let named = schemas(vec![
        ("Base", item(object(vec![("id", item(schema(SchemaKind::Integer))), ("kind", item(schema(SchemaKind::String)))], &["id"]))),
        ("Extra", item(object(vec![("kind", item(schema(SchemaKind::String))), ("size", item(schema(SchemaKind::Number)))], &["kind"]))),
    ]);
    let all = schema(SchemaKind::AllOf(vec![reference("#/components/schemas/Base"), reference("#/components/schemas/Extra")]));
    let doc = document(
        Some(named),
        vec![operation("/all", Method::Get, Some("all"), vec![], None, vec![ok_response(item(all))])],
    );
    assert_eq!(
        asserts_of(&doc),
        vec![
            "jsonpath \"$\" isCollection",
            "jsonpath \"$.id\" isInteger",
            "#jsonpath \"$.kind\" isString",
            "jsonpath \"$.kind\" isString",
            "#jsonpath \"$.size\" isNumber",
        ]
    );
}

#[test]
fn allof_disjoint_objects_union() {
    let left = object(vec![("a", item(schema(SchemaKind::Integer)))], &[]);
    let right = object(vec![("b", item(schema(SchemaKind::String)))], &[]);
    let v = body_value(item(schema(SchemaKind::AllOf(vec![item(left), item(right)]))), None);
    assert_eq!(v, serde_json::from_str::<serde_json::Value>("{\"a\": 0, \"b\": \"\"}").unwrap());
}

#[test]
fn allof_of_two_primitives_fails_loudly() {
    let doc = document(
        None,
        vec![operation(
            "/bad",
            Method::Put,
            Some("bad"),
            vec![],
            Some(ReferenceOr::Item(RequestBody {
                content: json(item(schema(SchemaKind::AllOf(vec![
                    item(schema(SchemaKind::String)),
                    item(schema(SchemaKind::Integer)),
                ])))),
            })),
            vec![ok_response(item(schema(SchemaKind::String)))],
        )],
    );
    match generate(&doc) {
        Err(GenerateError::MalformedRequestBody { context }) => assert_eq!(context.operation, "bad"),
        Ok(_) => panic!("expected a failure"),
    }
}

#[test]
fn property_names_with_reserved_characters_are_subscripted() {
    let doc = document(
        None,
        vec![operation(
            "/odd",
            Method::Get,
            Some("odd"),
            vec![],
            None,
            vec![ok_response(item(object(vec![("@type", item(schema(SchemaKind::String)))], &["@type"])))],
        )],
    );
    assert_eq!(asserts_of(&doc), vec!["jsonpath \"$\" isCollection", "jsonpath \"$['@type']\" isString"]);
}

#[test]
fn unsupported_kinds_are_diagnosed() {
    let kinds = vec![
        (SchemaKind::OneOf, UnsupportedKind::OneOf),
        (SchemaKind::AnyOf, UnsupportedKind::AnyOf),
        (SchemaKind::Not, UnsupportedKind::Not),
        (SchemaKind::Any, UnsupportedKind::Any),
    ];
    for (kind, expected) in kinds {
        let doc = document(
            None,
            vec![operation(
                "/u",
                Method::Get,
                Some("u"),
                vec![],
                None,
                vec![ok_response(item(object(vec![("v", item(schema(kind)))], &[])))],
            )],
        );
        let r = run(&doc);
        assert_eq!(r.outputs[0].asserts, vec!["jsonpath \"$\" isCollection"]);
        assert_eq!(r.diagnostics.len(), 1);
        assert!(matches!(&r.diagnostics[0], HeaveError::UnsupportedSchemaKind { kind, jsonpath, .. }
            if *kind == expected && jsonpath == "$.v"));
    }
}

#[test]
fn diagnostic_inputs() {
    let doc = document(
        None,
        vec![operation(
            "/d",
            Method::Delete,
            Some("d"),
            vec![reference("#/components/parameters/Limit"), reference("#/wrong/Limit")],
            Some(reference("#/components/requestBodies/Body")),
            vec![ok_response(reference("#/components/schemas/Thing"))],
        )],
    );
    let r = run(&doc);
    assert!(r.outputs.is_empty());
    assert_eq!(r.diagnostics.len(), 4);
    assert!(matches!(&r.diagnostics[0], HeaveError::MissingComponents));
    assert!(matches!(&r.diagnostics[1], HeaveError::MalformedParameterReference { reference, .. } if reference == "#/wrong/Limit"));
    assert!(matches!(&r.diagnostics[2], HeaveError::MissingComponents));
    assert!(matches!(&r.diagnostics[3], HeaveError::MissingComponents));

    let mut components = schemas(vec![("Chained", reference("#/components/schemas/Other"))]);
    components.parameters = vec![("Indirect".to_string(), reference("#/components/parameters/Other"))];
    components.request_bodies = vec![("Chained".to_string(), reference("#/components/requestBodies/Other"))];
    components.responses = vec![("Chained".to_string(), reference("#/components/responses/Other"))];
    let doc = document(
        Some(components),
        vec![operation(
            "/e",
            Method::Patch,
            Some("e"),
            vec![reference("#/components/parameters/Indirect"), reference("#/components/parameters/Nope")],
            Some(reference("#/components/requestBodies/Chained")),
            vec![
                (StatusCode::Code(200), reference("#/components/responses/Chained")),
                (StatusCode::Code(201), reference("#/components/responses/Nope")),
                (StatusCode::Code(202), reference("#/elsewhere/Nope")),
                (StatusCode::Code(203), ReferenceOr::Item(Response {
                    content: vec![("application/json".to_string(), MediaType { schema: None })],
                })),
                (StatusCode::Code(204), ReferenceOr::Item(Response { content: json(reference("#/components/schemas/Chained")) })),
                (StatusCode::Code(205), ReferenceOr::Item(Response { content: json(reference("#/other/Chained")) })),
            ],
        )],
    );
    let r = run(&doc);
    assert!(r.outputs.is_empty());
    assert_eq!(r.diagnostics.len(), 8);
    assert!(matches!(&r.diagnostics[0], HeaveError::MissingParameterReference { reference, .. } if reference == "#/components/parameters/Nope"));
    assert!(matches!(&r.diagnostics[1], HeaveError::FailedRequestBodyDereference { .. }));
    assert!(matches!(&r.diagnostics[2], HeaveError::FailedResponseBodyDereference { .. }));
    assert!(matches!(&r.diagnostics[3], HeaveError::MissingResponseBodyReference { .. }));
    assert!(matches!(&r.diagnostics[4], HeaveError::MalformedResponseBodyReference { .. }));
    assert!(matches!(&r.diagnostics[5], HeaveError::MissingSchemaDefinitionForMediaType { .. }));
    assert!(matches!(&r.diagnostics[6], HeaveError::FailedSchemaDereference { .. }));
    assert!(matches!(&r.diagnostics[7], HeaveError::MalformedSchemaReference { reference, .. } if reference == "#/other/Chained"));
}

#[test]
fn more_diagnostics() {
    let doc = document(
        Some(schemas(vec![])),
        vec![operation(
            "/f",
            Method::Post,
            Some("f"),
            vec![],
            Some(reference("#/bodies/B")),
            vec![(StatusCode::Code(200), ReferenceOr::Item(Response { content: json(reference("#/other/Chained")) }))],
        )],
    );
    let r = run(&doc);
    assert_eq!(r.diagnostics.len(), 2);
    assert!(matches!(&r.diagnostics[0], HeaveError::MalformedRequestBodyReference { .. }));
    assert!(matches!(&r.diagnostics[1], HeaveError::MalformedSchemaReference { .. }));

    let doc = document(
        Some(schemas(vec![])),
        vec![operation(
            "/g",
            Method::Post,
            Some("g"),
            vec![],
            Some(reference("#/components/requestBodies/None")),
            vec![],
        )],
    );
    let r = run(&doc);
    assert_eq!(r.diagnostics.len(), 1);
    assert!(matches!(&r.diagnostics[0], HeaveError::MissingRequestBodyReference { .. }));

    let doc = document(
        None,
        vec![operation(
            "/h",
            Method::Post,
            Some("h"),
            vec![],
            Some(ReferenceOr::Item(RequestBody {
                content: vec![("text/plain".to_string(), MediaType { schema: None })],
            })),
            vec![],
        )],
    );
    let r = run(&doc);
    assert_eq!(r.diagnostics.len(), 1);
    assert!(matches!(&r.diagnostics[0], HeaveError::MissingApplicationJsonRequestBodyMediaType { .. }));
}

#[test]
fn repeated_assertions_are_removed() {
    let shared = object(vec![("id", item(schema(SchemaKind::Integer)))], &["id"]);
    let all = schema(SchemaKind::AllOf(vec![reference("#/components/schemas/Shared"), reference("#/components/schemas/Shared")]));
    let doc = document(
        Some(schemas(vec![("Shared", item(shared))])),
        vec![operation("/s", Method::Get, Some("s"), vec![], None, vec![ok_response(item(all))])],
    );
    assert_eq!(asserts_of(&doc), vec!["jsonpath \"$\" isCollection", "jsonpath \"$.id\" isInteger"]);
}

#[test]
fn record_names_carry_the_status_code() {
    let doc = document(
        None,
        vec![operation(
            "/a/b",
            Method::Options,
            None,
            vec![],
            None,
            vec![(StatusCode::Code(404), ReferenceOr::Item(Response { content: json(item(schema(SchemaKind::Boolean))) }))],
        )],
    );
    let r = run(&doc);
    assert_eq!(r.outputs[0].name, "options__a_b_404.hurl");
    assert_eq!(r.outputs[0].method, "OPTIONS");
    assert_eq!(r.outputs[0].asserts, vec!["jsonpath \"$\" isBoolean"]);
}

#[test]
fn input_extensions() {
    assert_eq!(heave::InputSpecExtension::from_extension("json"), Some(heave::InputSpecExtension::Json));
    assert_eq!(heave::InputSpecExtension::from_extension("yaml"), Some(heave::InputSpecExtension::Yaml));
    assert_eq!(heave::InputSpecExtension::from_extension("yml"), None);
    assert_eq!(heave::InputSpecExtension::from_extension("json5"), None);
}

#[test]
fn empty_document_gives_nothing() {
    let r = run(&document(None, vec![]));
    assert!(r.outputs.is_empty());
    assert!(r.diagnostics.is_empty());
}

#[test]
fn array_without_items() {
    let bare = schema(SchemaKind::Array(None));
    let doc = document(
        None,
        vec![operation(
            "/list",
            Method::Post,
            Some("list"),
            vec![],
            Some(ReferenceOr::Item(RequestBody { content: json(item(schema(SchemaKind::Array(None)))) })),
            vec![ok_response(item(bare))],
        )],
    );
    let r = run(&doc);
    assert_eq!(r.outputs[0].asserts, vec!["jsonpath \"$\" isCollection"]);
    assert_eq!(r.outputs[0].request_body_parameter, "");
    assert!(r.diagnostics.is_empty());
}

#[test]
fn array_body_wraps_its_element() {
    let v = body_value(item(array(item(object(vec![("n", item(schema(SchemaKind::Integer)))], &[])))), None);
    assert_eq!(v, serde_json::from_str::<serde_json::Value>("[{\"n\": 0}]").unwrap());
}
