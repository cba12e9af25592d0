//! The protocol layer: update validation, content negotiation, request
//! parameters, the store target, and the streaming buffer.

use de::negotiate::{
    query_results_content_negotiation, rdf_content_negotiation, QueryResultsFormatKind,
    RdfFormatKind,
};
use de::serve::{
    gather_protocol_params, group_insert_targets, parse_and_validate_update, route, store_target,
    validate_update, NamedGraphName, ReadForWrite, Route, UpdateOp,
};
use de::rdf2hdt::{NoopRdf2Hdt, Rdf2Hdt};
use de::sparql::AggregateHdt;
use std::io::Write;

fn empty_registry() -> AggregateHdt {
    let dir = tempfile::tempdir().expect("tempdir");
    let h = hdt::Hdt::from_triples(
        vec![["http://example.org/X", "http://example.org/color", "\"yellow\""]],
        "http://example.org/",
    )
    .expect("store");
    let path = dir.path().join("seed.hdt");
    let tmp = tempfile::Builder::new()
        .tempfile_in(dir.path())
        .expect("tempfile")
        .persist(&path)
        .expect("persist");
    let mut w = std::io::BufWriter::new(tmp);
    h.write(&mut w).expect("write");
    w.flush().expect("flush");
    // Leak the directory so the backing file outlives the registry.
    let path_str = path.to_str().expect("utf-8").to_string();
    std::mem::forget(dir);
    AggregateHdt::new(&vec![path_str]).expect("registry")
}

#[test]
fn insert_data_to_new_graph_is_accepted_then_rejected() {
    let mut reg = empty_registry();
    let update = "INSERT DATA { GRAPH <http://example.org/new> { <http://example.org/a> <http://example.org/b> \"c\" } }";
    let base = "http://example.com/";

    let ops = parse_and_validate_update(&reg, update, base).expect("first insert should pass");
    assert_eq!(ops.len(), 1);

    // Registering the graph (as executing the insert would) makes the
    // identical request fail with 400.
    let seed_path = reg.entries[0].1.clone();
    reg.insert_named_graph(&"http://example.org/new".to_string(), &seed_path)
        .expect("register");
    match parse_and_validate_update(&reg, update, base) {
        Err((status, msg)) => {
            assert_eq!(status, 400);
            assert!(msg.contains("already exists"));
        }
        Ok(_) => panic!("second identical insert must be rejected"),
    }
}

#[test]
fn test_update_delete_data_forbidden() {
    let reg = empty_registry();
    let update = "DELETE DATA { <http://example.org/a> <http://example.org/b> \"c\" }";
    match parse_and_validate_update(&reg, update, "http://example.com/") {
        Err((status, msg)) => {
            assert_eq!(status, 403);
            assert!(msg.contains("not allowed"));
        }
        Ok(_) => panic!("DELETE DATA must be rejected"),
    }
}

#[test]
fn delete_data_rejected_regardless_of_other_operations() {
    let reg = empty_registry();
    let ops = vec![
        UpdateOp::Create { graph: "http://example.org/fresh".to_string(), silent: false },
        UpdateOp::DeleteData,
    ];
    match validate_update(&reg, &ops) {
        Err((status, _)) => assert_eq!(status, 403),
        Ok(_) => panic!("batch with DELETE DATA must fail"),
    }
}

#[test]
fn clear_drop_and_delete_insert_are_forbidden() {
    let reg = empty_registry();
    for op in [UpdateOp::Clear, UpdateOp::Drop, UpdateOp::DeleteInsert] {
        let ops = vec![op];
        match validate_update(&reg, &ops) {
            Err((status, msg)) => {
                assert_eq!(status, 403);
                assert!(msg.contains("not allowed"));
            }
            Ok(_) => panic!("mutating operation must fail"),
        }
    }
}

#[test]
fn insert_data_to_default_graph_is_rejected() {
    let reg = empty_registry();
    let ops = vec![UpdateOp::InsertData { graphs: vec![None] }];
    match validate_update(&reg, &ops) {
        Err((status, msg)) => {
            assert_eq!(status, 400);
            assert!(msg.contains("default graph"));
        }
        Ok(_) => panic!("default-graph insert must fail"),
    }
}

#[test]
fn create_existing_graph_needs_silent() {
    let reg = empty_registry();
    let existing = reg.entries[0].0.clone();
    let loud = vec![UpdateOp::Create { graph: existing.clone(), silent: false }];
    assert!(validate_update(&reg, &loud).is_err());
    let silent = vec![UpdateOp::Create { graph: existing, silent: true }];
    assert!(validate_update(&reg, &silent).is_ok());
}

#[test]
fn grouping_collects_indices_per_graph() {
    let graphs = vec![
        Some("http://example.org/a".to_string()),
        Some("http://example.org/b".to_string()),
        Some("http://example.org/a".to_string()),
    ];
    let groups = group_insert_targets(&graphs);
    assert_eq!(groups.len(), 2);
    assert_eq!(groups[0].0, "http://example.org/a");
    assert_eq!(groups[0].1, vec![0usize, 2]);
    assert_eq!(groups[1].0, "http://example.org/b");
    assert_eq!(groups[1].1, vec![1usize]);
}

#[test]
fn negotiation_picks_best_weighted_format() {
    assert_eq!(
        query_results_content_negotiation("application/sparql-results+json").unwrap(),
        QueryResultsFormatKind::Json
    );
    assert_eq!(
        query_results_content_negotiation("text/csv").unwrap(),
        QueryResultsFormatKind::Csv
    );
    assert_eq!(
        query_results_content_negotiation("text/csv;q=0.5, application/sparql-results+xml")
            .unwrap(),
        QueryResultsFormatKind::Xml
    );
    // No Accept header: the endpoint's default for tabular results is CSV.
    assert_eq!(
        query_results_content_negotiation("").unwrap(),
        QueryResultsFormatKind::Csv
    );
    assert_eq!(
        query_results_content_negotiation("*/*").unwrap(),
        QueryResultsFormatKind::Json
    );
    match query_results_content_negotiation("application/pdf") {
        Err(de::errors::StoreError::NotAcceptable(_)) => {}
        _ => panic!("an unusable offer is not acceptable"),
    }
    match query_results_content_negotiation("nonsense") {
        Err(de::errors::StoreError::ParseError(_)) => {}
        _ => panic!("a range without a slash is malformed"),
    }
    match query_results_content_negotiation("text/csv;q=banana") {
        Err(de::errors::StoreError::ParseError(_)) => {}
        _ => panic!("a malformed weight is rejected"),
    }

    assert_eq!(rdf_content_negotiation("").unwrap(), RdfFormatKind::NQuads);
    assert_eq!(rdf_content_negotiation("text/turtle").unwrap(), RdfFormatKind::Turtle);
    assert_eq!(
        rdf_content_negotiation("application/n-quads").unwrap(),
        RdfFormatKind::NQuads
    );
    assert_eq!(rdf_content_negotiation("text/*").unwrap(), RdfFormatKind::NQuads);
    assert_eq!(
        rdf_content_negotiation("application/rdf+xml;q=0.9,text/turtle;q=0.2").unwrap(),
        RdfFormatKind::RdfXml
    );
}

#[test]
fn results_json_body_contains_results_key_and_csv_starts_with_variables() {
    // A row-producing result serialized in the negotiated JSON format.
    let format = query_results_content_negotiation("application/sparql-results+json").unwrap();
    assert_eq!(format, QueryResultsFormatKind::Json);
    let vars = vec![oxrdf::Variable::new("fruit").unwrap()];
    let mut buf: Vec<u8> = Vec::new();
    let mut ser = sparesults::QueryResultsSerializer::from_format(
        sparesults::QueryResultsFormat::Json,
    )
    .serialize_solutions_to_writer(&mut buf, vars.clone())
    .unwrap();
    let solution = sparesults::QuerySolution::from((
        vars,
        vec![Some(oxrdf::Term::from(oxrdf::NamedNode::new("http://example.org/Banana").unwrap()))],
    ));
    ser.serialize(&solution).unwrap();
    ser.finish().unwrap();
    let body = String::from_utf8(buf).unwrap();
    assert!(body.contains("\"results\""));

    // The CSV serialization starts with the comma-joined variable names.
    let vars2 = vec![
        oxrdf::Variable::new("fruit").unwrap(),
        oxrdf::Variable::new("color").unwrap(),
    ];
    let mut buf2: Vec<u8> = Vec::new();
    let ser2 = sparesults::QueryResultsSerializer::from_format(
        sparesults::QueryResultsFormat::Csv,
    )
    .serialize_solutions_to_writer(&mut buf2, vars2)
    .unwrap();
    ser2.finish().unwrap();
    let body2 = String::from_utf8(buf2).unwrap();
    assert!(body2.starts_with("fruit,color"));
}

#[test]
fn default_cli_output_is_csv() {
    let out = de::query::DeOutput::default();
    assert_eq!(de::query::results_format_for(&out), Some(QueryResultsFormatKind::Csv));
    assert_eq!(de::query::rdf_format_for(&out), None);
    assert_eq!(
        de::query::rdf_format_for(&de::query::DeOutput::TURTLE),
        Some(RdfFormatKind::Turtle)
    );
}

#[test]
fn media_types_of_formats() {
    assert_eq!(
        QueryResultsFormatKind::Json.media_type(),
        "application/sparql-results+json"
    );
    assert_eq!(QueryResultsFormatKind::Csv.media_type(), "text/csv; charset=utf-8");
    assert_eq!(RdfFormatKind::NQuads.media_type(), "application/n-quads");
    assert_eq!(RdfFormatKind::Turtle.media_type(), "text/turtle");
}

#[test]
fn routing_matches_paths_and_methods() {
    assert!(matches!(route("/", "GET"), Route::RootPage { head: false }));
    assert!(matches!(route("/", "HEAD"), Route::RootPage { head: true }));
    assert!(matches!(route("/query", "GET"), Route::QueryGet));
    assert!(matches!(route("/query", "POST"), Route::QueryPost));
    assert!(matches!(route("/update", "POST"), Route::UpdatePost));
    assert!(matches!(route("/store", "PUT"), Route::StorePut));
    assert!(matches!(route("/store?graph=x", "GET"), Route::StoreGet));
    assert!(matches!(route("/store/sub", "HEAD"), Route::StoreHead));
    assert!(matches!(route("/query", "PUT"), Route::NotFound));
    assert!(matches!(route("/elsewhere", "GET"), Route::NotFound));
}

#[test]
fn gather_params_requires_exactly_one_source() {
    let pairs = vec![("query".to_string(), "SELECT * WHERE {}".to_string())];
    let p = gather_protocol_params(
        &pairs,
        None,
        "query",
        "default-graph-uri",
        "union-default-graph",
        "named-graph-uri",
        true,
    )
    .expect("one source");
    assert_eq!(p.text, "SELECT * WHERE {}");
    assert!(p.use_default_graph_as_union);

    let twice = vec![
        ("query".to_string(), "a".to_string()),
        ("query".to_string(), "b".to_string()),
    ];
    let r = gather_protocol_params(
        &twice,
        None,
        "query",
        "default-graph-uri",
        "union-default-graph",
        "named-graph-uri",
        false,
    );
    match r {
        Err((status, msg)) => {
            assert_eq!(status, 400);
            assert!(msg.contains("Multiple"));
        }
        Ok(_) => panic!("two query parameters must fail"),
    }

    let none: Vec<(String, String)> = Vec::new();
    assert!(gather_protocol_params(
        &none,
        None,
        "query",
        "default-graph-uri",
        "union-default-graph",
        "named-graph-uri",
        false,
    )
    .is_err());

    let body_and_param = vec![("update".to_string(), "x".to_string())];
    assert!(gather_protocol_params(
        &body_and_param,
        Some("body update".to_string()),
        "update",
        "using-graph-uri",
        "using-union-graph",
        "using-named-graph-uri",
        false,
    )
    .is_err());
}

#[test]
fn gather_params_collects_graph_uris_in_order() {
    let pairs = vec![
        ("default-graph-uri".to_string(), "http://example.org/g1".to_string()),
        ("query".to_string(), "ASK {}".to_string()),
        ("default-graph-uri".to_string(), "http://example.org/g2".to_string()),
        ("named-graph-uri".to_string(), "http://example.org/n1".to_string()),
    ];
    let p = gather_protocol_params(
        &pairs,
        None,
        "query",
        "default-graph-uri",
        "union-default-graph",
        "named-graph-uri",
        true,
    )
    .expect("params");
    assert_eq!(
        p.default_graph_uris,
        vec!["http://example.org/g1".to_string(), "http://example.org/g2".to_string()]
    );
    assert_eq!(p.named_graph_uris, vec!["http://example.org/n1".to_string()]);
    assert!(!p.use_default_graph_as_union, "explicit selection disables the fallback");
}

#[test]
fn store_target_decides_between_graph_default_and_dataset() {
    let base = "http://localhost/store".to_string();
    let path = "/store".to_string();

    let both = vec![
        ("graph".to_string(), "http://example.org/g".to_string()),
        ("default".to_string(), "".to_string()),
    ];
    match store_target(&path, &both, &base) {
        Err((status, _)) => assert_eq!(status, 400),
        Ok(_) => panic!("graph and default together must fail"),
    }

    let graph_only = vec![("graph".to_string(), "http://example.org/g".to_string())];
    match store_target(&path, &graph_only, &base).unwrap() {
        Some(NamedGraphName::NamedNode(n)) => assert_eq!(n, "http://example.org/g"),
        _ => panic!("expected a named graph"),
    }

    let relative = vec![("graph".to_string(), "banana".to_string())];
    match store_target(&path, &relative, &base).unwrap() {
        Some(NamedGraphName::NamedNode(n)) => assert_eq!(n, "http://localhost/banana"),
        _ => panic!("expected resolution against the base"),
    }

    let default_only = vec![("default".to_string(), "".to_string())];
    assert!(matches!(
        store_target(&path, &default_only, &base).unwrap(),
        Some(NamedGraphName::DefaultGraph)
    ));

    let neither: Vec<(String, String)> = Vec::new();
    assert!(store_target(&path, &neither, &base).unwrap().is_none());
}

#[test]
fn streaming_buffer_hands_bytes_out_in_order() {
    let mut rfw = ReadForWrite::new();
    assert!(rfw.needs_data());
    rfw.supply(vec![1u8, 2, 3, 4, 5]);
    assert!(!rfw.needs_data());
    let first = rfw.read_into(2);
    assert_eq!(first, vec![1u8, 2]);
    let second = rfw.read_into(10);
    assert_eq!(second, vec![3u8, 4, 5]);
    assert!(rfw.needs_data());
    rfw.supply(vec![6u8]);
    assert_eq!(rfw.read_into(10), vec![6u8]);
    rfw.finish();
    assert!(!rfw.needs_data());
    assert_eq!(rfw.read_into(10), Vec::<u8>::new());
}

#[test]
fn service_description_states_the_endpoint_and_language() {
    let endpoint = "http://localhost/query".to_string();
    let triples =
        de::serve::generate_service_description(&de::serve::EndpointKind::Query, &endpoint, true);
    assert_eq!(triples.len(), 4);
    assert_eq!(triples[0].subject, "http://localhost/query");
    assert_eq!(
        triples[0].predicate,
        "http://www.w3.org/1999/02/22-rdf-syntax-ns#type"
    );
    assert_eq!(
        triples[0].object,
        "http://www.w3.org/ns/sparql-service-description#Service"
    );
    assert_eq!(triples[1].object, "http://localhost/query");
    assert_eq!(
        triples[2].object,
        "http://www.w3.org/ns/sparql-service-description#SPARQL11Query"
    );
    assert_eq!(
        triples[3].object,
        "http://www.w3.org/ns/sparql-service-description#UnionDefaultGraph"
    );

    let update = de::serve::generate_service_description(
        &de::serve::EndpointKind::Update,
        &"http://localhost/update".to_string(),
        false,
    );
    assert_eq!(update.len(), 3);
    assert_eq!(
        update[2].object,
        "http://www.w3.org/ns/sparql-service-description#SPARQL11Update"
    );
}

#[test]
fn noop_converter_accepts_only_existing_native_files() {
    let dir = tempfile::tempdir().expect("tempdir");
    let hdt_path = dir.path().join("ready.hdt");
    let ttl_path = dir.path().join("plain.ttl");
    for p in [&hdt_path, &ttl_path] {
        tempfile::Builder::new()
            .tempfile_in(dir.path())
            .expect("tempfile")
            .persist(p)
            .expect("persist");
    }
    let noop = NoopRdf2Hdt();
    let dest = "unused".to_string();
    assert!(noop.convert(&hdt_path.to_str().unwrap().to_string(), &dest).is_ok());
    match noop.convert(&ttl_path.to_str().unwrap().to_string(), &dest) {
        Err(de::errors::StoreError::UnsupportedFormat(_)) => {}
        _ => panic!("a non-native file must be refused"),
    }
    match noop.convert(&"missing/nothing.hdt".to_string(), &dest) {
        Err(de::errors::StoreError::UnsupportedFormat(_)) => {}
        _ => panic!("a missing file must be refused"),
    }
}

#[test]
fn error_helpers_carry_their_statuses() {
    assert_eq!(de::serve::bad_request("oops".to_string()), (400, "oops".to_string()));
    assert_eq!(de::serve::the_server_is_read_only().0, 403);
    assert_eq!(de::serve::unsupported_media_type(&"application/json".to_string()).0, 415);
    assert_eq!(de::serve::internal_server_error("x".to_string()).0, 500);
    assert_eq!(de::serve::base_url(&"http://h/query?query=1".to_string()), "http://h/query");
    assert_eq!(de::serve::base_url(&"http://h/query".to_string()), "http://h/query");
}
