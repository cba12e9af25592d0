//! Registry, snapshot and lookup behaviour, exercised against real
//! in-memory and on-disk stores.

use de::sparql::{AggregateHdt, AggregateHdtSnapshot};
use std::io::Write;

fn sample_hdt(subject: &str, object: &str) -> hdt::Hdt {
    hdt::Hdt::from_triples(
        vec![
            [subject, "http://example.org/color", object],
            [subject, "http://example.org/kind", "\"thing\""],
        ],
        "http://example.org/",
    )
    .expect("failed to build in-memory store")
}

fn write_hdt_file(h: &hdt::Hdt, dir: &tempfile::TempDir, name: &str) -> String {
    let path = dir.path().join(name);
    let tmp = tempfile::Builder::new()
        .tempfile_in(dir.path())
        .expect("tempfile")
        .persist(&path)
        .expect("persist");
    let mut w = std::io::BufWriter::new(tmp);
    h.write(&mut w).expect("failed to write store file");
    w.flush().expect("flush");
    path.to_str().expect("utf-8 path").to_string()
}

#[test]
fn test_contains_named_graph_found() {
    let h = sample_hdt("http://example.org/X", "\"yellow\"");
    let store = AggregateHdtSnapshot::from_stores(vec![("file:///test.hdt".to_string(), h)])
        .expect("Failed to create AggregateHDT");

    let graph_name = "file:///test.hdt".to_string();
    let result = store.contains_internal_graph_name(&graph_name);
    assert!(result.is_ok(), "contains_named_graph should not return error");
    assert!(
        result.unwrap(),
        "Graph 'file:///test.hdt' should be found in the store"
    );
}

#[test]
fn test_contains_named_graph_not_found() {
    let h = sample_hdt("http://example.org/X", "\"yellow\"");
    let store = AggregateHdtSnapshot::from_stores(vec![("file:///test.hdt".to_string(), h)])
        .expect("Failed to create AggregateHDT");

    let missing_graph = "file:///nonexistent.hdt".to_string();
    let result = store.contains_internal_graph_name(&missing_graph);
    assert!(result.is_ok(), "contains_named_graph should not return error");
    assert!(
        !result.unwrap(),
        "Graph 'file:///nonexistent.hdt' should not be found"
    );

    let http_graph = "http://example.org/test.hdt".to_string();
    let result_http = store.contains_internal_graph_name(&http_graph);
    assert!(result_http.is_ok(), "contains_named_graph should not return error");
    assert!(
        !result_http.unwrap(),
        "Graph with http:// scheme should not be found (only file:// supported)"
    );

    let wrong_stem = "file:///different".to_string();
    let result_wrong = store.contains_internal_graph_name(&wrong_stem);
    assert!(result_wrong.is_ok(), "contains_named_graph should not return error");
    assert!(
        !result_wrong.unwrap(),
        "Graph 'file:///different' should not be found"
    );
}

#[test]
fn test_contains_named_graph_multiple_graphs() {
    let h1 = sample_hdt("http://example.org/X", "\"yellow\"");
    let h2 = sample_hdt("http://example.org/Y", "\"lit\"");
    let store = AggregateHdtSnapshot::from_stores(vec![
        ("file:///test.hdt".to_string(), h1),
        ("file:///literal.hdt".to_string(), h2),
    ])
    .expect("Failed to create AggregateHDT with multiple files");

    let graph1 = "file:///test.hdt".to_string();
    assert!(
        store.contains_internal_graph_name(&graph1).unwrap(),
        "First graph 'test' should be found"
    );

    let graph2 = "file:///literal.hdt".to_string();
    assert!(
        store.contains_internal_graph_name(&graph2).unwrap(),
        "Second graph 'literal' should be found"
    );

    let missing = "file:///missing.hdt".to_string();
    assert!(
        !store.contains_internal_graph_name(&missing).unwrap(),
        "Non-existent graph should not be found"
    );
}

#[test]
fn test_contains_named_graph_after_insert() {
    let dir = tempfile::tempdir().expect("tempdir");
    let h = sample_hdt("http://example.org/X", "\"yellow\"");
    let test_hdt_path = write_hdt_file(&h, &dir, "test.hdt");

    let mut store =
        AggregateHdt::new(&vec![test_hdt_path.clone()]).expect("Failed to create AggregateHDT");
    let snapshot = store.get_snapshot(None).expect("msg");

    let existing_graph = "file:///test.hdt".to_string();
    assert!(
        snapshot.contains_internal_graph_name(&existing_graph).unwrap(),
        "Initial graph should exist"
    );

    let new_graph = "http://example.org/newgraph".to_string();
    assert!(
        !snapshot.contains_internal_graph_name(&new_graph).unwrap(),
        "New graph should not exist before insertion"
    );

    store
        .insert_named_graph(&new_graph, &test_hdt_path)
        .expect("Failed to insert named graph");

    let snapshot2 = store.get_snapshot(None).expect("msg");
    assert!(
        snapshot2.contains_internal_graph_name(&new_graph).unwrap(),
        "New graph should exist after insertion"
    );
}

#[test]
fn snapshot_of_all_registered_graphs_exposes_each_once() {
    let dir = tempfile::tempdir().expect("tempdir");
    let h1 = sample_hdt("http://example.org/X", "\"yellow\"");
    let h2 = sample_hdt("http://example.org/Y", "\"blue\"");
    let p1 = write_hdt_file(&h1, &dir, "one.hdt");
    let p2 = write_hdt_file(&h2, &dir, "two.hdt");

    let store = AggregateHdt::new(&vec![p1, p2]).expect("registry");
    let snapshot = store.get_snapshot(None).expect("snapshot");
    let mut names = snapshot.internal_named_graphs();
    names.sort();
    assert_eq!(
        names,
        vec!["file:///one.hdt".to_string(), "file:///two.hdt".to_string()]
    );
}

#[test]
fn contains_tracks_insert_and_remove() {
    let dir = tempfile::tempdir().expect("tempdir");
    let h = sample_hdt("http://example.org/X", "\"yellow\"");
    let path = write_hdt_file(&h, &dir, "only.hdt");

    let mut store = AggregateHdt::new(&vec![path.clone()]).expect("registry");
    let g = "http://example.org/extra".to_string();
    assert!(!store.contains_graph_name(&g).unwrap());
    store.insert_named_graph(&g, &path).expect("insert");
    assert!(store.contains_graph_name(&g).unwrap());
    let removed = store.remove_named_graph(&g);
    assert_eq!(removed, Some(path.clone()));
    assert!(!store.contains_graph_name(&g).unwrap());
    assert_eq!(store.remove_named_graph(&g), None);

    store.clear().expect("clear");
    let seeded = "file:///only.hdt".to_string();
    assert!(!store.contains_graph_name(&seeded).unwrap());
}

#[test]
fn unbound_lookup_returns_tagged_union_of_both_stores() {
    let h1 = sample_hdt("http://example.org/X", "\"yellow\"");
    let h2 = sample_hdt("http://example.org/X", "\"yellow\"");
    let snapshot = AggregateHdtSnapshot::from_stores(vec![
        ("file:///a.hdt".to_string(), h1),
        ("file:///b.hdt".to_string(), h2),
    ])
    .expect("snapshot");

    let quads = snapshot.internal_quads_for_pattern(None, None, None, None);
    assert_eq!(quads.len(), 4, "two triples per store, tagged");
    let from_a = quads.iter().filter(|q| q.graph == "file:///a.hdt").count();
    let from_b = quads.iter().filter(|q| q.graph == "file:///b.hdt").count();
    assert_eq!(from_a, 2);
    assert_eq!(from_b, 2);
    for q in &quads {
        assert_eq!(q.subject, "http://example.org/X");
    }
}

#[test]
fn federated_pattern_query_for_color_yellow_returns_one_row_per_graph() {
    let dir = tempfile::tempdir().expect("tempdir");
    let h1 = sample_hdt("http://example.org/X", "\"yellow\"");
    let h2 = sample_hdt("http://example.org/X", "\"yellow\"");
    let p1 = write_hdt_file(&h1, &dir, "s1.hdt");
    let p2 = write_hdt_file(&h2, &dir, "s2.hdt");
    let store = AggregateHdt::new(&vec![p1, p2]).expect("registry");
    let snapshot = store.get_snapshot(None).expect("snapshot");

    let predicate = "http://example.org/color".to_string();
    let object = "\"yellow\"".to_string();
    let quads =
        snapshot.internal_quads_for_pattern(None, Some(&predicate), Some(&object), None);
    assert_eq!(quads.len(), 2, "two solution rows, one per graph");
    let mut graphs: Vec<String> = quads.iter().map(|q| q.graph.clone()).collect();
    graphs.sort();
    assert_eq!(
        graphs,
        vec!["file:///s1.hdt".to_string(), "file:///s2.hdt".to_string()]
    );

    let other = "\"green\"".to_string();
    let none = snapshot.internal_quads_for_pattern(None, Some(&predicate), Some(&other), None);
    assert_eq!(none.len(), 0);
}

#[test]
fn exact_graph_scope_selects_one_store() {
    let h1 = sample_hdt("http://example.org/X", "\"yellow\"");
    let h2 = sample_hdt("http://example.org/Y", "\"blue\"");
    let snapshot = AggregateHdtSnapshot::from_stores(vec![
        ("file:///a.hdt".to_string(), h1),
        ("file:///b.hdt".to_string(), h2),
    ])
    .expect("snapshot");

    let target = "file:///b.hdt".to_string();
    let predicate = "http://example.org/color".to_string();
    let quads =
        snapshot.internal_quads_for_pattern(None, Some(&predicate), None, Some(Some(&target)));
    assert_eq!(quads.len(), 1);
    assert_eq!(quads[0].graph, "file:///b.hdt");
    assert_eq!(quads[0].subject, "http://example.org/Y");
    assert_eq!(quads[0].object, "\"blue\"");
}

#[test]
fn registry_rejects_missing_and_empty_inputs() {
    let r = AggregateHdt::new(&vec![]);
    assert!(r.is_err());
    let r2 = AggregateHdt::new(&vec!["/definitely/not/there/x.hdt".to_string()]);
    match r2 {
        Err(de::errors::StoreError::InputNotFound(_)) => {}
        _ => panic!("expected InputNotFound"),
    }
}

#[test]
fn missing_backing_file_fails_the_whole_snapshot_build() {
    let dir = tempfile::tempdir().expect("tempdir");
    let h = sample_hdt("http://example.org/X", "\"yellow\"");
    let path = write_hdt_file(&h, &dir, "gone.hdt");
    let store = AggregateHdt::new(&vec![path]).expect("registry");
    drop(dir);
    match store.get_snapshot(None) {
        Err(de::errors::StoreError::StoreLoadError(_)) => {}
        _ => panic!("expected StoreLoadError once the backing file is gone"),
    }
}

#[test]
fn duplicate_snapshot_names_are_rejected() {
    let h1 = sample_hdt("http://example.org/X", "\"yellow\"");
    let h2 = sample_hdt("http://example.org/Y", "\"blue\"");
    let r = AggregateHdtSnapshot::from_stores(vec![
        ("file:///same.hdt".to_string(), h1),
        ("file:///same.hdt".to_string(), h2),
    ]);
    assert!(r.is_err());
}

#[test]
fn derive_graph_name_uses_file_name() {
    let name = de::sparql::derive_graph_name(&"some/dir/test.hdt".to_string()).unwrap();
    assert_eq!(name, "file:///test.hdt");
    let bad = de::sparql::derive_graph_name(&"some/dir/".to_string());
    assert!(bad.is_err());
}

#[test]
fn insert_plan_by_extension() {
    match de::sparql::insert_plan(&"a/b.hdt".to_string()).unwrap() {
        de::sparql::InsertPlan::UseDirectly(p) => assert_eq!(p, "a/b.hdt"),
        _ => panic!("expected direct use"),
    }
    match de::sparql::insert_plan(&"a/b.nt".to_string()).unwrap() {
        de::sparql::InsertPlan::ConvertTriplesTo(t) => assert_eq!(t, "a/b.hdt"),
        _ => panic!("expected conversion"),
    }
    match de::sparql::insert_plan(&"a/b.ttl".to_string()) {
        Err(de::errors::StoreError::UnsupportedFormat(_)) => {}
        _ => panic!("expected UnsupportedFormat"),
    }
}

#[test]
fn graph_to_file_takes_the_last_segment_stem() {
    let iri = "http://example.org/data/banana.hdt?x=1".to_string();
    assert_eq!(de::sparql::graph_to_file(Some(&iri)), Some("banana".to_string()));
    let no_ext = "http://example.org/data/banana".to_string();
    assert_eq!(de::sparql::graph_to_file(Some(&no_ext)), Some("banana".to_string()));
    let trailing = "http://example.org/data/".to_string();
    assert_eq!(de::sparql::graph_to_file(Some(&trailing)), None);
    assert_eq!(de::sparql::graph_to_file(None), None);
}

#[test]
fn sorted_entries_orders_by_graph_name() {
    let dir = tempfile::tempdir().expect("tempdir");
    let h1 = sample_hdt("http://example.org/X", "\"yellow\"");
    let h2 = sample_hdt("http://example.org/Y", "\"blue\"");
    let h3 = sample_hdt("http://example.org/Z", "\"red\"");
    let pb = write_hdt_file(&h1, &dir, "b.hdt");
    let pa = write_hdt_file(&h2, &dir, "a.hdt");
    let pc = write_hdt_file(&h3, &dir, "c.hdt");
    let store = AggregateHdt::new(&vec![pb, pa, pc]).expect("registry");
    let sorted = store.sorted_entries();
    let names: Vec<String> = sorted.iter().map(|e| e.0.clone()).collect();
    assert_eq!(
        names,
        vec![
            "file:///a.hdt".to_string(),
            "file:///b.hdt".to_string(),
            "file:///c.hdt".to_string()
        ]
    );
}

#[test]
fn registration_refuses_non_native_files() {
    let dir = tempfile::tempdir().expect("tempdir");
    let h = sample_hdt("http://example.org/X", "\"yellow\"");
    let path = write_hdt_file(&h, &dir, "seed.hdt");
    let mut store = AggregateHdt::new(&vec![path]).expect("registry");
    let g = "http://example.org/plain".to_string();
    match store.insert_named_graph(&g, &"some/dir/plain.ttl".to_string()) {
        Err(de::errors::StoreError::UnsupportedFormat(_)) => {}
        _ => panic!("only native store files can be registered"),
    }
    assert!(!store.contains_graph_name(&g).unwrap(), "a rejected insert changes nothing");
}

#[test]
fn collect_all_triples_returns_the_tagged_union_or_aborts() {
    let dir = tempfile::tempdir().expect("tempdir");
    let h1 = sample_hdt("http://example.org/X", "\"yellow\"");
    let h2 = sample_hdt("http://example.org/Y", "\"blue\"");
    let p1 = write_hdt_file(&h1, &dir, "one.hdt");
    let p2 = write_hdt_file(&h2, &dir, "two.hdt");
    let store = AggregateHdt::new(&vec![p1, p2]).expect("registry");
    let quads = store.collect_all_triples().expect("both stores load");
    assert_eq!(quads.len(), 4, "two triples per store, tagged");
    let from_one = quads.iter().filter(|q| q.graph == "file:///one.hdt").count();
    assert_eq!(from_one, 2);

    drop(dir);
    match store.collect_all_triples() {
        Err(de::errors::StoreError::StoreLoadError(_)) => {}
        _ => panic!("a single failed load must abort the whole collection"),
    }
}

#[test]
fn cache_sibling_detection() {
    let store_file = "test.hdt".to_string();
    assert!(de::sparql::is_cache_file_for(
        &"test.hdt.index.v1-rust".to_string(),
        &store_file
    ));
    assert!(de::sparql::is_cache_file_for(&"test.hdt.cache".to_string(), &store_file));
    assert!(!de::sparql::is_cache_file_for(&"test.hdt".to_string(), &store_file));
    assert!(!de::sparql::is_cache_file_for(&"other.hdt.cache".to_string(), &store_file));
}
