//! Store statistics rendering, the health check, and input classification.

use de::check::{check_deps, do_check, required_deps, DepStatus, Dependency, DependencyType};
use de::negotiate::RdfFormatKind;
use de::rdf2nt::format_for_input;
use de::view::{show_content, view_hdt, HdtFileInfo};
use std::io::Write;

#[test]
fn test_view() {
    let info = HdtFileInfo {
        name: "tests/resources/apple.hdt".to_string(),
        header: vec![(
            "http://rdfs.org/ns/void#triples".to_string(),
            "\"1\"".to_string(),
        )],
    };
    let out = view_hdt(&vec![info]).expect("failed to load hdt file");
    assert_eq!(out, "tests/resources/apple.hdt:\n\thttp://rdfs.org/ns/void#triples: \"1\"\n");
}

#[test]
fn show_content_prefixes_every_line_with_the_indent() {
    let info = HdtFileInfo {
        name: "a.hdt".to_string(),
        header: vec![
            ("p1".to_string(), "o1".to_string()),
            ("p2".to_string(), "o2".to_string()),
        ],
    };
    let out = show_content(&vec![info], &"  ".to_string());
    assert_eq!(out, "  a.hdt:\n  \tp1: o1\n  \tp2: o2\n");
}

#[test]
fn show_content_of_nothing_is_empty() {
    let out = show_content(&Vec::new(), &String::new());
    assert_eq!(out, "");
}

#[test]
fn do_check_passes_only_when_required_deps_are_found() {
    let deps = required_deps(None);
    assert_eq!(deps.len(), 1);
    assert_eq!(deps[0].value, "rdf2hdt");
    assert!(deps[0].required);

    let ok = do_check(&deps, &vec![DepStatus::Found]).expect("all found");
    assert_eq!(ok, "Ready to go");

    assert!(do_check(&deps, &vec![DepStatus::Missing]).is_err());

    let extra = vec![Dependency {
        value: "OPTIONAL_THING".to_string(),
        dep_type: DependencyType::Env,
        required: false,
    }];
    let deps2 = required_deps(Some(extra));
    assert_eq!(deps2.len(), 2);
    // An optional dependency may be missing without failing the check.
    assert!(check_deps(&deps2, &vec![DepStatus::Found, DepStatus::Missing]).is_ok());
    // A required one may not.
    assert!(check_deps(&deps2, &vec![DepStatus::Missing, DepStatus::Found]).is_err());
}

#[test]
fn classify_input_files_sorts_by_extension_and_existence() {
    let dir = tempfile::tempdir().expect("tempdir");
    let nt_path = dir.path().join("data.nt");
    let ttl_path = dir.path().join("data.ttl");
    for p in [&nt_path, &ttl_path] {
        let mut f = tempfile::Builder::new()
            .tempfile_in(dir.path())
            .expect("tempfile")
            .persist(p)
            .expect("persist");
        f.write_all(b"").expect("write");
    }
    let nt = nt_path.to_str().unwrap().to_string();
    let ttl = ttl_path.to_str().unwrap().to_string();
    let missing = "definitely/not/here.nt".to_string();

    let c = de::create::classify_input_files(&vec![nt.clone(), ttl.clone(), missing.clone()]);
    assert_eq!(c.nt_files, vec![nt]);
    assert_eq!(c.to_convert, vec![ttl]);
    assert_eq!(c.missing, vec![missing]);

    assert!(!de::create::needs_combined_file(1, 0));
    assert!(de::create::needs_combined_file(2, 0));
    assert!(de::create::needs_combined_file(0, 3));
}

#[test]
fn input_format_follows_extension_with_owl_fallback() {
    assert_eq!(format_for_input(&"a/b.ttl".to_string()), Some(RdfFormatKind::Turtle));
    assert_eq!(format_for_input(&"a/b.nt".to_string()), Some(RdfFormatKind::NTriples));
    assert_eq!(format_for_input(&"a/b.rdf".to_string()), Some(RdfFormatKind::RdfXml));
    assert_eq!(format_for_input(&"a/b.owl".to_string()), Some(RdfFormatKind::RdfXml));
    assert_eq!(format_for_input(&"a/b.docx".to_string()), None);
}
