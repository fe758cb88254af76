use deno_loader::GraphError;
use deno_loader::from_local_to_specifier;
use deno_loader::get_local_path;
use deno_loader::parse_graph;

#[test]
fn malformed_description_is_rejected() {
    match parse_graph("this is not json") {
        Err(e) => assert_eq!(e, GraphError::MalformedGraph),
        Ok(_) => panic!("malformed description must not parse"),
    }
}

#[test]
fn description_without_modules_is_rejected() {
    match parse_graph(r#"{"redirects":{}}"#) {
        Err(e) => assert_eq!(e, GraphError::MalformedGraph),
        Ok(_) => panic!("description without modules must not parse"),
    }
}

#[test]
fn description_without_redirects_is_rejected() {
    match parse_graph(r#"{"modules":[]}"#) {
        Err(e) => assert_eq!(e, GraphError::MalformedGraph),
        Ok(_) => panic!("description without redirects must not parse"),
    }
}

#[test]
fn module_without_specifier_is_rejected() {
    match parse_graph(r#"{"modules":[{"local":"/a.ts"}],"redirects":{}}"#) {
        Err(e) => assert_eq!(e, GraphError::MalformedGraph),
        Ok(_) => panic!("module without specifier must not parse"),
    }
}

#[test]
fn non_string_redirect_is_rejected() {
    match parse_graph(r#"{"modules":[],"redirects":{"a":7}}"#) {
        Err(e) => assert_eq!(e, GraphError::MalformedGraph),
        Ok(_) => panic!("non-string redirect target must not parse"),
    }
}

#[test]
fn reverse_lookup_finds_specifier() {
    let info = r#"{"modules":[{"local":"/b.ts","specifier":"pkg:b"}],"redirects":{}}"#;
    assert_eq!(
        from_local_to_specifier(info, "/b.ts"),
        Ok("pkg:b".to_string())
    );
}

#[test]
fn reverse_lookup_misses_unknown_path() {
    let info = r#"{"modules":[{"local":"/b.ts","specifier":"pkg:b"}],"redirects":{}}"#;
    assert_eq!(
        from_local_to_specifier(info, "/missing.ts"),
        Err(GraphError::NotFound)
    );
}

#[test]
fn reverse_lookup_takes_first_match() {
    let info = r#"{"modules":[
        {"local":"/b.ts","specifier":"pkg:first"},
        {"local":"/b.ts","specifier":"pkg:second"}
    ],"redirects":{}}"#;
    assert_eq!(
        from_local_to_specifier(info, "/b.ts"),
        Ok("pkg:first".to_string())
    );
}

#[test]
fn forward_lookup_follows_redirect() {
    let info = r#"{"modules":[{"local":"/b.ts","specifier":"pkg:b"}],
        "redirects":{"pkg:a":"pkg:b"}}"#;
    assert_eq!(get_local_path(info, "pkg:a"), Ok("/b.ts".to_string()));
}

#[test]
fn forward_lookup_reports_cycle() {
    let info = r#"{"modules":[],"redirects":{"pkg:a":"pkg:b","pkg:b":"pkg:a"}}"#;
    assert_eq!(
        get_local_path(info, "pkg:a"),
        Err(GraphError::CircularRedirect)
    );
}

#[test]
fn forward_lookup_misses_unmaterialized_module() {
    let info = r#"{"modules":[{"specifier":"pkg:b"}],"redirects":{}}"#;
    assert_eq!(get_local_path(info, "pkg:b"), Err(GraphError::NotFound));
}

#[test]
fn null_local_counts_as_absent() {
    let info = r#"{"modules":[{"local":null,"specifier":"pkg:b"}],"redirects":{}}"#;
    assert_eq!(get_local_path(info, "pkg:b"), Err(GraphError::NotFound));
}

#[test]
fn forward_lookup_skips_module_without_local() {
    let info = r#"{"modules":[
        {"specifier":"pkg:b"},
        {"local":"/b.ts","specifier":"pkg:b"}
    ],"redirects":{}}"#;
    assert_eq!(get_local_path(info, "pkg:b"), Ok("/b.ts".to_string()));
}

#[test]
fn malformed_description_fails_both_lookups() {
    assert_eq!(
        from_local_to_specifier("{", "/b.ts"),
        Err(GraphError::MalformedGraph)
    );
    assert_eq!(get_local_path("{", "pkg:b"), Err(GraphError::MalformedGraph));
}

#[test]
fn extra_fields_are_ignored() {
    let info = r#"{"version":1,"modules":[
        {"local":"/b.ts","specifier":"pkg:b","size":12,"mediaType":"TypeScript"}
    ],"redirects":{},"npmPackages":{}}"#;
    assert_eq!(get_local_path(info, "pkg:b"), Ok("/b.ts".to_string()));
}

#[test]
fn local_path_specifier_round_trip() {
    let info = r#"{"modules":[
        {"local":"/a.ts","specifier":"pkg:a"},
        {"local":"/b.ts","specifier":"pkg:b"}
    ],"redirects":{}}"#;
    let specifier = from_local_to_specifier(info, "/b.ts").unwrap();
    assert_eq!(get_local_path(info, &specifier), Ok("/b.ts".to_string()));
}
