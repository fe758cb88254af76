use deno_loader::GraphError;
use deno_loader::Module;
use deno_loader::ModuleGraph;
use deno_loader::RedirectTable;
use deno_loader::Rewrite;
use deno_loader::rewrite_all;
use deno_loader::rewrite_import;
use deno_loader::rewrite_remote;

fn graph(modules: Vec<(Option<&str>, &str)>, redirects: Vec<(&str, &str)>) -> ModuleGraph {
    let mut table = RedirectTable::new();
    for (from, to) in redirects {
        table.insert(from.to_string(), to.to_string());
    }
    let modules = modules
        .into_iter()
        .map(|(local, specifier)| Module {
            local: local.map(|p| p.to_string()),
            specifier: specifier.to_string(),
        })
        .collect();
    ModuleGraph {
        modules,
        redirects: table,
    }
}

#[test]
fn registry_import_rewrites_to_local_path() {
    let g = graph(vec![(Some("/a.ts"), "jsr:x")], vec![]);
    assert_eq!(
        rewrite_import(&g, "/a.ts", "jsr:x"),
        Ok(Rewrite::Rewritten("/a.ts".to_string()))
    );
}

#[test]
fn package_registry_import_rewrites_to_local_path() {
    let g = graph(vec![(Some("/a.ts"), "pkg:x")], vec![]);
    assert_eq!(
        rewrite_import(&g, "/a.ts", "pkg:x"),
        Ok(Rewrite::Rewritten("/a.ts".to_string()))
    );
}

#[test]
fn missing_package_registry_import_is_fatal() {
    let g = graph(vec![], vec![]);
    assert_eq!(
        rewrite_import(&g, "/a.ts", "pkg:missing"),
        Err(GraphError::NotFound)
    );
}

#[test]
fn registry_import_follows_redirects() {
    let g = graph(vec![(Some("/b.ts"), "jsr:b")], vec![("jsr:a", "jsr:b")]);
    assert_eq!(
        rewrite_import(&g, "/whatever.ts", "jsr:a"),
        Ok(Rewrite::Rewritten("/b.ts".to_string()))
    );
}

#[test]
fn missing_registry_import_is_fatal() {
    let g = graph(vec![], vec![]);
    assert_eq!(
        rewrite_import(&g, "/a.ts", "jsr:@x/y"),
        Err(GraphError::NotFound)
    );
}

#[test]
fn relative_import_joins_against_own_specifier() {
    let g = graph(
        vec![
            (Some("/main.ts"), "https://example.com/pkg/main.ts"),
            (Some("/cache/util"), "https://example.com/pkg/util.ts"),
        ],
        vec![],
    );
    assert_eq!(
        rewrite_import(&g, "/main.ts", "./util.ts"),
        Ok(Rewrite::Rewritten("/cache/util".to_string()))
    );
}

#[test]
fn unresolvable_relative_import_is_fatal() {
    let g = graph(
        vec![(Some("/main.ts"), "https://example.com/pkg/main.ts")],
        vec![],
    );
    assert_eq!(
        rewrite_import(&g, "/main.ts", "./util.ts"),
        Err(GraphError::NotFound)
    );
}

#[test]
fn relative_import_in_unknown_file_is_skipped() {
    let g = graph(
        vec![(Some("/main.ts"), "https://example.com/pkg/main.ts")],
        vec![],
    );
    assert_eq!(
        rewrite_import(&g, "/generated.ts", "./util.ts"),
        Ok(Rewrite::SkippedOutsideGraph)
    );
}

#[test]
fn file_scheme_join_keeps_only_the_path() {
    let g = graph(
        vec![
            (Some("/m.ts"), "file:///dir/main.ts"),
            (Some("/cache/u.ts"), "/dir/util.ts"),
        ],
        vec![],
    );
    assert_eq!(
        rewrite_import(&g, "/m.ts", "./util.ts"),
        Ok(Rewrite::Rewritten("/cache/u.ts".to_string()))
    );
}

#[test]
fn unjoinable_base_specifier_is_fatal() {
    let g = graph(vec![(Some("/a.ts"), "pkg:x/main.ts")], vec![]);
    assert_eq!(
        rewrite_import(&g, "/a.ts", "./u.ts"),
        Err(GraphError::InvalidUrl)
    );
}

#[test]
fn remote_import_rewrites_deterministically() {
    let g = graph(vec![(Some("/a.ts"), "jsr:x")], vec![("jsr:a", "jsr:b")]);
    let empty = graph(vec![], vec![]);
    assert_eq!(
        rewrite_import(&g, "/a.ts", "https://example.com/mod.ts"),
        Ok(Rewrite::Rewritten(
            "./resolved/https_example.com/mod.ts".to_string()
        ))
    );
    assert_eq!(
        rewrite_import(&empty, "/other.ts", "https://example.com/mod.ts"),
        Ok(Rewrite::Rewritten(
            "./resolved/https_example.com/mod.ts".to_string()
        ))
    );
}

#[test]
fn insecure_remote_import_rewrites_too() {
    let g = graph(vec![], vec![]);
    assert_eq!(
        rewrite_import(&g, "/a.ts", "http://example.com/mod.ts"),
        Ok(Rewrite::Rewritten(
            "./resolved/http_example.com/mod.ts".to_string()
        ))
    );
}

#[test]
fn unrecognized_import_is_left_alone() {
    let g = graph(vec![(Some("/a.ts"), "jsr:x")], vec![]);
    assert_eq!(rewrite_import(&g, "/a.ts", "node:fs"), Ok(Rewrite::Unchanged));
    assert_eq!(rewrite_import(&g, "/a.ts", "lodash"), Ok(Rewrite::Unchanged));
    assert_eq!(rewrite_import(&g, "/a.ts", ""), Ok(Rewrite::Unchanged));
}

#[test]
fn remote_rewrite_escapes_every_scheme_marker() {
    assert_eq!(
        rewrite_remote("https://example.com/mod.ts"),
        "./resolved/https_example.com/mod.ts"
    );
    assert_eq!(rewrite_remote("a://b://c"), "./resolved/a_b_c");
    assert_eq!(rewrite_remote(""), "./resolved/");
    assert_eq!(rewrite_remote("no-scheme"), "./resolved/no-scheme");
}

#[test]
fn rewrite_all_rewrites_each_import_once() {
    let g = graph(
        vec![
            (Some("/main.ts"), "https://example.com/pkg/main.ts"),
            (Some("/cache/util"), "https://example.com/pkg/util.ts"),
            (Some("/a.ts"), "jsr:x"),
        ],
        vec![],
    );
    let sources = vec![
        "./util.ts".to_string(),
        "jsr:x".to_string(),
        "https://example.com/mod.ts".to_string(),
        "node:fs".to_string(),
    ];
    assert_eq!(
        rewrite_all(&g, "/main.ts", &sources),
        Ok(vec![
            "/cache/util".to_string(),
            "/a.ts".to_string(),
            "./resolved/https_example.com/mod.ts".to_string(),
            "node:fs".to_string(),
        ])
    );
}

#[test]
fn rewrite_all_fails_fast_on_fatal_import() {
    let g = graph(vec![(Some("/a.ts"), "jsr:x")], vec![]);
    let sources = vec!["jsr:x".to_string(), "jsr:missing".to_string()];
    assert_eq!(
        rewrite_all(&g, "/a.ts", &sources),
        Err(GraphError::NotFound)
    );
}

#[test]
fn cyclic_redirect_makes_registry_import_fatal() {
    let g = graph(vec![], vec![("jsr:a", "jsr:b"), ("jsr:b", "jsr:a")]);
    assert_eq!(
        rewrite_import(&g, "/a.ts", "jsr:a"),
        Err(GraphError::CircularRedirect)
    );
}
