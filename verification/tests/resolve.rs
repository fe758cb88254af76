use deno_loader::GraphError;
use deno_loader::RedirectTable;
use deno_loader::follow_redirects;

#[test]
fn test_follow_redirects() {
    let mut redirects = RedirectTable::new();
    redirects.insert(
        "jsr:@std/path/from-file-url".to_string(),
        "https://jsr.io/@std/path/1.0.8/from_file_url.ts".to_string(),
    );

    let final_specifier = follow_redirects("jsr:@std/path/from-file-url", &redirects).unwrap();
    assert_eq!(
        final_specifier,
        "https://jsr.io/@std/path/1.0.8/from_file_url.ts"
    );
}

#[test]
fn test_circular_redirects() {
    let mut redirects = RedirectTable::new();
    redirects.insert("a".to_string(), "b".to_string());
    redirects.insert("b".to_string(), "a".to_string());

    assert!(follow_redirects("a", &redirects).is_err());
}

#[test]
fn circular_redirect_error_variant() {
    let mut redirects = RedirectTable::new();
    redirects.insert("a".to_string(), "b".to_string());
    redirects.insert("b".to_string(), "c".to_string());
    redirects.insert("c".to_string(), "a".to_string());

    assert_eq!(
        follow_redirects("a", &redirects),
        Err(GraphError::CircularRedirect)
    );
}

#[test]
fn self_redirect_is_circular() {
    let mut redirects = RedirectTable::new();
    redirects.insert("a".to_string(), "a".to_string());

    assert_eq!(
        follow_redirects("a", &redirects),
        Err(GraphError::CircularRedirect)
    );
}

#[test]
fn unredirected_specifier_resolves_to_itself() {
    let redirects = RedirectTable::new();

    assert_eq!(
        follow_redirects("jsr:@std/path", &redirects),
        Ok("jsr:@std/path".to_string())
    );
}

#[test]
fn redirect_chain_of_two_steps() {
    let mut redirects = RedirectTable::new();
    redirects.insert("a".to_string(), "b".to_string());
    redirects.insert("b".to_string(), "c".to_string());

    assert_eq!(follow_redirects("a", &redirects), Ok("c".to_string()));
}

#[test]
fn insert_replaces_earlier_mapping() {
    let mut redirects = RedirectTable::new();
    redirects.insert("a".to_string(), "b".to_string());
    redirects.insert("a".to_string(), "c".to_string());

    assert_eq!(follow_redirects("a", &redirects), Ok("c".to_string()));
}

#[test]
fn cycle_not_reachable_from_other_specifier() {
    let mut redirects = RedirectTable::new();
    redirects.insert("a".to_string(), "b".to_string());
    redirects.insert("b".to_string(), "a".to_string());
    redirects.insert("x".to_string(), "y".to_string());

    assert_eq!(follow_redirects("x", &redirects), Ok("y".to_string()));
}
