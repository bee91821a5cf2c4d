use mise_cache::auth::{matches_namespace, valid_namespace};

#[test]
fn namespace_patterns_do_not_overmatch() {
    assert!(matches_namespace("acme/*", "acme/project"));
    assert!(!matches_namespace("acme/*", "acme"));
    assert!(!matches_namespace("acme/*", "acme-other/project"));
    assert!(matches_namespace("*", "anything"));
}

#[test]
fn rejects_unsafe_namespaces() {
    assert!(valid_namespace("acme/project-a"));
    assert!(!valid_namespace("../project"));
    assert!(!valid_namespace("project name"));
}

use mise_cache::auth::{Access, Authorizer, TokenGrant, constant_time_eq};
use mise_cache::server::RequestHeaders;

fn headers(protocol: Option<&str>, namespace: Option<&str>, token: Option<&str>) -> RequestHeaders {
    RequestHeaders {
        protocol: protocol.map(str::to_owned),
        namespace: namespace.map(str::to_owned),
        authorization: token.map(str::to_owned),
        if_none_match: None,
    }
}

fn grants() -> Authorizer {
    Authorizer::new(
        Some(vec![TokenGrant {
            token: "secret".to_owned(),
            read: vec!["acme/*".to_owned(), "public".to_owned()],
            write: vec!["acme/project-a".to_owned()],
        }]),
        false,
    )
}

#[test]
fn constant_time_eq_is_byte_equality() {
    assert!(constant_time_eq(b"token", b"token"));
    assert!(!constant_time_eq(b"token", b"tokem"));
    assert!(!constant_time_eq(b"token", b"token2"));
    assert!(constant_time_eq(b"", b""));
}

#[test]
fn namespace_rules_on_edges() {
    assert!(!valid_namespace(""));
    assert!(valid_namespace(&"a".repeat(255)));
    assert!(!valid_namespace(&"a".repeat(256)));
    assert!(!valid_namespace("acme//project"));
    assert!(!valid_namespace("acme/"));
    assert!(!valid_namespace("/acme"));
    assert!(!valid_namespace("acme/./x"));
    assert!(valid_namespace("acme/.hidden/x_y-z"));
    assert!(!valid_namespace("acmé"));
    assert!(matches_namespace("acme/project", "acme/project"));
    assert!(!matches_namespace("acme/project", "acme/project/sub"));
    assert!(matches_namespace("acme/*", "acme/project/sub"));
    assert!(!matches_namespace("/*", "acme"));
}

#[test]
fn refuses_other_protocol_versions() {
    let error = grants()
        .authorize(&headers(Some("2"), Some("acme/x"), Some("Bearer secret")), Access::Read)
        .unwrap_err();
    assert_eq!(error.status(), 426);
    assert!(error.advertise_protocol());
    assert_eq!(error.message(), "mise cache protocol version 1 is required");
    let error = grants()
        .authorize(&headers(None, Some("acme/x"), Some("Bearer secret")), Access::Read)
        .unwrap_err();
    assert_eq!(error.status(), 426);
}

#[test]
fn requires_a_valid_namespace() {
    let error = grants()
        .authorize(&headers(Some("1"), Some("../x"), Some("Bearer secret")), Access::Read)
        .unwrap_err();
    assert_eq!(error.status(), 400);
    assert_eq!(error.message(), "a valid Mise-Cache-Namespace header is required");
    assert!(!error.advertise_protocol());
    let error = grants()
        .authorize(&headers(Some("1"), None, Some("Bearer secret")), Access::Read)
        .unwrap_err();
    assert_eq!(error.status(), 400);
}

#[test]
fn anonymous_access_needs_no_grants() {
    let open = Authorizer::new(None, true);
    assert_eq!(
        open.authorize(&headers(Some("1"), Some("any/ns"), None), Access::Write).unwrap(),
        "any/ns"
    );
    let closed = Authorizer::new(None, false);
    assert_eq!(
        closed
            .authorize(&headers(Some("1"), Some("any/ns"), None), Access::Read)
            .unwrap_err()
            .status(),
        401
    );
}

#[test]
fn grants_are_checked_per_access() {
    let auth = grants();
    assert_eq!(
        auth.authorize(&headers(Some("1"), Some("acme/x"), Some("Bearer secret")), Access::Read)
            .unwrap(),
        "acme/x"
    );
    let error = auth
        .authorize(&headers(Some("1"), Some("acme/x"), Some("Bearer secret")), Access::Write)
        .unwrap_err();
    assert_eq!(error.status(), 403);
    assert_eq!(error.message(), "token is not authorized for this namespace");
    assert_eq!(
        auth.authorize(
            &headers(Some("1"), Some("acme/project-a"), Some("Bearer secret")),
            Access::Write
        )
        .unwrap(),
        "acme/project-a"
    );
}

#[test]
fn rejects_missing_and_unknown_tokens() {
    let auth = grants();
    let error = auth
        .authorize(&headers(Some("1"), Some("public"), Some("Basic secret")), Access::Read)
        .unwrap_err();
    assert_eq!(error.status(), 401);
    assert_eq!(error.message(), "a bearer token is required");
    let error = auth
        .authorize(&headers(Some("1"), Some("public"), Some("Bearer other")), Access::Read)
        .unwrap_err();
    assert_eq!(error.status(), 401);
    assert_eq!(error.message(), "invalid bearer token");
}
