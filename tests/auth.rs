use registry_auth::challenge::{
    WwwAuthenticateHeaderContent, WwwAuthenticateHeaderContentBasic,
    WwwAuthenticateHeaderContentBearer, WwwHeaderParseError,
};
use registry_auth::client::{AuthStep, Client};
use registry_auth::credential::{
    mask_token, Auth, Authorization, BasicAuth, BearerAuth, BearerIntermediate, OutgoingRequest,
};
use registry_auth::error::AuthError;

fn parse(h: &str) -> Result<WwwAuthenticateHeaderContent, WwwHeaderParseError> {
    WwwAuthenticateHeaderContent::from_www_authentication_header(h.as_bytes())
}

fn body(token: Option<&str>, access_token: Option<&str>) -> BearerIntermediate {
    BearerIntermediate {
        token: token.map(|t| t.to_string()),
        access_token: access_token.map(|t| t.to_string()),
        expires_in: Some(300),
        issued_at: Some("2020-06-18T09:04:24Z".to_string()),
        refresh_token: None,
    }
}

fn bearer_challenge(realm: &str, service: Option<&str>) -> WwwAuthenticateHeaderContentBearer {
    WwwAuthenticateHeaderContentBearer {
        realm: realm.to_string(),
        service: service.map(|s| s.to_string()),
        scope: None,
    }
}

#[test]
fn bearer_realm_parses_correctly() {
    let realm = "https://sat-r220-02.lab.eng.rdu2.redhat.com/v2/token";
    let service = "sat-r220-02.lab.eng.rdu2.redhat.com";
    let scope = "repository:registry:pull,push";

    let header_value = format!(
        r#"Bearer realm="{}",service="{}",scope="{}""#,
        realm, service, scope
    );

    let content = parse(&header_value).expect("the header parses");

    assert_eq!(
        WwwAuthenticateHeaderContent::Bearer(WwwAuthenticateHeaderContentBearer {
            realm: realm.to_string(),
            service: Some(service.to_string()),
            scope: Some(scope.to_string()),
        }),
        content
    );
}

#[test]
fn basic_realm_parses_correctly() {
    let realm = "Registry realm";

    let header_value = format!(r#"Basic realm="{}""#, realm);

    let content = parse(&header_value).expect("the header parses");

    assert_eq!(
        WwwAuthenticateHeaderContent::Basic(WwwAuthenticateHeaderContentBasic {
            realm: realm.to_string(),
        }),
        content
    );
}

#[test]
fn bearer_with_spaces_after_commas_parses() {
    let content = parse(r#"Bearer realm="R", service="S", scope="repository:x:pull,push""#);
    assert_eq!(
        content,
        Ok(WwwAuthenticateHeaderContent::Bearer(WwwAuthenticateHeaderContentBearer {
            realm: "R".to_string(),
            service: Some("S".to_string()),
            scope: Some("repository:x:pull,push".to_string()),
        }))
    );
}

#[test]
fn bearer_keys_in_any_order_and_optional() {
    let content = parse(r#"  Bearer scope="a:b:pull" , realm="https://x/token""#);
    assert_eq!(
        content,
        Ok(WwwAuthenticateHeaderContent::Bearer(WwwAuthenticateHeaderContentBearer {
            realm: "https://x/token".to_string(),
            service: None,
            scope: Some("a:b:pull".to_string()),
        }))
    );
}

#[test]
fn unknown_keys_are_ignored() {
    let content = parse(r#"Basic realm="Registry", charset="UTF-8""#);
    assert_eq!(
        content,
        Ok(WwwAuthenticateHeaderContent::Basic(WwwAuthenticateHeaderContentBasic {
            realm: "Registry".to_string(),
        }))
    );
}

#[test]
fn missing_method_is_reported() {
    assert_eq!(parse(r#"realm="R""#), Err(WwwHeaderParseError::FieldMethodMissing));
}

#[test]
fn malformed_headers_are_invalid() {
    assert_eq!(parse(""), Err(WwwHeaderParseError::InvalidValue));
    assert_eq!(parse("Bearer"), Err(WwwHeaderParseError::InvalidValue));
    assert_eq!(parse("Bearer "), Err(WwwHeaderParseError::InvalidValue));
    assert_eq!(parse(r#"Bearer realm="R"#), Err(WwwHeaderParseError::InvalidValue));
    assert_eq!(parse(r#"Bearer realm="""#), Err(WwwHeaderParseError::InvalidValue));
}

#[test]
fn unknown_method_is_invalid() {
    assert_eq!(parse(r#"Digest realm="R""#), Err(WwwHeaderParseError::InvalidValue));
}

#[test]
fn missing_or_repeated_realm_is_invalid() {
    assert_eq!(parse(r#"Bearer service="S""#), Err(WwwHeaderParseError::InvalidValue));
    assert_eq!(
        parse(r#"Basic realm="A", realm="B""#),
        Err(WwwHeaderParseError::InvalidValue)
    );
}

#[test]
fn non_utf8_header_is_rejected() {
    let bytes: Vec<u8> = vec![0x42, 0xff, 0xfe];
    assert_eq!(
        WwwAuthenticateHeaderContent::from_www_authentication_header(&bytes),
        Err(WwwHeaderParseError::InvalidEncoding)
    );
}

#[test]
fn token_endpoint_without_service() {
    let c = bearer_challenge("https://auth.example/token", None);
    assert_eq!(c.auth_ep(&["repo:a:pull"]), "https://auth.example/token?scope=repo:a:pull");
}

#[test]
fn token_endpoint_with_service() {
    let c = bearer_challenge("https://auth.example/token", Some("registry.example"));
    assert_eq!(
        c.auth_ep(&["repo:a:pull", "repo:b:push"]),
        "https://auth.example/token?service=registry.example&scope=repo:a:pull&scope=repo:b:push"
    );
    assert_eq!(c.auth_ep(&[]), "https://auth.example/token?service=registry.example");
}

#[test]
fn token_endpoint_several_scopes_without_service() {
    let c = bearer_challenge("https://auth.example/token", None);
    assert_eq!(
        c.auth_ep(&["a", "b", "c"]),
        "https://auth.example/token?scope=a&scope=b&scope=c"
    );
    assert_eq!(c.auth_ep(&[]), "https://auth.example/token");
}

#[test]
fn token_url_rejects_bare_realm() {
    let c = bearer_challenge("Registry", None);
    match c.token_url(&["repository:x:pull"]) {
        Err(AuthError::MalformedUrl(ep)) => assert_eq!(ep, "Registry?scope=repository:x:pull"),
        other => panic!("unexpected {:?}", other),
    }
    let ok = bearer_challenge("https://auth.example/token", None);
    let url = ok.token_url(&["repo:a:pull"]).expect("an absolute URL");
    assert_eq!(url.as_str(), "https://auth.example/token?scope=repo:a:pull");
}

#[test]
fn access_token_is_used_without_token() {
    let b = BearerAuth::try_from(body(None, Some("abc"))).expect("a token");
    assert_eq!(b.token(), "abc");
    assert_eq!(b.expires_in(), Some(300));
    assert_eq!(b.issued_at().as_deref(), Some("2020-06-18T09:04:24Z"));
    assert_eq!(b.refresh_token(), &None);
}

#[test]
fn token_is_preferred_over_access_token() {
    let b = BearerAuth::try_from(body(Some("first"), Some("second"))).expect("a token");
    assert_eq!(b.token(), "first");
}

#[test]
fn missing_token_field_is_an_error() {
    assert_eq!(
        BearerAuth::try_from(body(None, None)).err(),
        Some(AuthError::MissingTokenField)
    );
}

#[test]
fn empty_or_unauthenticated_token_is_invalid() {
    assert_eq!(
        BearerAuth::try_from(body(Some(""), None)).err(),
        Some(AuthError::InvalidAuthToken(String::new()))
    );
    assert_eq!(
        BearerAuth::try_from(body(None, Some("unauthenticated"))).err(),
        Some(AuthError::InvalidAuthToken("unauthenticated".to_string()))
    );
    assert_eq!(
        BearerAuth::try_from(body(Some("unauthenticated"), Some("good"))).err(),
        Some(AuthError::InvalidAuthToken("unauthenticated".to_string()))
    );
}

#[test]
fn masking_keeps_first_and_last() {
    assert_eq!(mask_token("abcdef"), "a****f");
    assert_eq!(mask_token("abc"), "a*c");
    assert_eq!(mask_token("ab"), "ab");
    assert_eq!(mask_token("a"), "*");
    assert_eq!(mask_token("ä€xyz"), "ä***z");
}

#[test]
fn is_auth_classifies_status() {
    let c = Client::new("https://registry.example".to_string(), None);
    assert_eq!(c.is_auth(200), Ok(true));
    assert_eq!(c.is_auth(401), Ok(false));
    assert_eq!(c.is_auth(403), Err(AuthError::UnexpectedHttpStatus(403)));
    assert_eq!(c.is_auth(500), Err(AuthError::UnexpectedHttpStatus(500)));
}

fn request() -> OutgoingRequest {
    OutgoingRequest {
        url: reqwest::Url::parse("https://registry.example/v2/").unwrap(),
        authorization: None,
    }
}

#[test]
fn attaching_is_idempotent() {
    let bearer = Auth::Bearer(BearerAuth::try_from(body(Some("tok"), None)).unwrap());
    let once = bearer.add_auth_headers(request());
    let twice = bearer.add_auth_headers(bearer.add_auth_headers(request()));
    assert_eq!(once.authorization, twice.authorization);
    assert_eq!(once.authorization, Some(Authorization::Bearer { token: "tok".to_string() }));

    let basic = Auth::Basic(BasicAuth { user: "u".to_string(), password: None });
    let once = basic.add_auth_headers(request());
    let twice = basic.add_auth_headers(basic.add_auth_headers(request()));
    assert_eq!(once.authorization, twice.authorization);
    assert_eq!(
        once.authorization,
        Some(Authorization::Basic { user: "u".to_string(), password: String::new() })
    );
    assert_eq!(once.url, twice.url);
}

#[test]
fn probe_carries_no_credential() {
    let mut c = Client::new(
        "https://registry.example".to_string(),
        Some(("u".to_string(), "p".to_string())),
    );
    c.auth = Some(Auth::Basic(BasicAuth { user: "old".to_string(), password: None }));
    let probe = c.probe_request().expect("an absolute URL");
    assert_eq!(probe.url.as_str(), "https://registry.example/v2/");
    assert_eq!(probe.authorization, None);
    let with_auth = c.build_request(probe.url.clone());
    assert_eq!(
        with_auth.authorization,
        Some(Authorization::Basic { user: "old".to_string(), password: String::new() })
    );
    let bad = Client::new("registry".to_string(), None);
    assert_eq!(
        bad.probe_request().err(),
        Some(AuthError::MalformedUrl("registry/v2/".to_string()))
    );
}

#[test]
fn missing_header_is_fatal() {
    let c = Client::new("https://registry.example".to_string(), None);
    assert_eq!(c.authenticate(&[], None).err(), Some(AuthError::MissingAuthHeader));
}

#[test]
fn basic_challenge_needs_credentials() {
    let c = Client::new("https://registry.example".to_string(), None);
    let h = br#"Basic realm="Registry""#;
    assert_eq!(c.authenticate(&[], Some(h)).err(), Some(AuthError::NoCredentials));

    let c = Client::new(
        "https://registry.example".to_string(),
        Some(("u".to_string(), "p".to_string())),
    );
    match c.authenticate(&[], Some(h)) {
        Ok(AuthStep::Authenticated(c)) => match c.auth {
            Some(Auth::Basic(b)) => {
                assert_eq!(b.user, "u");
                assert_eq!(b.password.as_deref(), Some("p"));
            }
            other => panic!("unexpected {:?}", other),
        },
        other => panic!("unexpected {:?}", other),
    }
}

#[test]
fn parse_errors_are_passed_on() {
    let c = Client::new("https://registry.example".to_string(), None);
    assert_eq!(
        c.authenticate(&[], Some(br#"realm="R""#)).err(),
        Some(AuthError::Parse(WwwHeaderParseError::FieldMethodMissing))
    );
}

#[test]
fn bearer_challenge_asks_for_a_token() {
    let c = Client::new(
        "https://registry.example".to_string(),
        Some(("u".to_string(), "p".to_string())),
    );
    let h = br#"Bearer realm="https://auth.example/token",service="registry.example""#;
    let (client, request) = match c.authenticate(&["repository:x:pull"], Some(h)) {
        Ok(AuthStep::FetchToken { client, request }) => (client, request),
        other => panic!("unexpected {:?}", other),
    };
    assert_eq!(
        request.url.as_str(),
        "https://auth.example/token?service=registry.example&scope=repository:x:pull"
    );
    assert_eq!(
        request.authorization,
        Some(Authorization::Basic { user: "u".to_string(), password: "p".to_string() })
    );
    assert_eq!(
        client.finish_authentication(401, body(Some("t"), None)).err(),
        Some(AuthError::UnexpectedHttpStatus(401))
    );
}

#[test]
fn bearer_token_completes_authentication() {
    let c = Client::new("https://registry.example".to_string(), None);
    let h = br#"Bearer realm="https://auth.example/token""#;
    let client = match c.authenticate(&["repository:x:pull"], Some(h)) {
        Ok(AuthStep::FetchToken { client, request }) => {
            assert_eq!(request.authorization, None);
            client
        }
        other => panic!("unexpected {:?}", other),
    };
    let done = client.finish_authentication(200, body(None, Some("abc"))).expect("a token");
    match done.auth {
        Some(Auth::Bearer(b)) => assert_eq!(b.token(), "abc"),
        other => panic!("unexpected {:?}", other),
    }
}

#[test]
fn bearer_token_errors_are_reported() {
    let c = Client::new("https://registry.example".to_string(), None);
    assert_eq!(
        c.finish_authentication(200, body(None, None)).err(),
        Some(AuthError::MissingTokenField)
    );
    let c = Client::new("https://registry.example".to_string(), None);
    assert_eq!(
        c.finish_authentication(200, body(Some("unauthenticated"), None)).err(),
        Some(AuthError::InvalidAuthToken("unauthenticated".to_string()))
    );
}

#[test]
fn malformed_realm_fails_before_any_request() {
    let c = Client::new("https://registry.example".to_string(), None);
    let h = br#"Bearer realm="Registry""#;
    assert_eq!(
        c.authenticate(&["repository:x:pull"], Some(h)).err(),
        Some(AuthError::MalformedUrl("Registry?scope=repository:x:pull".to_string()))
    );
}

#[test]
fn ignored_keys_are_listed() {
    assert_eq!(
        WwwAuthenticateHeaderContent::ignored_keys(
            r#"Basic realm="Registry", service="S", charset="UTF-8""#
        ),
        vec!["service".to_string(), "charset".to_string()]
    );
    assert_eq!(
        WwwAuthenticateHeaderContent::ignored_keys(
            r#"Bearer realm="R",service="S",scope="x",error="insufficient_scope""#
        ),
        vec!["error".to_string()]
    );
    assert!(WwwAuthenticateHeaderContent::ignored_keys(r#"realm="R", x="y""#).is_empty());
}
