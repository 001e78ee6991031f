use loginhuset::mail::MailgunConfig;
use loginhuset::models::User;
use loginhuset::router::{
    authenticate, begin_authenticate, classify, handle_check, handle_logout, handle_validate,
    is_whitelisted, route_request, AuthStep, Method, Route, RouteStep, RouterConfig,
};
use loginhuset::store::TokenStore;

fn config() -> RouterConfig {
    RouterConfig {
        cookie_name: "session".to_string(),
        authenticated_path: "/auth/check".to_string(),
        logout_path: "/auth/logout".to_string(),
        validation_path: "/auth/validate".to_string(),
        authenticate_path: "/auth/login".to_string(),
        base_url: "https://example.com".to_string(),
        limit_except_request_method: true,
    }
}

fn mailgun() -> MailgunConfig {
    MailgunConfig {
        url: "https://api.mailgun.example/v3/messages".to_string(),
        api_key: "key-1234567890".to_string(),
        from: "login@example.com".to_string(),
        subject: "Your login link".to_string(),
        html_template: "<a href=\"{{url}}\">Log in</a>".to_string(),
        text_template: "Visit {{url}} to log in.".to_string(),
    }
}

fn user() -> User {
    User { id: 7, email: "me@example.com".to_string(), name: "Me".to_string() }
}

fn header_value<'a>(headers: &'a [(String, String)], name: &str) -> Option<&'a str> {
    headers.iter().find(|(n, _)| n == name).map(|(_, v)| v.as_str())
}

#[test]
fn classify_matches_the_configured_routes_in_order() {
    let c = config();
    assert!(matches!(classify(&Method::Get, "/auth/check", &c), Route::Check));
    assert!(matches!(classify(&Method::Get, "/auth/logout", &c), Route::Logout));
    assert!(matches!(classify(&Method::Get, "/auth/validate", &c), Route::Validate));
    assert!(matches!(classify(&Method::Post, "/auth/login", &c), Route::Authenticate));
    assert!(matches!(classify(&Method::Get, "/index.html", &c), Route::StaticFile));
    // A GET to the authenticate path is not the authenticate route.
    assert!(matches!(classify(&Method::Get, "/auth/login", &c), Route::StaticFile));
    assert!(matches!(classify(&Method::Post, "/elsewhere", &c), Route::NotAllowed));
    assert!(matches!(classify(&Method::Other, "/auth/check", &c), Route::NotAllowed));
}

#[test]
fn whitelist_admits_exempt_methods_only_when_enabled() {
    let exempt = vec!["GET".to_string(), "HEAD".to_string()];
    assert!(is_whitelisted(true, &exempt, &Some("HEAD".to_string())));
    assert!(!is_whitelisted(true, &exempt, &Some("DELETE".to_string())));
    assert!(!is_whitelisted(true, &exempt, &None));
    assert!(!is_whitelisted(false, &exempt, &Some("HEAD".to_string())));
    assert!(!is_whitelisted(true, &Vec::new(), &Some("GET".to_string())));
}

#[test]
fn whitelisted_request_is_admitted_before_dispatch() {
    let c = config();
    match route_request(&Method::Post, "/nowhere", true, &c) {
        RouteStep::Reply(resp) => {
            assert_eq!(resp.status, 200);
            assert!(resp.headers.is_empty());
        }
        _ => panic!("expected an immediate reply"),
    }
}

#[test]
fn unmatched_method_and_path_is_refused() {
    let c = config();
    match route_request(&Method::Post, "/nowhere", false, &c) {
        RouteStep::Reply(resp) => assert_eq!(resp.status, 405),
        _ => panic!("expected an immediate reply"),
    }
    assert!(matches!(route_request(&Method::Get, "/auth/check", false, &c), RouteStep::CheckSession));
    assert!(matches!(route_request(&Method::Get, "/f.css", false, &c), RouteStep::ServeStatic));
}

#[test]
fn check_without_session_is_unauthorized() {
    let r = handle_check(&None);
    assert_eq!(r.status, 401);
    assert!(r.headers.is_empty());
}

#[test]
fn check_with_session_carries_identity_headers() {
    let r = handle_check(&Some(user()));
    assert_eq!(r.status, 200);
    assert_eq!(header_value(&r.headers, "x-identity").unwrap(), "Me");
    assert_eq!(header_value(&r.headers, "x-user").unwrap(), "me@example.com");
}

#[test]
fn logout_is_idempotent() {
    let (delete, first) = handle_logout(None);
    assert!(delete.is_none());
    assert_eq!(first.status, 200);
    let (_, second) = handle_logout(None);
    assert_eq!(second.status, 200);
}

#[test]
fn validate_promotes_a_live_token_and_only_once() {
    let mut store = TokenStore::new();
    let mg = mailgun();
    let out = authenticate(
        &mut store,
        Some(user()),
        "/next",
        1000,
        &mg,
        "https://example.com",
        "/auth/validate",
    );
    assert_eq!(out.response.status, 200);
    let token = out.token.unwrap();

    let query = format!("token={}&origin=%2Fnext", token);
    let first = handle_validate(&mut store, 1100, &query, "session");
    assert_eq!(first.response.status, 307);
    let (session_user, session_token) = first.session.unwrap();
    assert_eq!(session_user.email, "me@example.com");
    assert_eq!(session_token.len(), 32);
    let set_cookie = header_value(&first.response.headers, "Set-Cookie").unwrap();
    assert_eq!(
        set_cookie,
        format!("session={}; Path=/; Max-Age=31536000", session_token)
    );
    assert_eq!(header_value(&first.response.headers, "location").unwrap(), "/next");

    // The very same token a second time: the consume already removed it.
    let second = handle_validate(&mut store, 1101, &query, "session");
    assert_eq!(second.response.status, 400);
    assert!(second.session.is_none());
}

#[test]
fn validate_defaults_the_redirect_target() {
    let mut store = TokenStore::new();
    let mg = mailgun();
    let out = authenticate(
        &mut store,
        Some(user()),
        "/",
        0,
        &mg,
        "https://example.com",
        "/auth/validate",
    );
    let query = format!("token={}", out.token.unwrap());
    let v = handle_validate(&mut store, 1, &query, "session");
    assert_eq!(v.response.status, 307);
    assert_eq!(header_value(&v.response.headers, "location").unwrap(), "/");
}

#[test]
fn validate_with_expired_token_is_refused() {
    let mut store = TokenStore::new();
    let mg = mailgun();
    let out = authenticate(
        &mut store,
        Some(user()),
        "/",
        1000,
        &mg,
        "https://example.com",
        "/auth/validate",
    );
    let query = format!("token={}", out.token.unwrap());
    // 900 seconds after issuance the deadline has passed.
    let v = handle_validate(&mut store, 1900, &query, "session");
    assert_eq!(v.response.status, 400);
    assert!(v.session.is_none());
}

#[test]
fn validate_without_token_parameter_is_refused() {
    let mut store = TokenStore::new();
    let v = handle_validate(&mut store, 0, "origin=%2F", "session");
    assert_eq!(v.response.status, 400);
}

#[test]
fn authenticate_unknown_address_stays_silent() {
    let mut store = TokenStore::new();
    let mg = mailgun();
    let out = authenticate(&mut store, None, "/", 0, &mg, "https://example.com", "/auth/validate");
    assert_eq!(out.response.status, 200);
    assert!(out.mail.is_none());
    assert!(out.token.is_none());
}

#[test]
fn authenticate_known_address_builds_the_mail() {
    let mut store = TokenStore::new();
    let mg = mailgun();
    let out = authenticate(
        &mut store,
        Some(user()),
        "/next",
        0,
        &mg,
        "https://example.com",
        "/auth/validate",
    );
    let token = out.token.unwrap();
    assert_eq!(token.len(), 32);
    assert!(token.chars().all(|c| c.is_ascii_alphanumeric()));

    let mail = out.mail.unwrap();
    assert_eq!(mail.url, mg.url);
    assert!(mail.authorization.starts_with("Basic "));
    assert!(mail.content_type.starts_with("multipart/form-data; boundary="));

    let body = String::from_utf8(mail.body).unwrap();
    let link = format!("https://example.com/auth/validate?token={}&origin=/next", token);
    assert!(body.contains(&format!("Visit {} to log in.", link)));
    assert!(body.contains(&format!("<a href=\"{}\">Log in</a>", link)));
    assert!(body.contains("name=\"from\"\r\n\r\nlogin@example.com"));
    assert!(body.contains("name=\"to\"\r\n\r\nme@example.com"));
    assert!(body.contains("name=\"subject\"\r\n\r\nYour login link"));
}

#[test]
fn authenticate_authorization_header_is_the_encoded_key() {
    let mut store = TokenStore::new();
    let mg = mailgun();
    let out = authenticate(
        &mut store,
        Some(user()),
        "/",
        0,
        &mg,
        "https://example.com",
        "/auth/validate",
    );
    // "api:key-1234567890" in standard padded base64.
    let expected = "Basic YXBpOmtleS0xMjM0NTY3ODkw";
    assert_eq!(out.mail.unwrap().authorization, expected);
}

#[test]
fn bad_authenticate_body_is_a_bad_request() {
    match begin_authenticate(b"not-a-form") {
        AuthStep::BadRequest(resp) => assert_eq!(resp.status, 400),
        AuthStep::Lookup(_) => panic!("body without an email field must be refused"),
    }
}

#[test]
fn good_authenticate_body_yields_the_address() {
    match begin_authenticate(b"email=me%40example.com") {
        AuthStep::Lookup(email) => assert_eq!(email, "me@example.com"),
        AuthStep::BadRequest(_) => panic!("a well-formed body must decode"),
    }
}
