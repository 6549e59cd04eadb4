//! The authorization gate: login flow, cookies, token persistence.

use web_jingzi::auth::cookie_token;
use web_jingzi::config::{Account, Authorization, Config};
use web_jingzi::httpmodel::HttpRequest;
use web_jingzi::json::login_fields;
use web_jingzi::pipeline::{forward_request, gate_decision, login_outcome, ForwardDecision, ForwardState};
use web_jingzi::store::TokenStore;

fn b(s: &str) -> Vec<u8> {
    s.as_bytes().to_vec()
}

fn auth_config() -> Config {
    Config {
        listen_address: b("127.0.0.1:8080"),
        domain_name: vec![(b("mirror.local"), b("example.com"))],
        use_https: None,
        data_dir: b("data"),
        authorization: Authorization {
            enabled: true,
            domain_list: Some(vec![b("mirror.local")]),
            account: Some(vec![Account { username: b("a"), password: b("b") }]),
        },
    }
}

fn auth_state(dir: &tempfile::TempDir) -> ForwardState {
    let db = redb::Database::create(dir.path().join("db.redb")).unwrap();
    ForwardState::new(auth_config(), TokenStore::new(db), b("<html>login</html>")).unwrap()
}

fn request(host: &str, path: &str) -> HttpRequest {
    HttpRequest {
        method: b("GET"),
        scheme: b("http"),
        host: b(host),
        port: None,
        path: b(path),
        query: Vec::new(),
        headers: Vec::new(),
        body: Vec::new(),
    }
}

fn header<'a>(headers: &'a [(Vec<u8>, Vec<u8>)], name: &str) -> Option<&'a Vec<u8>> {
    headers
        .iter()
        .find(|(n, _)| n.eq_ignore_ascii_case(name.as_bytes()))
        .map(|(_, v)| v)
}

fn do_login(state: &ForwardState, body: &str) -> web_jingzi::httpmodel::HttpResponse {
    let mut req = request("mirror.local", "/__wj__login");
    req.method = b("POST");
    req.body = b(body);
    match forward_request(state, req) {
        ForwardDecision::Respond(resp) => resp,
        ForwardDecision::Upstream(_) => panic!("login must be answered locally"),
    }
}

fn issued_token(resp: &web_jingzi::httpmodel::HttpResponse) -> Vec<u8> {
    let cookie = header(&resp.headers, "set-cookie").expect("a Set-Cookie header");
    let text = String::from_utf8(cookie.clone()).unwrap();
    let token = text.strip_prefix("__wj_token=").expect("the token cookie").split(';').next().unwrap();
    assert_eq!(token.len(), 36);
    b(token)
}

#[test]
fn unauthenticated_request_gets_the_login_page() {
    let dir = tempfile::tempdir().unwrap();
    let state = auth_state(&dir);
    match forward_request(&state, request("mirror.local", "/any")) {
        ForwardDecision::Respond(resp) => {
            assert_eq!(resp.status, 200);
            assert_eq!(header(&resp.headers, "content-type"), Some(&b("text/html")));
            assert_eq!(resp.body, b("<html>login</html>"));
        },
        ForwardDecision::Upstream(_) => panic!("must not reach upstream without a token"),
    }
}

#[test]
fn unprotected_domain_skips_the_gate() {
    let dir = tempfile::tempdir().unwrap();
    let state = auth_state(&dir);
    match forward_request(&state, request("open.local", "/any")) {
        ForwardDecision::Respond(resp) => {
            // no alias matches, so the host passes through to the dialer
            panic!("unexpected local answer: {}", resp.status);
        },
        ForwardDecision::Upstream(plan) => {
            assert_eq!(plan.host, b("open.local"));
        },
    }
}

#[test]
fn login_with_wrong_credentials_fails() {
    let dir = tempfile::tempdir().unwrap();
    let state = auth_state(&dir);
    let resp = do_login(&state, "{\"username\": \"a\", \"password\": \"wrong\"}");
    assert_eq!(resp.status, 200);
    assert_eq!(resp.body, b("{\"success\": false}"));
    assert_eq!(header(&resp.headers, "set-cookie"), None);
}

#[test]
fn login_with_malformed_body_is_an_error() {
    let dir = tempfile::tempdir().unwrap();
    let state = auth_state(&dir);
    let resp = do_login(&state, "not json at all");
    assert_eq!(resp.status, 500);
}

#[test]
fn login_issues_a_scoped_cookie_and_token_validates() {
    let dir = tempfile::tempdir().unwrap();
    let state = auth_state(&dir);
    let resp = do_login(&state, "{\"username\": \"a\", \"password\": \"b\"}");
    assert_eq!(resp.status, 200);
    assert_eq!(resp.body, b("{\"success\": true}"));
    let cookie = String::from_utf8(header(&resp.headers, "set-cookie").unwrap().clone()).unwrap();
    assert!(cookie.contains("; Domain=mirror.local"));
    assert!(cookie.contains("; Expires="));
    assert!(cookie.ends_with("; Secure; HttpOnly"));
    let token = issued_token(&resp);

    let mut next = request("mirror.local", "/any");
    let mut cookie_value = b("__wj_token=");
    cookie_value.extend_from_slice(&token);
    next.headers.push((b("Cookie"), cookie_value));
    match forward_request(&state, next) {
        ForwardDecision::Upstream(plan) => {
            assert_eq!(plan.host, b("example.com"));
        },
        ForwardDecision::Respond(_) => panic!("a valid token must reach upstream"),
    }
}

#[test]
fn invalid_token_gets_the_login_page() {
    let dir = tempfile::tempdir().unwrap();
    let state = auth_state(&dir);
    let mut req = request("mirror.local", "/any");
    req.headers.push((b("Cookie"), b("__wj_token=00000000-0000-0000-0000-000000000000")));
    match forward_request(&state, req) {
        ForwardDecision::Respond(resp) => {
            assert_eq!(resp.status, 200);
            assert_eq!(resp.body, b("<html>login</html>"));
        },
        ForwardDecision::Upstream(_) => panic!("an unknown token must be turned away"),
    }
}

#[test]
fn issued_token_survives_a_restart() {
    let dir = tempfile::tempdir().unwrap();
    let state = auth_state(&dir);
    let resp = do_login(&state, "{\"username\": \"a\", \"password\": \"b\"}");
    let token = issued_token(&resp);
    drop(state);

    let db = redb::Database::open(dir.path().join("db.redb")).unwrap();
    let reopened =
        ForwardState::new(auth_config(), TokenStore::new(db), b("<html>login</html>")).unwrap();
    let mut req = request("mirror.local", "/any");
    let mut cookie_value = b("__wj_token=");
    cookie_value.extend_from_slice(&token);
    req.headers.push((b("Cookie"), cookie_value));
    match forward_request(&reopened, req) {
        ForwardDecision::Upstream(plan) => {
            assert_eq!(plan.host, b("example.com"));
        },
        ForwardDecision::Respond(_) => panic!("the token must survive a restart"),
    }
}

#[test]
fn login_path_is_reserved_even_with_a_cookie() {
    let dir = tempfile::tempdir().unwrap();
    let state = auth_state(&dir);
    let resp = do_login(&state, "{\"username\": \"a\", \"password\": \"b\"}");
    assert_eq!(resp.body, b("{\"success\": true}"));
}

#[test]
fn cookie_header_parsing_finds_the_token() {
    assert_eq!(cookie_token(&b("__wj_token=abc")), Some(b("abc")));
    assert_eq!(cookie_token(&b("a=1; __wj_token=xyz; b=2")), Some(b("xyz")));
    // a pair splits on its first equals sign; the value keeps the rest
    assert_eq!(cookie_token(&b("a=1; __wj_token=x=y; b=2")), Some(b("x=y")));
    assert_eq!(cookie_token(&b("__wj_tokenx=1")), None);
    assert_eq!(cookie_token(&b("a=1; b=2")), None);
    assert_eq!(cookie_token(&b("")), None);
}

#[test]
fn login_body_parsing_accepts_the_documented_form() {
    assert_eq!(
        login_fields(&b("{\"username\": \"a\", \"password\": \"b\"}")),
        Some((b("a"), b("b")))
    );
    assert_eq!(
        login_fields(&b("  {  \"password\" : \"p\" , \"username\" : \"u\" }  ")),
        Some((b("u"), b("p")))
    );
    assert_eq!(
        login_fields(&b("{\"username\": \"a\\n\\\"quoted\\\"\", \"password\": \"\\u0041\"}")),
        Some((b("a\n\"quoted\""), b("A")))
    );
    assert_eq!(
        login_fields(&b("{\"username\": \"a\", \"password\": \"b\", \"extra\": \"x\"}")),
        Some((b("a"), b("b")))
    );
}

#[test]
fn login_body_parsing_rejects_malformed_bodies() {
    assert_eq!(login_fields(&b("")), None);
    assert_eq!(login_fields(&b("{\"username\": \"a\"}")), None);
    assert_eq!(login_fields(&b("{\"username\": \"a\", \"username\": \"b\", \"password\": \"c\"}")), None);
    assert_eq!(login_fields(&b("{\"username\": \"a\", \"password\": \"b\"} trailing")), None);
    assert_eq!(login_fields(&b("[\"username\", \"password\"]")), None);
}

#[test]
fn disabled_authorization_passes_everything() {
    let dir = tempfile::tempdir().unwrap();
    let db = redb::Database::create(dir.path().join("db.redb")).unwrap();
    let mut config = auth_config();
    config.authorization.enabled = false;
    let state = ForwardState::new(config, TokenStore::new(db), b("page")).unwrap();
    match forward_request(&state, request("mirror.local", "/any")) {
        ForwardDecision::Upstream(plan) => assert_eq!(plan.host, b("example.com")),
        ForwardDecision::Respond(_) => panic!("gate must be off"),
    }
}

#[test]
fn gate_decision_follows_the_store() {
    let dir = tempfile::tempdir().unwrap();
    let state = auth_state(&dir);

    match gate_decision(&state, request("mirror.local", "/any"), Ok(true)) {
        ForwardDecision::Upstream(plan) => {
            assert_eq!(plan.host, b("example.com"));
            assert_eq!(header(&plan.headers, "x-web-jingzi"), Some(&b("true")));
        },
        ForwardDecision::Respond(_) => panic!("a stored token must reach upstream"),
    }

    match gate_decision(&state, request("mirror.local", "/any"), Ok(false)) {
        ForwardDecision::Respond(resp) => {
            assert_eq!(resp.status, 200);
            assert_eq!(resp.body, b("<html>login</html>"));
        },
        ForwardDecision::Upstream(_) => panic!("an absent token must be turned away"),
    }

    match gate_decision(&state, request("mirror.local", "/any"), Err(())) {
        ForwardDecision::Respond(resp) => {
            assert_eq!(resp.status, 500);
            assert_eq!(resp.body, b("token store error"));
        },
        ForwardDecision::Upstream(_) => panic!("a store failure must not reach upstream"),
    }
}

#[test]
fn login_outcome_carries_the_issued_token() {
    let token = b("0123456789abcdef-0123-4567-89ab-cdef");
    let date = b("Sat, 11 Oct 2036 00:00:00 +0000");
    let resp = login_outcome(&b("mirror.local"), &token, &date, true);
    assert_eq!(resp.status, 200);
    assert_eq!(resp.body, b("{\"success\": true}"));
    assert_eq!(
        header(&resp.headers, "set-cookie"),
        Some(&b(
            "__wj_token=0123456789abcdef-0123-4567-89ab-cdef; Domain=mirror.local; \
             Expires=Sat, 11 Oct 2036 00:00:00 +0000; Secure; HttpOnly"
        ))
    );

    let failed = login_outcome(&b("mirror.local"), &token, &date, false);
    assert_eq!(failed.status, 500);
    assert_eq!(failed.body, b("token store error"));
}
