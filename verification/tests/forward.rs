//! The forward pipeline: loop prevention, rewrites, scheme decisions,
//! the response transforms and the body codec.

use async_compression::futures::bufread::{BrotliEncoder, DeflateEncoder, GzipDecoder, GzipEncoder};
use futures_lite::future::block_on;
use futures_lite::io::AsyncReadExt;

use web_jingzi::codec::{decode_payload, encode_payload, encoding_of, Encoding};
use web_jingzi::config::{Authorization, Config};
use web_jingzi::httpmodel::{essence_of, HttpRequest, HttpResponse};
use web_jingzi::pipeline::{process_response, forward_request, ForwardDecision, ForwardState};
use web_jingzi::store::TokenStore;

fn b(s: &str) -> Vec<u8> {
    s.as_bytes().to_vec()
}

fn gzip(data: &[u8]) -> Vec<u8> {
    let mut enc = GzipEncoder::new(data);
    let mut out = Vec::new();
    block_on(enc.read_to_end(&mut out)).unwrap();
    out
}

fn gunzip(data: &[u8]) -> Vec<u8> {
    let mut dec = GzipDecoder::new(data);
    let mut out = Vec::new();
    block_on(dec.read_to_end(&mut out)).unwrap();
    out
}

fn state_with(use_https: Option<Vec<Vec<u8>>>) -> (ForwardState, tempfile::TempDir) {
    let dir = tempfile::tempdir().unwrap();
    let db = redb::Database::create(dir.path().join("db.redb")).unwrap();
    let config = Config {
        listen_address: b("127.0.0.1:8080"),
        domain_name: vec![(b("mirror.local"), b("example.com"))],
        use_https,
        data_dir: b("data"),
        authorization: Authorization { enabled: false, domain_list: None, account: None },
    };
    let state = ForwardState::new(config, TokenStore::new(db), b("<html>login</html>")).unwrap();
    (state, dir)
}

fn get_request(host: &str, path: &str) -> HttpRequest {
    HttpRequest {
        method: b("GET"),
        scheme: b("http"),
        host: b(host),
        port: None,
        path: b(path),
        query: Vec::new(),
        headers: Vec::new(),
        body: Vec::new(),
    }
}

fn header<'a>(headers: &'a [(Vec<u8>, Vec<u8>)], name: &str) -> Option<&'a Vec<u8>> {
    let lower: Vec<u8> = name.bytes().map(|c| c.to_ascii_lowercase()).collect();
    headers
        .iter()
        .find(|(n, _)| n.iter().map(|c| c.to_ascii_lowercase()).collect::<Vec<u8>>() == lower)
        .map(|(_, v)| v)
}

#[test]
fn plain_request_becomes_upstream_plan() {
    let (state, _dir) = state_with(None);
    let req = get_request("mirror.local", "/page");
    match forward_request(&state, req) {
        ForwardDecision::Upstream(plan) => {
            assert!(!plan.https);
            assert_eq!(plan.host, b("example.com"));
            assert_eq!(plan.port, 80);
            assert_eq!(plan.method, b("GET"));
            assert_eq!(plan.path, b("/page"));
            assert_eq!(plan.query_string, b(""));
            assert_eq!(header(&plan.headers, "x-web-jingzi"), Some(&b("true")));
            assert_eq!(header(&plan.headers, "host"), Some(&b("example.com")));
        },
        ForwardDecision::Respond(_) => panic!("expected an upstream plan"),
    }
}

#[test]
fn sentinel_appears_exactly_once_upstream() {
    let (state, _dir) = state_with(None);
    let req = get_request("mirror.local", "/page");
    match forward_request(&state, req) {
        ForwardDecision::Upstream(plan) => {
            let n = plan
                .headers
                .iter()
                .filter(|(name, _)| name.eq_ignore_ascii_case(b"x-web-jingzi".as_slice()))
                .count();
            assert_eq!(n, 1);
        },
        ForwardDecision::Respond(_) => panic!("expected an upstream plan"),
    }
}

#[test]
fn inbound_sentinel_is_rejected_with_500() {
    let (state, _dir) = state_with(None);
    let mut req = get_request("mirror.local", "/page");
    req.headers.push((b("X-Web-Jingzi"), b("true")));
    match forward_request(&state, req) {
        ForwardDecision::Respond(resp) => {
            assert_eq!(resp.status, 500);
            assert_eq!(resp.body, b("may be circular request"));
            assert_eq!(header(&resp.headers, "content-type"), Some(&b("text/plain")));
        },
        ForwardDecision::Upstream(_) => panic!("circular request must not go upstream"),
    }
}

#[test]
fn missing_host_is_rejected() {
    let (state, _dir) = state_with(None);
    let req = get_request("", "/page");
    match forward_request(&state, req) {
        ForwardDecision::Respond(resp) => {
            assert_eq!(resp.status, 500);
            assert_eq!(resp.body, b("missing domain in request"));
        },
        ForwardDecision::Upstream(_) => panic!("expected an error answer"),
    }
}

#[test]
fn forced_https_dials_443_with_real_host() {
    let (state, _dir) = state_with(Some(vec![b("mirror.local")]));
    let req = get_request("mirror.local", "/p");
    match forward_request(&state, req) {
        ForwardDecision::Upstream(plan) => {
            assert!(plan.https);
            assert_eq!(plan.host, b("example.com"));
            assert_eq!(plan.port, 443);
        },
        ForwardDecision::Respond(_) => panic!("expected an upstream plan"),
    }
}

#[test]
fn explicit_port_is_kept() {
    let (state, _dir) = state_with(Some(vec![b("mirror.local")]));
    let mut req = get_request("mirror.local", "/p");
    req.port = Some(8443);
    match forward_request(&state, req) {
        ForwardDecision::Upstream(plan) => {
            assert!(plan.https);
            assert_eq!(plan.port, 8443);
        },
        ForwardDecision::Respond(_) => panic!("expected an upstream plan"),
    }
}

#[test]
fn x_scheme_header_picks_the_scheme() {
    let (state, _dir) = state_with(None);
    let mut req = get_request("mirror.local", "/p");
    req.headers.push((b("X-Scheme"), b("https")));
    match forward_request(&state, req) {
        ForwardDecision::Upstream(plan) => {
            assert!(plan.https);
            assert_eq!(plan.port, 443);
        },
        ForwardDecision::Respond(_) => panic!("expected an upstream plan"),
    }
}

#[test]
fn invalid_scheme_is_rejected() {
    let (state, _dir) = state_with(None);
    let mut req = get_request("mirror.local", "/p");
    req.headers.push((b("X-Scheme"), b("gopher")));
    match forward_request(&state, req) {
        ForwardDecision::Respond(resp) => {
            assert_eq!(resp.status, 500);
            assert_eq!(resp.body, b("invalid request"));
        },
        ForwardDecision::Upstream(_) => panic!("expected an error answer"),
    }
}

#[test]
fn undialable_scheme_is_rejected_by_name() {
    let (state, _dir) = state_with(None);
    let mut req = get_request("mirror.local", "/p");
    req.headers.push((b("X-Scheme"), b("ftp")));
    match forward_request(&state, req) {
        ForwardDecision::Respond(resp) => {
            assert_eq!(resp.status, 500);
            assert_eq!(resp.body, b("unsupported scheme: ftp"));
        },
        ForwardDecision::Upstream(_) => panic!("expected an error answer"),
    }
}

#[test]
fn query_values_are_restored_keys_untouched() {
    let (state, _dir) = state_with(None);
    let mut req = get_request("mirror.local", "/p");
    req.query.push((b("next"), b("http://mirror.local/x")));
    req.query.push((b("mirror.local"), b("plain")));
    match forward_request(&state, req) {
        ForwardDecision::Upstream(plan) => {
            assert_eq!(
                plan.query_string,
                b("next=http://example.com/x&mirror.local=plain")
            );
        },
        ForwardDecision::Respond(_) => panic!("expected an upstream plan"),
    }
}

#[test]
fn origin_referer_and_body_are_restored() {
    let (state, _dir) = state_with(None);
    let mut req = get_request("mirror.local", "/p");
    req.headers.push((b("Origin"), b("http://mirror.local")));
    req.headers.push((b("Referer"), b("http://mirror.local/from")));
    req.headers.push((b("Content-Type"), b("application/x-www-form-urlencoded")));
    req.body = b("target=mirror.local");
    match forward_request(&state, req) {
        ForwardDecision::Upstream(plan) => {
            assert_eq!(header(&plan.headers, "origin"), Some(&b("http://example.com")));
            assert_eq!(header(&plan.headers, "referer"), Some(&b("http://example.com/from")));
            assert_eq!(plan.body, b("target=example.com"));
        },
        ForwardDecision::Respond(_) => panic!("expected an upstream plan"),
    }
}

#[test]
fn binary_request_body_passes_through() {
    let (state, _dir) = state_with(None);
    let mut req = get_request("mirror.local", "/p");
    req.headers.push((b("Content-Type"), b("text/plain")));
    req.body = vec![0xff, 0xfe, 0xfd];
    match forward_request(&state, req) {
        ForwardDecision::Upstream(plan) => {
            assert_eq!(plan.body, vec![0xff, 0xfe, 0xfd]);
        },
        ForwardDecision::Respond(_) => panic!("expected an upstream plan"),
    }
}

#[test]
fn plain_html_response_is_rewritten() {
    let (state, _dir) = state_with(None);
    let resp = HttpResponse {
        status: 200,
        headers: vec![(b("content-type"), b("text/html"))],
        body: b("<a href=\"https://example.com/x\">"),
    };
    let out = process_response(&state, resp);
    assert_eq!(out.status, 200);
    assert_eq!(out.body, b("<a href=\"https://mirror.local/x\">"));
}

#[test]
fn response_media_types_outside_the_list_pass_through() {
    let (state, _dir) = state_with(None);
    let resp = HttpResponse {
        status: 200,
        headers: vec![(b("content-type"), b("image/png"))],
        body: b("example.com"),
    };
    let out = process_response(&state, resp);
    assert_eq!(out.body, b("example.com"));
}

#[test]
fn outbound_headers_are_replaced() {
    let (state, _dir) = state_with(None);
    let resp = HttpResponse {
        status: 302,
        headers: vec![
            (b("location"), b("https://example.com/next")),
            (b("set-cookie"), b("sid=1; Domain=example.com")),
            (b("x-unrelated"), b("example.com")),
        ],
        body: Vec::new(),
    };
    let out = process_response(&state, resp);
    assert_eq!(header(&out.headers, "location"), Some(&b("https://mirror.local/next")));
    assert_eq!(header(&out.headers, "set-cookie"), Some(&b("sid=1; Domain=mirror.local")));
    // headers outside the rewrite list keep their value
    assert_eq!(header(&out.headers, "x-unrelated"), Some(&b("example.com")));
}

#[test]
fn not_modified_passes_body_and_other_headers_through() {
    let (state, _dir) = state_with(None);
    let resp = HttpResponse {
        status: 304,
        headers: vec![
            (b("content-type"), b("text/html")),
            (b("etag"), b("\"abc\"")),
            (b("location"), b("https://example.com/next")),
        ],
        body: b("example.com stays as it is"),
    };
    let out = process_response(&state, resp);
    assert_eq!(out.status, 304);
    assert_eq!(out.body, b("example.com stays as it is"));
    assert_eq!(header(&out.headers, "etag"), Some(&b("\"abc\"")));
    assert_eq!(header(&out.headers, "location"), Some(&b("https://mirror.local/next")));
}

#[test]
fn gzip_response_is_transcoded() {
    let (state, _dir) = state_with(None);
    let resp = HttpResponse {
        status: 200,
        headers: vec![
            (b("content-type"), b("text/html")),
            (b("content-encoding"), b("gzip")),
            (b("content-length"), b("32")),
        ],
        body: gzip(b"example.com"),
    };
    let out = process_response(&state, resp);
    assert_eq!(out.status, 200);
    assert_eq!(header(&out.headers, "content-encoding"), Some(&b("gzip")));
    assert_eq!(header(&out.headers, "content-length"), None);
    assert_eq!(gunzip(&out.body), b("mirror.local"));
}

#[test]
fn codec_is_transparent_without_real_domain() {
    let (state, _dir) = state_with(None);
    let resp = HttpResponse {
        status: 200,
        headers: vec![
            (b("content-type"), b("text/html")),
            (b("content-encoding"), b("gzip")),
        ],
        body: gzip(b"nothing to see here"),
    };
    let out = process_response(&state, resp);
    assert_eq!(gunzip(&out.body), b("nothing to see here"));
}

#[test]
fn unknown_encoding_passes_through() {
    let (state, _dir) = state_with(None);
    let body = b("compressed-somehow example.com");
    let resp = HttpResponse {
        status: 200,
        headers: vec![
            (b("content-type"), b("text/html")),
            (b("content-encoding"), b("zstd")),
        ],
        body: body.clone(),
    };
    let out = process_response(&state, resp);
    assert_eq!(out.body, body);
}

#[test]
fn malformed_gzip_body_is_left_alone() {
    let (state, _dir) = state_with(None);
    let resp = HttpResponse {
        status: 200,
        headers: vec![
            (b("content-type"), b("text/html")),
            (b("content-encoding"), b("gzip")),
        ],
        body: b("this is not gzip"),
    };
    let out = process_response(&state, resp);
    assert_eq!(out.body, b("this is not gzip"));
}

#[test]
fn payload_codecs_round_trip() {
    let data = b("a body worth compressing, long enough to matter");
    for enc in [Encoding::Gzip, Encoding::Brotli, Encoding::Deflate] {
        let packed = encode_payload(enc, &data).unwrap();
        assert_ne!(packed, data);
        assert_eq!(decode_payload(enc, &packed).unwrap(), data);
    }
    assert_eq!(decode_payload(Encoding::Gzip, &b("junk")), None);
}

#[test]
fn external_encoders_agree_with_the_codecs() {
    let data = b("example payload");
    let mut brotli = Vec::new();
    block_on(BrotliEncoder::new(&data[..]).read_to_end(&mut brotli)).unwrap();
    assert_eq!(decode_payload(Encoding::Brotli, &brotli).unwrap(), data);
    let mut deflate = Vec::new();
    block_on(DeflateEncoder::new(&data[..]).read_to_end(&mut deflate)).unwrap();
    assert_eq!(decode_payload(Encoding::Deflate, &deflate).unwrap(), data);
}

#[test]
fn content_type_essence_is_normalized() {
    assert_eq!(essence_of(&b("TEXT/HTML; charset=UTF-8")), b("text/html"));
    assert_eq!(essence_of(&b("  application/json  ")), b("application/json"));
    assert_eq!(essence_of(&b("text/plain")), b("text/plain"));
}

#[test]
fn encoding_tokens_are_recognized_exactly() {
    assert_eq!(encoding_of(&b("gzip")), Some(Encoding::Gzip));
    assert_eq!(encoding_of(&b("br")), Some(Encoding::Brotli));
    assert_eq!(encoding_of(&b("deflate")), Some(Encoding::Deflate));
    assert_eq!(encoding_of(&b("GZIP")), None);
    assert_eq!(encoding_of(&b("zstd")), None);
}
