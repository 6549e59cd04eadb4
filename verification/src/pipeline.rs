//! The forward pipeline: the per-request state machine of the proxy.
//!
//! A request passes the authorization gate, the loop check, the inbound
//! rewrites (query, path, host, headers, body), and becomes an upstream
//! plan that the application dials; the upstream response then passes
//! the outbound rewrites and the body codec. Every decision here is a
//! function of the request, the immutable state, and the token store's
//! answers.

use vstd::prelude::*;

use vstd::string::StrSliceExecFns;
use vstd::string::StringSliceAdditionalSpecFns;
use vstd::utf8::valid_utf8;

use crate::auth::{
    account_matches, accounts_view, find_protected, http_date_days_from_now,
    new_token, spec_account_matches, spec_find_protected, spec_token_in_cookies, token_in_cookies,
};
use crate::codec::{
    decode_payload, encode_payload, encoding_of, is_utf8, spec_decoded, spec_encodable,
    spec_encoding_of,
};
use crate::config::{Account, Config};
use crate::domain::{
    clone_bytes, entries_view, has_conflict, aliases_of, AliasTable, ConfigError, spec_forward,
    spec_reverse,
};
use crate::httpmodel::{
    append_header, lower, spec_count_header, essence_of, get_header, header_values, insert_header, spec_essence,
    spec_get_header, spec_header_values, spec_is_rewritable, spec_remove_header, HttpRequest,
    HttpResponse, is_rewritable_media,
};
use crate::json::{login_fields, spec_login_fields};
use crate::store::TokenStore;
use crate::textops::{append_bytes, pairs_view};

verus! {

/// The loop-prevention sentinel header.
pub open spec fn sentinel_name() -> Seq<u8> {
    "X-Web-Jingzi".spec_bytes()
}

/// The reserved login path.
pub open spec fn login_path() -> Seq<u8> {
    "/__wj__login".spec_bytes()
}

/// How long an issued cookie lasts, in days.
pub const TOKEN_LIFETIME_DAYS: i64 = 3650;

/// The immutable per-process state handed to every request handler.
pub struct ForwardState {
    pub table: AliasTable,
    pub use_https: Vec<Vec<u8>>,
    pub auth_enabled: bool,
    pub domain_list: Vec<Vec<u8>>,
    pub accounts: Vec<Account>,
    pub login_page: Vec<u8>,
    pub store: TokenStore,
}

/// What the pipeline decides for one request: answer the client at once,
/// or dial upstream with the rewritten request.
pub enum ForwardDecision {
    Respond(HttpResponse),
    Upstream(UpstreamPlan),
}

/// The rewritten upstream request and where to send it.
pub struct UpstreamPlan {
    pub https: bool,
    pub host: Vec<u8>,
    pub port: u16,
    pub method: Vec<u8>,
    pub path: Vec<u8>,
    pub query_string: Vec<u8>,
    pub headers: Vec<(Vec<u8>, Vec<u8>)>,
    pub body: Vec<u8>,
}

impl ForwardState {
    /// Validate the configuration and assemble the state. The login page
    /// asset and the opened token store come from the application.
    pub fn new(config: Config, store: TokenStore, login_page: Vec<u8>) -> (r: Result<
        ForwardState,
        ConfigError,
    >)
        ensures
            match r {
                Ok(s) => {
                    &&& s.table.entries() == entries_view(config.domain_name@)
                    &&& s.table.wf()
                    &&& s.use_https@ == (match config.use_https {
                        Some(v) => v@,
                        None => Seq::<Vec<u8>>::empty(),
                    })
                    &&& s.auth_enabled == config.authorization.enabled
                    &&& s.domain_list@ == (match config.authorization.domain_list {
                        Some(v) => v@,
                        None => Seq::<Vec<u8>>::empty(),
                    })
                    &&& s.accounts@ == (match config.authorization.account {
                        Some(v) => v@,
                        None => Seq::<Account>::empty(),
                    })
                    &&& s.login_page@ == login_page@
                },
                Err(_) => has_conflict(aliases_of(entries_view(config.domain_name@))),
            },
    {
        let table = match AliasTable::build(config.domain_name) {
            Ok(t) => t,
            Err(e) => {
                return Err(e);
            },
        };
        let use_https = match config.use_https {
            Some(v) => v,
            None => Vec::new(),
        };
        let domain_list = match config.authorization.domain_list {
            Some(v) => v,
            None => Vec::new(),
        };
        let accounts = match config.authorization.account {
            Some(v) => v,
            None => Vec::new(),
        };
        Ok(
            ForwardState {
                table,
                use_https,
                auth_enabled: config.authorization.enabled,
                domain_list,
                accounts,
                login_page,
                store,
            },
        )
    }
}

/// A plain-text error answer with status 500.
pub open spec fn spec_error_response(resp: HttpResponse, msg: Seq<u8>) -> bool {
    &&& resp.status == 500
    &&& pairs_view(resp.headers@) == seq![("content-type".spec_bytes(), "text/plain".spec_bytes())]
    &&& resp.body@ == msg
}

/// Build a plain-text error answer with status 500.
pub fn http_error(msg: &Vec<u8>) -> (r: HttpResponse)
    ensures
        spec_error_response(r, msg@),
{
    let mut headers: Vec<(Vec<u8>, Vec<u8>)> = Vec::new();
    headers.push(("content-type".as_bytes_vec(), "text/plain".as_bytes_vec()));
    proof {
        assert(pairs_view(headers@) =~= seq![
            ("content-type".spec_bytes(), "text/plain".spec_bytes()),
        ]);
    }
    HttpResponse { status: 500, headers, body: clone_bytes(msg) }
}

/// The JSON body of a login answer.
pub open spec fn spec_result_body(success: bool) -> Seq<u8> {
    if success {
        "{\"success\": true}".spec_bytes()
    } else {
        "{\"success\": false}".spec_bytes()
    }
}

/// A login answer: status 200 with the JSON result body.
pub open spec fn spec_result_response(resp: HttpResponse, success: bool) -> bool {
    &&& resp.status == 200
    &&& pairs_view(resp.headers@) == seq![
        ("content-type".spec_bytes(), "application/json".spec_bytes()),
    ]
    &&& resp.body@ == spec_result_body(success)
}

/// Build a login answer.
pub fn result_response(success: bool) -> (r: HttpResponse)
    ensures
        spec_result_response(r, success),
{
    let mut headers: Vec<(Vec<u8>, Vec<u8>)> = Vec::new();
    headers.push(("content-type".as_bytes_vec(), "application/json".as_bytes_vec()));
    proof {
        assert(pairs_view(headers@) =~= seq![
            ("content-type".spec_bytes(), "application/json".spec_bytes()),
        ]);
    }
    let body = if success {
        "{\"success\": true}".as_bytes_vec()
    } else {
        "{\"success\": false}".as_bytes_vec()
    };
    HttpResponse { status: 200, headers, body }
}

/// The login page answer: status 200, HTML, the configured asset.
pub open spec fn spec_login_page_response(resp: HttpResponse, page: Seq<u8>) -> bool {
    &&& resp.status == 200
    &&& pairs_view(resp.headers@) == seq![("content-type".spec_bytes(), "text/html".spec_bytes())]
    &&& resp.body@ == page
}

/// Build the login page answer.
pub fn show_login_page(page: &Vec<u8>) -> (r: HttpResponse)
    ensures
        spec_login_page_response(r, page@),
{
    let mut headers: Vec<(Vec<u8>, Vec<u8>)> = Vec::new();
    headers.push(("content-type".as_bytes_vec(), "text/html".as_bytes_vec()));
    proof {
        assert(pairs_view(headers@) =~= seq![
            ("content-type".spec_bytes(), "text/html".spec_bytes()),
        ]);
    }
    HttpResponse { status: 200, headers, body: clone_bytes(page) }
}

/// The Set-Cookie value issued on a successful login.
pub open spec fn spec_set_cookie_value(token: Seq<u8>, domain: Seq<u8>, date: Seq<u8>) -> Seq<
    u8,
> {
    "__wj_token=".spec_bytes() + token + "; Domain=".spec_bytes() + domain
        + "; Expires=".spec_bytes() + date + "; Secure; HttpOnly".spec_bytes()
}

/// A successful login answer: the success body and a Set-Cookie header
/// carrying some fresh 36-character token scoped to the matched domain.
pub open spec fn spec_login_success_response(resp: HttpResponse, domain: Seq<u8>) -> bool {
    &&& resp.status == 200
    &&& resp.body@ == spec_result_body(true)
    &&& exists|token: Seq<u8>, date: Seq<u8>|
        token.len() == 36 && pairs_view(resp.headers@) == seq![
            ("content-type".spec_bytes(), "application/json".spec_bytes()),
            ("Set-Cookie".spec_bytes(), spec_set_cookie_value(token, domain, date)),
        ]
}

/// What a login answer may be: a parse failure is an error; wrong
/// credentials fail; right credentials succeed with a persisted token,
/// or surface a store failure.
pub open spec fn spec_login_post(
    accounts: Seq<(Seq<u8>, Seq<u8>)>,
    body: Seq<u8>,
    domain: Seq<u8>,
    resp: HttpResponse,
) -> bool {
    match spec_login_fields(body) {
        None => spec_error_response(resp, "invalid login request".spec_bytes()),
        Some(c) => {
            if !spec_account_matches(accounts, c.0, c.1) {
                spec_result_response(resp, false)
            } else {
                spec_login_success_response(resp, domain) || spec_error_response(
                    resp,
                    "token store error".spec_bytes(),
                )
            }
        },
    }
}

/// Answer a login whose credentials matched, from the store's answer on
/// the freshly issued token: a persisted token is returned to the client
/// in its cookie, exactly as handed in; a store failure is a plain 500.
pub fn login_outcome(domain: &Vec<u8>, token: &Vec<u8>, date: &Vec<u8>, stored: bool) -> (r:
    HttpResponse)
    ensures
        stored ==> {
            &&& r.status == 200
            &&& r.body@ == spec_result_body(true)
            &&& pairs_view(r.headers@) == seq![
                ("content-type".spec_bytes(), "application/json".spec_bytes()),
                ("Set-Cookie".spec_bytes(), spec_set_cookie_value(token@, domain@, date@)),
            ]
        },
        !stored ==> spec_error_response(r, "token store error".spec_bytes()),
{
    if !stored {
        return http_error(&"token store error".as_bytes_vec());
    }
    let mut cookie: Vec<u8> = "__wj_token=".as_bytes_vec();
    append_bytes(&mut cookie, token);
    append_bytes(&mut cookie, &"; Domain=".as_bytes_vec());
    append_bytes(&mut cookie, domain);
    append_bytes(&mut cookie, &"; Expires=".as_bytes_vec());
    append_bytes(&mut cookie, date);
    append_bytes(&mut cookie, &"; Secure; HttpOnly".as_bytes_vec());
    let mut resp = result_response(true);
    append_header(&mut resp.headers, "Set-Cookie".as_bytes_vec(), cookie);
    proof {
        assert(pairs_view(resp.headers@) =~= seq![
            ("content-type".spec_bytes(), "application/json".spec_bytes()),
            ("Set-Cookie".spec_bytes(), spec_set_cookie_value(token@, domain@, date@)),
        ]);
    }
    resp
}

/// Handle a login submission on a protected domain: parse the JSON body,
/// compare the credentials, and on success persist a fresh token before
/// answering with its cookie, through `login_outcome`.
pub fn login(state: &ForwardState, req: &HttpRequest, domain: &Vec<u8>) -> (r: HttpResponse)
    ensures
        spec_login_post(accounts_view(state.accounts@), req.body@, domain@, r),
{
    let creds = match login_fields(&req.body) {
        Some(c) => c,
        None => {
            return http_error(&"invalid login request".as_bytes_vec());
        },
    };
    if !account_matches(&state.accounts, &creds.0, &creds.1) {
        return result_response(false);
    }
    let token = new_token();
    let stored = state.store.insert(&token);
    let date = http_date_days_from_now(TOKEN_LIFETIME_DAYS);
    let resp = login_outcome(domain, &token, &date, stored);
    proof {
        if stored {
            assert(spec_login_success_response(resp, domain@));
        }
    }
    resp
}

/// Replacing one header by a fresh entry at the end.
pub open spec fn spec_insert_hdr(
    hs: Seq<(Seq<u8>, Seq<u8>)>,
    name: Seq<u8>,
    value: Seq<u8>,
) -> Seq<(Seq<u8>, Seq<u8>)> {
    spec_remove_header(hs, name) + seq![(name, value)]
}

/// The scheme forced for this request, if any: `https` when the alias
/// host stands in the forced list, else the client's `X-Scheme` header.
pub open spec fn spec_scheme_override(
    use_https: Seq<Vec<u8>>,
    host: Seq<u8>,
    x_scheme: Option<Seq<u8>>,
) -> Option<Seq<u8>> {
    if exists|k: int| 0 <= k < use_https.len() && #[trigger] use_https[k]@ == host {
        Some("https".spec_bytes())
    } else {
        x_scheme
    }
}

/// The schemes a URL of a special scheme can be switched to.
pub open spec fn spec_scheme_settable(s: Seq<u8>) -> bool {
    ||| s == "http".spec_bytes()
    ||| s == "https".spec_bytes()
    ||| s == "ws".spec_bytes()
    ||| s == "wss".spec_bytes()
    ||| s == "ftp".spec_bytes()
    ||| s == "file".spec_bytes()
}

/// The default port of a scheme.
pub open spec fn spec_default_port(s: Seq<u8>) -> Option<u16> {
    if s == "http".spec_bytes() || s == "ws".spec_bytes() {
        Some(80u16)
    } else if s == "https".spec_bytes() || s == "wss".spec_bytes() {
        Some(443u16)
    } else if s == "ftp".spec_bytes() {
        Some(21u16)
    } else {
        None
    }
}

/// The port to dial: the explicit one, else the scheme's default.
pub open spec fn spec_effective_port(port: Option<u16>, scheme: Seq<u8>) -> Option<u16> {
    match port {
        Some(p) => Some(p),
        None => spec_default_port(scheme),
    }
}

/// One rewritten query pair, `key=value` with the value restored.
pub open spec fn spec_query_item(entries: Seq<(Seq<u8>, Seq<u8>)>, kv: (Seq<u8>, Seq<u8>)) -> Seq<
    u8,
> {
    kv.0 + "=".spec_bytes() + spec_forward(entries, kv.1)
}

/// The remaining query pairs, each preceded by `&`.
pub open spec fn spec_query_rest(
    entries: Seq<(Seq<u8>, Seq<u8>)>,
    q: Seq<(Seq<u8>, Seq<u8>)>,
) -> Seq<u8>
    decreases q.len(),
{
    if q.len() == 0 {
        Seq::empty()
    } else {
        "&".spec_bytes() + spec_query_item(entries, q[0]) + spec_query_rest(
            entries,
            q.drop_first(),
        )
    }
}

/// The whole rewritten query string.
pub open spec fn spec_query_string(
    entries: Seq<(Seq<u8>, Seq<u8>)>,
    q: Seq<(Seq<u8>, Seq<u8>)>,
) -> Seq<u8> {
    if q.len() == 0 {
        Seq::empty()
    } else {
        spec_query_item(entries, q[0]) + spec_query_rest(entries, q.drop_first())
    }
}

/// Rejoin the query with every value restored, `k=v` pairs joined by `&`.
pub fn rewrite_query(table: &AliasTable, query: &Vec<(Vec<u8>, Vec<u8>)>) -> (r: Vec<u8>)
    ensures
        r@ == spec_query_string(table.entries(), pairs_view(query@)),
{
    let ghost entries = table.entries();
    let ghost qv = pairs_view(query@);
    if query.len() == 0 {
        let out: Vec<u8> = Vec::new();
        assert(out@ =~= Seq::<u8>::empty());
        return out;
    }
    let mut out = clone_bytes(&query[0].0);
    append_bytes(&mut out, &"=".as_bytes_vec());
    let v0 = table.forward_substitute(&query[0].1);
    append_bytes(&mut out, &v0);
    proof {
        assert(qv[0] == (query@[0].0@, query@[0].1@));
        assert(out@ =~= spec_query_item(entries, qv[0]));
    }
    let mut i: usize = 1;
    while i < query.len()
        invariant
            entries == table.entries(),
            qv == pairs_view(query@),
            qv.len() == query@.len() >= 1,
            1 <= i <= query.len(),
            out@ + spec_query_rest(entries, qv.skip(i as int)) == spec_query_string(entries, qv),
        decreases query.len() - i,
    {
        proof {
            assert(qv.skip(i as int)[0] == qv[i as int]);
            assert(qv.skip(i as int).drop_first() =~= qv.skip(i + 1 as int));
            assert(qv[i as int] == (query@[i as int].0@, query@[i as int].1@));
        }
        append_bytes(&mut out, &"&".as_bytes_vec());
        append_bytes(&mut out, &clone_bytes(&query[i].0));
        append_bytes(&mut out, &"=".as_bytes_vec());
        let vi = table.forward_substitute(&query[i].1);
        append_bytes(&mut out, &vi);
        i += 1;
    }
    proof {
        assert(qv.skip(i as int) =~= Seq::<(Seq<u8>, Seq<u8>)>::empty());
        assert(out@ + Seq::<u8>::empty() =~= out@);
    }
    out
}

/// Exact membership in a list of byte strings.
pub fn contains_exact(list: &Vec<Vec<u8>>, x: &Vec<u8>) -> (r: bool)
    ensures
        r == exists|k: int| 0 <= k < list@.len() && #[trigger] list@[k]@ == x@,
{
    let mut i: usize = 0;
    while i < list.len()
        invariant
            i <= list.len(),
            forall|k: int| 0 <= k < i ==> #[trigger] list@[k]@ != x@,
        decreases list.len() - i,
    {
        if crate::domain::bytes_eq(&list[i], x) {
            assert(list@[i as int]@ == x@);
            return true;
        }
        i += 1;
    }
    false
}

/// Whether a scheme can replace `http` on a URL.
fn scheme_settable(s: &Vec<u8>) -> (r: bool)
    ensures
        r == spec_scheme_settable(s@),
{
    crate::domain::bytes_eq(s, &"http".as_bytes_vec()) || crate::domain::bytes_eq(
        s,
        &"https".as_bytes_vec(),
    ) || crate::domain::bytes_eq(s, &"ws".as_bytes_vec()) || crate::domain::bytes_eq(
        s,
        &"wss".as_bytes_vec(),
    ) || crate::domain::bytes_eq(s, &"ftp".as_bytes_vec()) || crate::domain::bytes_eq(
        s,
        &"file".as_bytes_vec(),
    )
}

/// The default port of a scheme.
fn default_port(s: &Vec<u8>) -> (r: Option<u16>)
    ensures
        r == spec_default_port(s@),
{
    if crate::domain::bytes_eq(s, &"http".as_bytes_vec()) || crate::domain::bytes_eq(
        s,
        &"ws".as_bytes_vec(),
    ) {
        Some(80)
    } else if crate::domain::bytes_eq(s, &"https".as_bytes_vec()) || crate::domain::bytes_eq(
        s,
        &"wss".as_bytes_vec(),
    ) {
        Some(443)
    } else if crate::domain::bytes_eq(s, &"ftp".as_bytes_vec()) {
        Some(21)
    } else {
        None
    }
}

/// The headers of the upstream request: the sentinel set to `true`, the
/// `Host` header set to the restored host, and `Origin` and `Referer`
/// restored where present.
pub open spec fn spec_prepared_headers(
    entries: Seq<(Seq<u8>, Seq<u8>)>,
    req: HttpRequest,
) -> Seq<(Seq<u8>, Seq<u8>)> {
    let hv = pairs_view(req.headers@);
    let h1 = spec_insert_hdr(hv, "X-Web-Jingzi".spec_bytes(), "true".spec_bytes());
    let h2 = spec_insert_hdr(h1, "host".spec_bytes(), spec_forward(entries, req.host@));
    let h3 = match spec_get_header(hv, "origin".spec_bytes()) {
        Some(v) => spec_insert_hdr(h2, "origin".spec_bytes(), spec_forward(entries, v)),
        None => h2,
    };
    match spec_get_header(hv, "referer".spec_bytes()) {
        Some(v) => spec_insert_hdr(h3, "referer".spec_bytes(), spec_forward(entries, v)),
        None => h3,
    }
}

/// The body of the upstream request: restored when the Content-Type
/// essence is rewritable and the body is UTF-8, untouched otherwise.
pub open spec fn spec_prepared_body(entries: Seq<(Seq<u8>, Seq<u8>)>, req: HttpRequest) -> Seq<
    u8,
> {
    match spec_get_header(pairs_view(req.headers@), "content-type".spec_bytes()) {
        Some(ct) => {
            if spec_is_rewritable(spec_essence(ct)) && valid_utf8(req.body@) {
                spec_forward(entries, req.body@)
            } else {
                req.body@
            }
        },
        None => req.body@,
    }
}

/// What preparing a request yields, before any authorization: a request
/// already carrying the sentinel is answered 500; one without a host
/// cannot be forwarded; a forced or client-chosen scheme must be one a
/// URL accepts, and only `http` and `https` can be dialed; otherwise the
/// upstream plan carries the rewritten request.
pub open spec fn spec_prepare_post(
    state: ForwardState,
    req: HttpRequest,
    r: ForwardDecision,
) -> bool {
    let entries = state.table.entries();
    let hv = pairs_view(req.headers@);
    let uv = state.use_https@;
    if spec_get_header(hv, sentinel_name()) is Some {
        r matches ForwardDecision::Respond(resp) && spec_error_response(
            resp,
            "may be circular request".spec_bytes(),
        )
    } else if req.host@.len() == 0 {
        r matches ForwardDecision::Respond(resp) && spec_error_response(
            resp,
            "missing domain in request".spec_bytes(),
        )
    } else {
        let ovr = spec_scheme_override(uv, req.host@, spec_get_header(hv, "X-Scheme".spec_bytes()));
        let scheme = match ovr {
            Some(s) => s,
            None => req.scheme@,
        };
        if ovr matches Some(s) && !spec_scheme_settable(s) {
            r matches ForwardDecision::Respond(resp) && spec_error_response(
                resp,
                "invalid request".spec_bytes(),
            )
        } else {
            match spec_effective_port(req.port, scheme) {
                None => r matches ForwardDecision::Respond(resp) && spec_error_response(
                    resp,
                    "invalid request".spec_bytes(),
                ),
                Some(p) => {
                    if scheme != "http".spec_bytes() && scheme != "https".spec_bytes() {
                        r matches ForwardDecision::Respond(resp) && spec_error_response(
                            resp,
                            "unsupported scheme: ".spec_bytes() + scheme,
                        )
                    } else {
                        r matches ForwardDecision::Upstream(plan) && {
                            &&& plan.https == (scheme == "https".spec_bytes())
                            &&& plan.host@ == spec_forward(entries, req.host@)
                            &&& plan.port == p
                            &&& plan.method@ == req.method@
                            &&& plan.path@ == spec_forward(entries, req.path@)
                            &&& plan.query_string@ == spec_query_string(
                                entries,
                                pairs_view(req.query@),
                            )
                            &&& pairs_view(plan.headers@) == spec_prepared_headers(entries, req)
                            &&& plan.body@ == spec_prepared_body(entries, req)
                        }
                    }
                },
            }
        }
    }
}

/// Prepare the upstream request: loop check, scheme and port decision,
/// and the inbound rewrites.
pub fn prepare_upstream(state: &ForwardState, req: HttpRequest) -> (r: ForwardDecision)
    ensures
        spec_prepare_post(*state, req, r),
{
    let ghost entries = state.table.entries();
    let ghost hv = pairs_view(req.headers@);
    if crate::httpmodel::has_header(&req.headers, &"X-Web-Jingzi".as_bytes_vec()) {
        return ForwardDecision::Respond(http_error(&"may be circular request".as_bytes_vec()));
    }
    if req.host.len() == 0 {
        return ForwardDecision::Respond(http_error(&"missing domain in request".as_bytes_vec()));
    }
    let x_scheme = get_header(&req.headers, &"X-Scheme".as_bytes_vec());
    let origin = get_header(&req.headers, &"origin".as_bytes_vec());
    let referer = get_header(&req.headers, &"referer".as_bytes_vec());
    let content_type = get_header(&req.headers, &"content-type".as_bytes_vec());
    let forced = contains_exact(&state.use_https, &req.host);
    let overridden = forced || x_scheme.is_some();
    let scheme: Vec<u8> = if forced {
        "https".as_bytes_vec()
    } else {
        match &x_scheme {
            Some(v) => clone_bytes(v),
            None => clone_bytes(&req.scheme),
        }
    };
    if overridden && !scheme_settable(&scheme) {
        return ForwardDecision::Respond(http_error(&"invalid request".as_bytes_vec()));
    }
    let port: u16 = match req.port {
        Some(p) => p,
        None => match default_port(&scheme) {
            Some(p) => p,
            None => {
                return ForwardDecision::Respond(http_error(&"invalid request".as_bytes_vec()));
            },
        },
    };
    let https = crate::domain::bytes_eq(&scheme, &"https".as_bytes_vec());
    if !https && !crate::domain::bytes_eq(&scheme, &"http".as_bytes_vec()) {
        let mut msg = "unsupported scheme: ".as_bytes_vec();
        append_bytes(&mut msg, &scheme);
        return ForwardDecision::Respond(http_error(&msg));
    }
    let query_string = rewrite_query(&state.table, &req.query);
    let new_host = state.table.forward_substitute(&req.host);
    let new_path = state.table.forward_substitute(&req.path);
    let mut headers = req.headers;
    insert_header(&mut headers, "X-Web-Jingzi".as_bytes_vec(), "true".as_bytes_vec());
    insert_header(&mut headers, "host".as_bytes_vec(), clone_bytes(&new_host));
    match &origin {
        Some(v) => {
            let nv = state.table.forward_substitute(v);
            insert_header(&mut headers, "origin".as_bytes_vec(), nv);
        },
        None => {},
    }
    match &referer {
        Some(v) => {
            let nv = state.table.forward_substitute(v);
            insert_header(&mut headers, "referer".as_bytes_vec(), nv);
        },
        None => {},
    }
    let body: Vec<u8> = match &content_type {
        Some(ct) => {
            let e = essence_of(ct);
            if is_rewritable_media(&e) && is_utf8(&req.body) {
                state.table.forward_substitute(&req.body)
            } else {
                req.body
            }
        },
        None => req.body,
    };
    ForwardDecision::Upstream(
        UpstreamPlan {
            https,
            host: new_host,
            port,
            method: req.method,
            path: new_path,
            query_string,
            headers,
            body,
        },
    )
}

/// Which alias substring, if any, marks this request as protected.
pub open spec fn spec_protected(state: ForwardState, req: HttpRequest) -> Option<Seq<u8>> {
    if state.auth_enabled {
        spec_find_protected(state.domain_list@.map_values(|v: Vec<u8>| v@), req.host@)
    } else {
        None
    }
}

/// The token the request's `Cookie` headers carry, if any.
pub open spec fn spec_request_token(req: HttpRequest) -> Option<Seq<u8>> {
    spec_token_in_cookies(spec_header_values(pairs_view(req.headers@), "Cookie".spec_bytes()))
}

/// Decide a protected, non-login request from the token store's answer:
/// a stored token falls through to the upstream preparation, an unknown
/// token gets the login page, and a store failure is a plain 500.
pub fn gate_decision(state: &ForwardState, req: HttpRequest, stored: Result<bool, ()>) -> (r:
    ForwardDecision)
    ensures
        stored == Ok::<bool, ()>(true) ==> spec_prepare_post(*state, req, r),
        stored == Ok::<bool, ()>(false) ==> (r matches ForwardDecision::Respond(resp)
            && spec_login_page_response(resp, state.login_page@)),
        stored is Err ==> (r matches ForwardDecision::Respond(resp) && spec_error_response(
            resp,
            "token store error".spec_bytes(),
        )),
{
    match stored {
        Ok(true) => prepare_upstream(state, req),
        Ok(false) => ForwardDecision::Respond(show_login_page(&state.login_page)),
        Err(_) => ForwardDecision::Respond(http_error(&"token store error".as_bytes_vec())),
    }
}

/// Handle one request: the authorization gate first, then the upstream
/// preparation. A protected login submission is answered by `login`; a
/// protected request without a valid token gets the login page; a token
/// store failure is a plain 500; everything else takes the main path.
/// For a carried token, the decision follows the token store's answer
/// (`gate_decision`).
pub fn forward_request(state: &ForwardState, req: HttpRequest) -> (r: ForwardDecision)
    ensures
        match spec_protected(*state, req) {
            None => spec_prepare_post(*state, req, r),
            Some(d) => {
                if req.path@ == login_path() {
                    r matches ForwardDecision::Respond(resp) && spec_login_post(
                        accounts_view(state.accounts@),
                        req.body@,
                        d,
                        resp,
                    )
                } else {
                    &&& (spec_request_token(req) is None ==> (r matches ForwardDecision::Respond(
                        resp,
                    ) && spec_login_page_response(resp, state.login_page@)))
                    &&& (r matches ForwardDecision::Respond(resp) ==> spec_login_page_response(
                        resp,
                        state.login_page@,
                    ) || spec_error_response(resp, "token store error".spec_bytes())
                        || spec_prepare_post(*state, req, r))
                    &&& (r matches ForwardDecision::Upstream(p) ==> spec_prepare_post(
                        *state,
                        req,
                        r,
                    ))
                }
            },
        },
{
    if state.auth_enabled {
        match find_protected(&state.domain_list, &req.host) {
            Some(d) => {
                if crate::domain::bytes_eq(&req.path, &"/__wj__login".as_bytes_vec()) {
                    return ForwardDecision::Respond(login(state, &req, &d));
                }
                let cookies = header_values(&req.headers, &"Cookie".as_bytes_vec());
                match token_in_cookies(&cookies) {
                    None => {
                        return ForwardDecision::Respond(show_login_page(&state.login_page));
                    },
                    Some(token) => {
                        proof {
                            assert(spec_protected(*state, req) == Some(d@));
                        }
                        let stored = state.store.contains(&token);
                        let out = gate_decision(state, req, stored);
                        proof {
                            match stored {
                                Ok(b) => {
                                    assert(stored == Ok::<bool, ()>(b));
                                },
                                Err(e) => {
                                    assert(stored is Err);
                                },
                            }
                        }
                        return out;
                    },
                }
            },
            None => {},
        }
    }
    prepare_upstream(state, req)
}

/// The outbound headers after the reverse rewrite: `Location`,
/// `Set-Cookie`, `Access-Control-Allow-Origin`,
/// `Content-Security-Policy` and `X-Frame-Options`, each replaced where
/// present.
pub open spec fn spec_replaced_headers(
    entries: Seq<(Seq<u8>, Seq<u8>)>,
    hv: Seq<(Seq<u8>, Seq<u8>)>,
) -> Seq<(Seq<u8>, Seq<u8>)> {
    let h1 = match spec_get_header(hv, "location".spec_bytes()) {
        Some(v) => spec_insert_hdr(hv, "location".spec_bytes(), spec_reverse(entries, v)),
        None => hv,
    };
    let h2 = match spec_get_header(hv, "set-cookie".spec_bytes()) {
        Some(v) => spec_insert_hdr(h1, "set-cookie".spec_bytes(), spec_reverse(entries, v)),
        None => h1,
    };
    let h3 = match spec_get_header(hv, "access-control-allow-origin".spec_bytes()) {
        Some(v) => spec_insert_hdr(
            h2,
            "access-control-allow-origin".spec_bytes(),
            spec_reverse(entries, v),
        ),
        None => h2,
    };
    let h4 = match spec_get_header(hv, "content-security-policy".spec_bytes()) {
        Some(v) => spec_insert_hdr(
            h3,
            "content-security-policy".spec_bytes(),
            spec_reverse(entries, v),
        ),
        None => h3,
    };
    match spec_get_header(hv, "x-frame-options".spec_bytes()) {
        Some(v) => spec_insert_hdr(h4, "x-frame-options".spec_bytes(), spec_reverse(entries, v)),
        None => h4,
    }
}

/// A plain (unencoded) body after the outbound rewrite: replaced when it
/// is UTF-8, untouched otherwise.
pub open spec fn spec_plain_rewrite(entries: Seq<(Seq<u8>, Seq<u8>)>, body: Seq<u8>) -> Seq<u8> {
    if valid_utf8(body) {
        spec_reverse(entries, body)
    } else {
        body
    }
}

/// What processing a response yields. The status is kept; the outbound
/// headers are rewritten; a `304 Not Modified` keeps its body and its
/// other headers; otherwise a rewritable body is rewritten, through the
/// codec when a recognized `Content-Encoding` is present: a body that
/// decodes to UTF-8 text whose rewritten form the encoder accepts is
/// replaced by a body that decodes to that rewritten text; in every
/// other case (malformed stream, non-UTF-8 text, encoder refusal) the
/// body passes through untouched.
pub open spec fn spec_response_post(
    state: ForwardState,
    resp: HttpResponse,
    r: HttpResponse,
) -> bool {
    let entries = state.table.entries();
    let hv = pairs_view(resp.headers@);
    let h5 = spec_replaced_headers(entries, hv);
    &&& r.status == resp.status
    &&& if resp.status == 304 {
        pairs_view(r.headers@) == h5 && r.body@ == resp.body@
    } else {
        match spec_get_header(hv, "content-type".spec_bytes()) {
            Some(ct) => {
                if spec_is_rewritable(spec_essence(ct)) {
                    match spec_get_header(hv, "content-encoding".spec_bytes()) {
                        None => pairs_view(r.headers@) == h5 && r.body@ == spec_plain_rewrite(
                            entries,
                            resp.body@,
                        ),
                        Some(ev) => match spec_encoding_of(ev) {
                            None => pairs_view(r.headers@) == h5 && r.body@ == resp.body@,
                            Some(enc) => pairs_view(r.headers@) == spec_remove_header(
                                h5,
                                "content-length".spec_bytes(),
                            ) && (match spec_decoded(enc, resp.body@) {
                                Some(plain) => {
                                    if valid_utf8(plain) && spec_encodable(
                                        enc,
                                        spec_reverse(entries, plain),
                                    ) {
                                        spec_decoded(enc, r.body@) == Some(
                                            spec_reverse(entries, plain),
                                        )
                                    } else {
                                        r.body@ == resp.body@
                                    }
                                },
                                None => r.body@ == resp.body@,
                            }),
                        },
                    }
                } else {
                    pairs_view(r.headers@) == h5 && r.body@ == resp.body@
                }
            },
            None => pairs_view(r.headers@) == h5 && r.body@ == resp.body@,
        }
    }
}

/// Process an upstream response: rewrite the outbound headers, pass a
/// 304 through, and rewrite a rewritable body through the codec.
pub fn process_response(state: &ForwardState, resp: HttpResponse) -> (r: HttpResponse)
    ensures
        spec_response_post(*state, resp, r),
{
    let ghost entries = state.table.entries();
    let ghost hv = pairs_view(resp.headers@);
    let location = get_header(&resp.headers, &"location".as_bytes_vec());
    let set_cookie = get_header(&resp.headers, &"set-cookie".as_bytes_vec());
    let acao = get_header(&resp.headers, &"access-control-allow-origin".as_bytes_vec());
    let csp = get_header(&resp.headers, &"content-security-policy".as_bytes_vec());
    let xfo = get_header(&resp.headers, &"x-frame-options".as_bytes_vec());
    let content_type = get_header(&resp.headers, &"content-type".as_bytes_vec());
    let content_encoding = get_header(&resp.headers, &"content-encoding".as_bytes_vec());
    let mut headers = resp.headers;
    match &location {
        Some(v) => {
            let nv = state.table.reverse_substitute(v);
            insert_header(&mut headers, "location".as_bytes_vec(), nv);
        },
        None => {},
    }
    match &set_cookie {
        Some(v) => {
            let nv = state.table.reverse_substitute(v);
            insert_header(&mut headers, "set-cookie".as_bytes_vec(), nv);
        },
        None => {},
    }
    match &acao {
        Some(v) => {
            let nv = state.table.reverse_substitute(v);
            insert_header(&mut headers, "access-control-allow-origin".as_bytes_vec(), nv);
        },
        None => {},
    }
    match &csp {
        Some(v) => {
            let nv = state.table.reverse_substitute(v);
            insert_header(&mut headers, "content-security-policy".as_bytes_vec(), nv);
        },
        None => {},
    }
    match &xfo {
        Some(v) => {
            let nv = state.table.reverse_substitute(v);
            insert_header(&mut headers, "x-frame-options".as_bytes_vec(), nv);
        },
        None => {},
    }
    if resp.status == 304 {
        return HttpResponse { status: resp.status, headers, body: resp.body };
    }
    let rewritable = match &content_type {
        Some(ct) => {
            let e = essence_of(ct);
            is_rewritable_media(&e)
        },
        None => false,
    };
    if !rewritable {
        return HttpResponse { status: resp.status, headers, body: resp.body };
    }
    match &content_encoding {
        None => {
            let body = if is_utf8(&resp.body) {
                state.table.reverse_substitute(&resp.body)
            } else {
                resp.body
            };
            HttpResponse { status: resp.status, headers, body }
        },
        Some(ev) => {
            match encoding_of(ev) {
                None => HttpResponse { status: resp.status, headers, body: resp.body },
                Some(enc) => {
                    crate::httpmodel::remove_header(&mut headers, &"content-length".as_bytes_vec());
                    let body = match decode_payload(enc, &resp.body) {
                        None => resp.body,
                        Some(plain) => {
                            if is_utf8(&plain) {
                                let rewritten = state.table.reverse_substitute(&plain);
                                match encode_payload(enc, &rewritten) {
                                    Some(out) => out,
                                    None => resp.body,
                                }
                            } else {
                                resp.body
                            }
                        },
                    };
                    HttpResponse { status: resp.status, headers, body }
                },
            }
        },
    }
}

/// The sentinel header names and the names inserted after it have
/// different lengths, so they never collide.
proof fn lemma_prepared_names_lengths()
    ensures
        "host".spec_bytes().len() == 4,
        "origin".spec_bytes().len() == 6,
        "referer".spec_bytes().len() == 7,
        "X-Web-Jingzi".spec_bytes().len() == 12,
{
    reveal_strlit("host");
    reveal_strlit("origin");
    reveal_strlit("referer");
    reveal_strlit("X-Web-Jingzi");
    assert(vstd::utf8::is_ascii_chars("host"@));
    assert(vstd::utf8::is_ascii_chars("origin"@));
    assert(vstd::utf8::is_ascii_chars("referer"@));
    assert(vstd::utf8::is_ascii_chars("X-Web-Jingzi"@));
    vstd::utf8::is_ascii_chars_encode_utf8("host"@);
    vstd::utf8::is_ascii_chars_encode_utf8("origin"@);
    vstd::utf8::is_ascii_chars_encode_utf8("referer"@);
    vstd::utf8::is_ascii_chars_encode_utf8("X-Web-Jingzi"@);
}

/// Loop prevention: every upstream plan carries the sentinel header
/// exactly once. (Its other half is a clause of `spec_prepare_post`: a
/// request that already carries the sentinel is answered 500.)
pub proof fn lemma_upstream_sentinel_once(
    state: ForwardState,
    req: HttpRequest,
    plan: UpstreamPlan,
)
    requires
        spec_prepare_post(state, req, ForwardDecision::Upstream(plan)),
    ensures
        spec_count_header(pairs_view(plan.headers@), sentinel_name()) == 1,
{
    let entries = state.table.entries();
    let hv = pairs_view(req.headers@);
    let sn = sentinel_name();
    lemma_prepared_names_lengths();
    assert(lower("host".spec_bytes()).len() == 4);
    assert(lower("origin".spec_bytes()).len() == 6);
    assert(lower("referer".spec_bytes()).len() == 7);
    assert(lower(sn).len() == 12);
    let h1 = spec_insert_hdr(hv, sn, "true".spec_bytes());
    let h2 = spec_insert_hdr(h1, "host".spec_bytes(), spec_forward(entries, req.host@));
    crate::httpmodel::lemma_insert_header_once(hv, sn, "true".spec_bytes());
    crate::httpmodel::lemma_count_insert_other(
        h1,
        "host".spec_bytes(),
        spec_forward(entries, req.host@),
        sn,
    );
    let h3 = match spec_get_header(hv, "origin".spec_bytes()) {
        Some(v) => spec_insert_hdr(h2, "origin".spec_bytes(), spec_forward(entries, v)),
        None => h2,
    };
    match spec_get_header(hv, "origin".spec_bytes()) {
        Some(v) => {
            crate::httpmodel::lemma_count_insert_other(
                h2,
                "origin".spec_bytes(),
                spec_forward(entries, v),
                sn,
            );
        },
        None => {},
    }
    match spec_get_header(hv, "referer".spec_bytes()) {
        Some(v) => {
            crate::httpmodel::lemma_count_insert_other(
                h3,
                "referer".spec_bytes(),
                spec_forward(entries, v),
                sn,
            );
        },
        None => {},
    }
}

/// Codec transparency: when the decoded text of an encoded body holds no
/// real-domain occurrence, the body that the transform may produce
/// decodes to the same text, or is the original bytes.
pub proof fn lemma_codec_transparency(
    entries: Seq<(Seq<u8>, Seq<u8>)>,
    enc: crate::codec::Encoding,
    body: Seq<u8>,
    plain: Seq<u8>,
    out: Seq<u8>,
)
    requires
        forall|k: int| 0 <= k < entries.len() ==> (#[trigger] entries[k]).1.len() > 0,
        forall|k: int|
            0 <= k < entries.len() ==> !crate::textops::has_pattern(
                plain,
                (#[trigger] entries[k]).1,
            ),
        spec_decoded(enc, body) == Some(plain),
        out == body || spec_decoded(enc, out) == Some(spec_reverse(entries, plain)),
    ensures
        out == body || spec_decoded(enc, out) == Some(plain),
{
    crate::domain::lemma_reverse_fixed(entries, plain);
}

/// A `304 Not Modified` answer passes through: its status and body are
/// unchanged, and so is every header outside the outbound rewrite list.
pub proof fn lemma_not_modified_passthrough(
    state: ForwardState,
    resp: HttpResponse,
    r: HttpResponse,
)
    requires
        spec_response_post(state, resp, r),
        resp.status == 304,
    ensures
        r.status == 304,
        r.body@ == resp.body@,
        pairs_view(r.headers@) == spec_replaced_headers(
            state.table.entries(),
            pairs_view(resp.headers@),
        ),
{
}

/// Loop prevention, the rejecting half: wherever the main path decides
/// (authorization disabled, the request not protected, or its token
/// stored), a request already carrying the sentinel is answered 500 with
/// `may be circular request`, and nothing is prepared for upstream.
pub proof fn lemma_circular_request_rejected(
    state: ForwardState,
    req: HttpRequest,
    r: ForwardDecision,
)
    requires
        spec_get_header(pairs_view(req.headers@), sentinel_name()) is Some,
        spec_prepare_post(state, req, r),
    ensures
        r matches ForwardDecision::Respond(resp) && spec_error_response(
            resp,
            "may be circular request".spec_bytes(),
        ),
{
}

} // verus!
