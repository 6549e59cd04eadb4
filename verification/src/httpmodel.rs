//! The HTTP message model.
//!
//! Requests and responses are plain values: method, URL components,
//! headers and body, all as bytes. Header names compare
//! case-insensitively, as HTTP requires; values are untouched.

use vstd::prelude::*;

use vstd::string::StrSliceExecFns;
use vstd::string::StringSliceAdditionalSpecFns;

use crate::domain::{bytes_eq, clone_bytes};
use crate::textops::pairs_view;

verus! {

/// An inbound request, already parsed into its components. The query is
/// the decoded list of key/value pairs, in order.
pub struct HttpRequest {
    pub method: Vec<u8>,
    pub scheme: Vec<u8>,
    pub host: Vec<u8>,
    pub port: Option<u16>,
    pub path: Vec<u8>,
    pub query: Vec<(Vec<u8>, Vec<u8>)>,
    pub headers: Vec<(Vec<u8>, Vec<u8>)>,
    pub body: Vec<u8>,
}

/// A response: status code, headers and body.
pub struct HttpResponse {
    pub status: u16,
    pub headers: Vec<(Vec<u8>, Vec<u8>)>,
    pub body: Vec<u8>,
}

/// ASCII lower case of one byte.
pub open spec fn spec_lower_byte(b: u8) -> u8 {
    if 65 <= b <= 90 {
        (b + 32) as u8
    } else {
        b
    }
}

/// ASCII lower case of a byte string.
pub open spec fn lower(s: Seq<u8>) -> Seq<u8> {
    s.map_values(|b: u8| spec_lower_byte(b))
}

/// ASCII lower case of one byte.
pub fn lower_byte(b: u8) -> (r: u8)
    ensures
        r == spec_lower_byte(b),
{
    if 65 <= b && b <= 90 {
        b + 32
    } else {
        b
    }
}

/// Case-insensitive equality of two byte strings.
pub fn bytes_eq_nocase(a: &Vec<u8>, b: &Vec<u8>) -> (r: bool)
    ensures
        r == (lower(a@) == lower(b@)),
{
    if a.len() != b.len() {
        assert(lower(a@).len() != lower(b@).len());
        return false;
    }
    let mut i: usize = 0;
    while i < a.len()
        invariant
            a.len() == b.len(),
            i <= a.len(),
            forall|k: int| 0 <= k < i ==> spec_lower_byte(a@[k]) == spec_lower_byte(b@[k]),
        decreases a.len() - i,
    {
        if lower_byte(a[i]) != lower_byte(b[i]) {
            assert(lower(a@)[i as int] != lower(b@)[i as int]);
            return false;
        }
        i += 1;
    }
    assert(lower(a@) =~= lower(b@));
    true
}

/// The header entry bears the given name (case-insensitively).
pub open spec fn name_matches(e: (Seq<u8>, Seq<u8>), name: Seq<u8>) -> bool {
    lower(e.0) == lower(name)
}

/// The value of the first header with the given name.
pub open spec fn spec_get_header(hs: Seq<(Seq<u8>, Seq<u8>)>, name: Seq<u8>) -> Option<Seq<u8>>
    decreases hs.len(),
{
    if hs.len() == 0 {
        None
    } else if name_matches(hs[0], name) {
        Some(hs[0].1)
    } else {
        spec_get_header(hs.drop_first(), name)
    }
}

/// All values of headers with the given name, in order.
pub open spec fn spec_header_values(hs: Seq<(Seq<u8>, Seq<u8>)>, name: Seq<u8>) -> Seq<Seq<u8>>
    decreases hs.len(),
{
    if hs.len() == 0 {
        Seq::empty()
    } else if name_matches(hs[0], name) {
        seq![hs[0].1] + spec_header_values(hs.drop_first(), name)
    } else {
        spec_header_values(hs.drop_first(), name)
    }
}

/// The headers without every entry of the given name.
pub open spec fn spec_remove_header(hs: Seq<(Seq<u8>, Seq<u8>)>, name: Seq<u8>) -> Seq<
    (Seq<u8>, Seq<u8>),
>
    decreases hs.len(),
{
    if hs.len() == 0 {
        Seq::empty()
    } else if name_matches(hs[0], name) {
        spec_remove_header(hs.drop_first(), name)
    } else {
        seq![hs[0]] + spec_remove_header(hs.drop_first(), name)
    }
}

/// How many headers bear the given name.
pub open spec fn spec_count_header(hs: Seq<(Seq<u8>, Seq<u8>)>, name: Seq<u8>) -> nat
    decreases hs.len(),
{
    if hs.len() == 0 {
        0
    } else if name_matches(hs[0], name) {
        1 + spec_count_header(hs.drop_first(), name)
    } else {
        spec_count_header(hs.drop_first(), name)
    }
}

/// The value of the first header with the given name, copied out.
pub fn get_header(headers: &Vec<(Vec<u8>, Vec<u8>)>, name: &Vec<u8>) -> (r: Option<Vec<u8>>)
    ensures
        match r {
            Some(v) => spec_get_header(pairs_view(headers@), name@) == Some(v@),
            None => spec_get_header(pairs_view(headers@), name@) is None,
        },
{
    let ghost hs = pairs_view(headers@);
    let mut i: usize = 0;
    proof {
        assert(hs.skip(0) =~= hs);
    }
    while i < headers.len()
        invariant
            hs == pairs_view(headers@),
            hs.len() == headers@.len(),
            i <= headers.len(),
            spec_get_header(hs, name@) == spec_get_header(hs.skip(i as int), name@),
        decreases headers.len() - i,
    {
        proof {
            assert(hs.skip(i as int)[0] == hs[i as int]);
            assert(hs.skip(i as int).drop_first() =~= hs.skip(i + 1 as int));
        }
        if bytes_eq_nocase(&headers[i].0, name) {
            return Some(clone_bytes(&headers[i].1));
        }
        i += 1;
    }
    proof {
        assert(hs.skip(i as int) =~= Seq::<(Seq<u8>, Seq<u8>)>::empty());
    }
    None
}

/// Whether some header bears the given name.
pub fn has_header(headers: &Vec<(Vec<u8>, Vec<u8>)>, name: &Vec<u8>) -> (r: bool)
    ensures
        r == (spec_get_header(pairs_view(headers@), name@) is Some),
{
    match get_header(headers, name) {
        Some(_) => true,
        None => false,
    }
}

/// All values of headers with the given name, copied out in order.
pub fn header_values(headers: &Vec<(Vec<u8>, Vec<u8>)>, name: &Vec<u8>) -> (r: Vec<Vec<u8>>)
    ensures
        r@.map_values(|v: Vec<u8>| v@) == spec_header_values(pairs_view(headers@), name@),
{
    let ghost hs = pairs_view(headers@);
    let mut out: Vec<Vec<u8>> = Vec::new();
    let mut i: usize = 0;
    proof {
        assert(hs.skip(0) =~= hs);
    }
    while i < headers.len()
        invariant
            hs == pairs_view(headers@),
            hs.len() == headers@.len(),
            i <= headers.len(),
            out@.map_values(|v: Vec<u8>| v@) + spec_header_values(hs.skip(i as int), name@)
                == spec_header_values(hs, name@),
        decreases headers.len() - i,
    {
        proof {
            assert(hs.skip(i as int)[0] == hs[i as int]);
            assert(hs.skip(i as int).drop_first() =~= hs.skip(i + 1 as int));
        }
        if bytes_eq_nocase(&headers[i].0, name) {
            out.push(clone_bytes(&headers[i].1));
            assert(out@.map_values(|v: Vec<u8>| v@) =~= out@.drop_last().map_values(
                |v: Vec<u8>| v@,
            ) + seq![hs[i as int].1]);
        }
        i += 1;
    }
    proof {
        assert(hs.skip(i as int) =~= Seq::<(Seq<u8>, Seq<u8>)>::empty());
        assert(out@.map_values(|v: Vec<u8>| v@) + Seq::<Seq<u8>>::empty() =~= out@.map_values(
            |v: Vec<u8>| v@,
        ));
    }
    out
}

/// Replace every header of the given name by the single new entry,
/// appended at the end.
pub fn insert_header(headers: &mut Vec<(Vec<u8>, Vec<u8>)>, name: Vec<u8>, value: Vec<u8>)
    ensures
        pairs_view(final(headers)@) == spec_remove_header(pairs_view(old(headers)@), name@)
            + seq![(name@, value@)],
{
    let ghost hs = pairs_view(headers@);
    let mut out: Vec<(Vec<u8>, Vec<u8>)> = Vec::new();
    let mut i: usize = 0;
    proof {
        assert(hs.skip(0) =~= hs);
    }
    while i < headers.len()
        invariant
            *headers == *old(headers),
            hs == pairs_view(headers@),
            hs.len() == headers@.len(),
            i <= headers.len(),
            pairs_view(out@) + spec_remove_header(hs.skip(i as int), name@) == spec_remove_header(
                hs,
                name@,
            ),
        decreases headers.len() - i,
    {
        proof {
            assert(hs.skip(i as int)[0] == hs[i as int]);
            assert(hs.skip(i as int).drop_first() =~= hs.skip(i + 1 as int));
        }
        if !bytes_eq_nocase(&headers[i].0, &name) {
            out.push((clone_bytes(&headers[i].0), clone_bytes(&headers[i].1)));
            assert(pairs_view(out@) =~= pairs_view(out@.drop_last()) + seq![hs[i as int]]);
        }
        i += 1;
    }
    proof {
        assert(hs.skip(i as int) =~= Seq::<(Seq<u8>, Seq<u8>)>::empty());
        assert(pairs_view(out@) + Seq::<(Seq<u8>, Seq<u8>)>::empty() =~= pairs_view(out@));
    }
    let ghost kept = pairs_view(out@);
    out.push((name, value));
    proof {
        assert(pairs_view(out@) =~= kept + seq![(name@, value@)]);
    }
    *headers = out;
}

/// Remove every header of the given name.
pub fn remove_header(headers: &mut Vec<(Vec<u8>, Vec<u8>)>, name: &Vec<u8>)
    ensures
        pairs_view(final(headers)@) == spec_remove_header(pairs_view(old(headers)@), name@),
{
    let ghost hs = pairs_view(headers@);
    let mut out: Vec<(Vec<u8>, Vec<u8>)> = Vec::new();
    let mut i: usize = 0;
    proof {
        assert(hs.skip(0) =~= hs);
    }
    while i < headers.len()
        invariant
            *headers == *old(headers),
            hs == pairs_view(headers@),
            hs.len() == headers@.len(),
            i <= headers.len(),
            pairs_view(out@) + spec_remove_header(hs.skip(i as int), name@) == spec_remove_header(
                hs,
                name@,
            ),
        decreases headers.len() - i,
    {
        proof {
            assert(hs.skip(i as int)[0] == hs[i as int]);
            assert(hs.skip(i as int).drop_first() =~= hs.skip(i + 1 as int));
        }
        if !bytes_eq_nocase(&headers[i].0, name) {
            out.push((clone_bytes(&headers[i].0), clone_bytes(&headers[i].1)));
            assert(pairs_view(out@) =~= pairs_view(out@.drop_last()) + seq![hs[i as int]]);
        }
        i += 1;
    }
    proof {
        assert(hs.skip(i as int) =~= Seq::<(Seq<u8>, Seq<u8>)>::empty());
        assert(pairs_view(out@) + Seq::<(Seq<u8>, Seq<u8>)>::empty() =~= pairs_view(out@));
    }
    *headers = out;
}

/// Append a header entry, keeping any existing entries of the name.
pub fn append_header(headers: &mut Vec<(Vec<u8>, Vec<u8>)>, name: Vec<u8>, value: Vec<u8>)
    ensures
        pairs_view(final(headers)@) == pairs_view(old(headers)@) + seq![(name@, value@)],
{
    let ghost hs = pairs_view(headers@);
    headers.push((name, value));
    proof {
        assert(pairs_view(headers@) =~= hs + seq![(name@, value@)]);
    }
}

/// An ASCII space or horizontal tab.
pub open spec fn is_ws(b: u8) -> bool {
    b == 32 || b == 9
}

/// The bytes before the first `;`, or the whole string without one.
pub open spec fn spec_until_semicolon(s: Seq<u8>) -> Seq<u8>
    decreases s.len(),
{
    if s.len() == 0 {
        Seq::empty()
    } else if s[0] == 59 {
        Seq::empty()
    } else {
        seq![s[0]] + spec_until_semicolon(s.drop_first())
    }
}

/// The string without leading spaces and tabs.
pub open spec fn spec_trim_start(s: Seq<u8>) -> Seq<u8>
    decreases s.len(),
{
    if s.len() > 0 && is_ws(s[0]) {
        spec_trim_start(s.drop_first())
    } else {
        s
    }
}

/// The string without trailing spaces and tabs.
pub open spec fn spec_trim_end(s: Seq<u8>) -> Seq<u8>
    decreases s.len(),
{
    if s.len() > 0 && is_ws(s.last()) {
        spec_trim_end(s.drop_last())
    } else {
        s
    }
}

/// The essence of a Content-Type header value: the `type/subtype` part
/// with parameters stripped, trimmed and in ASCII lower case.
pub open spec fn spec_essence(s: Seq<u8>) -> Seq<u8> {
    lower(spec_trim_end(spec_trim_start(spec_until_semicolon(s))))
}

proof fn lemma_until_semicolon(s: Seq<u8>, k: int)
    requires
        0 <= k <= s.len(),
        forall|j: int| 0 <= j < k ==> s[j] != 59,
        k == s.len() || s[k] == 59,
    ensures
        spec_until_semicolon(s) == s.take(k),
    decreases k,
{
    if k == 0 {
        assert(s.take(0) =~= Seq::<u8>::empty());
    } else {
        lemma_until_semicolon(s.drop_first(), k - 1);
        assert(seq![s[0]] + s.drop_first().take(k - 1) =~= s.take(k));
    }
}

proof fn lemma_trim_start(s: Seq<u8>, k: int)
    requires
        0 <= k <= s.len(),
        forall|j: int| 0 <= j < k ==> is_ws(s[j]),
        k == s.len() || !is_ws(s[k]),
    ensures
        spec_trim_start(s) == s.skip(k),
    decreases k,
{
    if k == 0 {
        assert(s.skip(0) =~= s);
    } else {
        lemma_trim_start(s.drop_first(), k - 1);
        assert(s.drop_first().skip(k - 1) =~= s.skip(k));
    }
}

proof fn lemma_trim_end(s: Seq<u8>, k: int)
    requires
        0 <= k <= s.len(),
        forall|j: int| k <= j < s.len() ==> is_ws(s[j]),
        k == 0 || !is_ws(s[k - 1]),
    ensures
        spec_trim_end(s) == s.take(k),
    decreases s.len(),
{
    if k == s.len() {
        if s.len() > 0 {
            assert(!is_ws(s.last()));
        }
        assert(s.take(k) =~= s);
    } else {
        assert(is_ws(s.last()));
        lemma_trim_end(s.drop_last(), k);
        assert(s.drop_last().take(k) =~= s.take(k));
    }
}

/// Compute the essence of a Content-Type header value.
pub fn essence_of(v: &Vec<u8>) -> (r: Vec<u8>)
    ensures
        r@ == spec_essence(v@),
{
    let mut semi: usize = 0;
    while semi < v.len() && v[semi] != 59
        invariant
            semi <= v.len(),
            forall|j: int| 0 <= j < semi ==> v@[j] != 59,
        decreases v.len() - semi,
    {
        semi += 1;
    }
    proof {
        lemma_until_semicolon(v@, semi as int);
    }
    let ghost u = v@.take(semi as int);
    let mut a: usize = 0;
    while a < semi && (v[a] == 32 || v[a] == 9)
        invariant
            a <= semi <= v.len(),
            forall|j: int| 0 <= j < a ==> is_ws(v@[j]),
        decreases semi - a,
    {
        a += 1;
    }
    proof {
        assert(forall|j: int| 0 <= j < a ==> u[j] == v@[j]);
        lemma_trim_start(u, a as int);
    }
    let ghost w = u.skip(a as int);
    let mut b: usize = semi;
    while b > a && (v[b - 1] == 32 || v[b - 1] == 9)
        invariant
            a <= b <= semi <= v.len(),
            forall|j: int| b <= j < semi ==> is_ws(v@[j]),
        decreases b,
    {
        b -= 1;
    }
    proof {
        assert(forall|j: int| 0 <= j < w.len() ==> w[j] == v@[a + j]);
        lemma_trim_end(w, b - a as int);
    }
    let mut out: Vec<u8> = Vec::new();
    let mut k: usize = a;
    while k < b
        invariant
            a <= k <= b <= v.len(),
            out@ == lower(v@.subrange(a as int, k as int)),
        decreases b - k,
    {
        out.push(lower_byte(v[k]));
        assert(out@ =~= lower(v@.subrange(a as int, k + 1 as int)));
        k += 1;
    }
    proof {
        assert(w.take(b - a as int) =~= v@.subrange(a as int, b as int));
    }
    out
}

/// The media types whose bodies the proxy rewrites, matched against the
/// Content-Type essence.
pub open spec fn spec_is_rewritable(e: Seq<u8>) -> bool {
    ||| e == "text/html".spec_bytes()
    ||| e == "text/plain".spec_bytes()
    ||| e == "text/javascript".spec_bytes()
    ||| e == "application/json".spec_bytes()
    ||| e == "application/manifest+json".spec_bytes()
    ||| e == "application/x-www-form-urlencoded".spec_bytes()
}

/// Whether the Content-Type essence names a rewritable media type.
pub fn is_rewritable_media(e: &Vec<u8>) -> (r: bool)
    ensures
        r == spec_is_rewritable(e@),
{
    if bytes_eq(e, &"text/html".as_bytes_vec()) {
        return true;
    }
    if bytes_eq(e, &"text/plain".as_bytes_vec()) {
        return true;
    }
    if bytes_eq(e, &"text/javascript".as_bytes_vec()) {
        return true;
    }
    if bytes_eq(e, &"application/json".as_bytes_vec()) {
        return true;
    }
    if bytes_eq(e, &"application/manifest+json".as_bytes_vec()) {
        return true;
    }
    if bytes_eq(e, &"application/x-www-form-urlencoded".as_bytes_vec()) {
        return true;
    }
    false
}

/// Removing a name leaves no header of that name.
pub proof fn lemma_remove_header_count(hs: Seq<(Seq<u8>, Seq<u8>)>, name: Seq<u8>)
    ensures
        spec_count_header(spec_remove_header(hs, name), name) == 0,
    decreases hs.len(),
{
    if hs.len() > 0 {
        lemma_remove_header_count(hs.drop_first(), name);
        if !name_matches(hs[0], name) {
            let rest = spec_remove_header(hs.drop_first(), name);
            assert((seq![hs[0]] + rest).drop_first() =~= rest);
        }
    }
}

/// Appending one entry adds one to the count of its name and nothing to
/// any other name.
pub proof fn lemma_count_header_append(
    hs: Seq<(Seq<u8>, Seq<u8>)>,
    e: (Seq<u8>, Seq<u8>),
    name: Seq<u8>,
)
    ensures
        spec_count_header(hs + seq![e], name) == spec_count_header(hs, name) + (
        if name_matches(e, name) {
            1int
        } else {
            0int
        }),
    decreases hs.len(),
{
    if hs.len() == 0 {
        assert(hs + seq![e] =~= seq![e]);
        assert((seq![e]).drop_first() =~= Seq::<(Seq<u8>, Seq<u8>)>::empty());
        assert(spec_count_header((seq![e]).drop_first(), name) == 0);
        assert((seq![e])[0] == e);
    } else {
        assert((hs + seq![e]).drop_first() =~= hs.drop_first() + seq![e]);
        assert((hs + seq![e])[0] == hs[0]);
        assert((hs + seq![e]).len() > 0);
        lemma_count_header_append(hs.drop_first(), e, name);
    }
}

/// After replacing a header, exactly one entry bears the name.
pub proof fn lemma_insert_header_once(
    hs: Seq<(Seq<u8>, Seq<u8>)>,
    name: Seq<u8>,
    value: Seq<u8>,
)
    ensures
        spec_count_header(spec_remove_header(hs, name) + seq![(name, value)], name) == 1,
{
    lemma_remove_header_count(hs, name);
    lemma_count_header_append(spec_remove_header(hs, name), (name, value), name);
}

/// Removing entries of one name leaves the count of a different name
/// unchanged.
pub proof fn lemma_count_remove_other(hs: Seq<(Seq<u8>, Seq<u8>)>, n1: Seq<u8>, n2: Seq<u8>)
    requires
        lower(n1) != lower(n2),
    ensures
        spec_count_header(spec_remove_header(hs, n1), n2) == spec_count_header(hs, n2),
    decreases hs.len(),
{
    if hs.len() > 0 {
        lemma_count_remove_other(hs.drop_first(), n1, n2);
        if !name_matches(hs[0], n1) {
            let rest = spec_remove_header(hs.drop_first(), n1);
            assert((seq![hs[0]] + rest).drop_first() =~= rest);
            assert((seq![hs[0]] + rest)[0] == hs[0]);
        }
    }
}

/// Replacing one name leaves the count of a different name unchanged.
pub proof fn lemma_count_insert_other(
    hs: Seq<(Seq<u8>, Seq<u8>)>,
    n1: Seq<u8>,
    v: Seq<u8>,
    n2: Seq<u8>,
)
    requires
        lower(n1) != lower(n2),
    ensures
        spec_count_header(spec_remove_header(hs, n1) + seq![(n1, v)], n2) == spec_count_header(
            hs,
            n2,
        ),
{
    lemma_count_remove_other(hs, n1, n2);
    lemma_count_header_append(spec_remove_header(hs, n1), (n1, v), n2);
}

} // verus!
