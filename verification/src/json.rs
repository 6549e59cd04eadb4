//! Parsing the login body: a JSON object of string fields.
//!
//! The login endpoint receives `{"username": "...", "password": "..."}`.
//! The grammar accepted here is a JSON object whose values are strings,
//! with the standard string escapes; `\u` escapes are taken for ASCII
//! code points. A body whose extra fields hold values of another JSON
//! kind is rejected rather than skipped: accepting them would need the
//! whole JSON value grammar, which nothing else here uses. The spec
//! functions are the grammar; the executable parser is proved to compute
//! them.

use vstd::prelude::*;

use vstd::string::StrSliceExecFns;
use vstd::string::StringSliceAdditionalSpecFns;

verus! {

/// JSON whitespace.
pub open spec fn json_ws(b: u8) -> bool {
    b == 32 || b == 9 || b == 10 || b == 13
}

/// The first position at or after `i` holding no whitespace.
pub open spec fn spec_skip_ws(s: Seq<u8>, i: int) -> int
    decreases s.len() - i when 0 <= i <= s.len()
{
    if i < s.len() && json_ws(s[i]) {
        spec_skip_ws(s, i + 1)
    } else {
        i
    }
}

pub proof fn lemma_skip_ws_bounds(s: Seq<u8>, i: int)
    requires
        0 <= i <= s.len(),
    ensures
        i <= spec_skip_ws(s, i) <= s.len(),
    decreases s.len() - i,
{
    if i < s.len() && json_ws(s[i]) {
        lemma_skip_ws_bounds(s, i + 1);
    }
}

/// The value of a hexadecimal digit.
pub open spec fn spec_hex_val(b: u8) -> Option<u32> {
    if 48 <= b <= 57 {
        Some((b - 48) as u32)
    } else if 97 <= b <= 102 {
        Some((b - 87) as u32)
    } else if 65 <= b <= 70 {
        Some((b - 55) as u32)
    } else {
        None
    }
}

/// The code point of a `\uXXXX` escape at `i` (pointing at the first
/// digit), accepted only for ASCII code points.
pub open spec fn spec_u_escape(s: Seq<u8>, i: int) -> Option<u8> {
    if i + 4 <= s.len() {
        match (spec_hex_val(s[i]), spec_hex_val(s[i + 1]), spec_hex_val(s[i + 2]), spec_hex_val(
            s[i + 3],
        )) {
            (Some(h3), Some(h2), Some(h1), Some(h0)) => {
                let v = h3 * 4096 + h2 * 256 + h1 * 16 + h0;
                if v < 128 {
                    Some(v as u8)
                } else {
                    None
                }
            },
            _ => None,
        }
    } else {
        None
    }
}

/// The decoded byte of a single-character escape, if the character may
/// follow a backslash.
pub open spec fn spec_escape_byte(c: u8) -> Option<u8> {
    if c == 34 || c == 92 || c == 47 {
        Some(c)
    } else if c == 98 {
        Some(8)
    } else if c == 102 {
        Some(12)
    } else if c == 110 {
        Some(10)
    } else if c == 114 {
        Some(13)
    } else if c == 116 {
        Some(9)
    } else {
        None
    }
}

/// The decoded content of a JSON string whose opening quote stands just
/// before `i`: the bytes up to the closing quote, with escapes decoded,
/// and the position after the closing quote.
pub open spec fn spec_str_chars(s: Seq<u8>, i: int) -> Option<(Seq<u8>, int)>
    decreases s.len() - i when 0 <= i <= s.len()
{
    if i >= s.len() {
        None
    } else if s[i] == 34 {
        Some((Seq::empty(), i + 1))
    } else if s[i] == 92 {
        if i + 2 <= s.len() {
            let c = s[i + 1];
            if c == 117 {
                match spec_u_escape(s, i + 2) {
                    Some(v) => match spec_str_chars(s, i + 6) {
                        Some(p) => Some((seq![v] + p.0, p.1)),
                        None => None,
                    },
                    None => None,
                }
            } else {
                match spec_escape_byte(c) {
                    Some(v) => match spec_str_chars(s, i + 2) {
                        Some(p) => Some((seq![v] + p.0, p.1)),
                        None => None,
                    },
                    None => None,
                }
            }
        } else {
            None
        }
    } else if s[i] < 32 {
        None
    } else {
        match spec_str_chars(s, i + 1) {
            Some(p) => Some((seq![s[i]] + p.0, p.1)),
            None => None,
        }
    }
}

pub proof fn lemma_str_chars_advances(s: Seq<u8>, i: int)
    requires
        0 <= i <= s.len(),
        spec_str_chars(s, i) is Some,
    ensures
        i < spec_str_chars(s, i)->Some_0.1 <= s.len(),
    decreases s.len() - i,
{
    if i >= s.len() {
    } else if s[i] == 34 {
    } else if s[i] == 92 {
        if i + 2 <= s.len() {
            if s[i + 1] == 117 {
                lemma_str_chars_advances(s, i + 6);
            } else {
                lemma_str_chars_advances(s, i + 2);
            }
        }
    } else if s[i] < 32 {
    } else {
        lemma_str_chars_advances(s, i + 1);
    }
}

/// A JSON string at `i`: an opening quote, content, closing quote.
pub open spec fn spec_parse_string(s: Seq<u8>, i: int) -> Option<(Seq<u8>, int)> {
    if 0 <= i && i < s.len() && s[i] == 34 {
        spec_str_chars(s, i + 1)
    } else {
        None
    }
}

pub proof fn lemma_parse_string_advances(s: Seq<u8>, i: int)
    requires
        0 <= i <= s.len(),
        spec_parse_string(s, i) is Some,
    ensures
        i < spec_parse_string(s, i)->Some_0.1 <= s.len(),
{
    lemma_str_chars_advances(s, i + 1);
}

/// The members of a JSON object from position `i` (just after `{` or a
/// `,`): whitespace, a string key, `:`, a string value, then `}` to end
/// or `,` to continue. Yields the fields in order and the position after
/// the closing brace.
pub open spec fn spec_members(s: Seq<u8>, i: int) -> Option<(Seq<(Seq<u8>, Seq<u8>)>, int)>
    decreases s.len() - i when 0 <= i <= s.len() via spec_members_dec
{
    let k = spec_skip_ws(s, i);
    match spec_parse_string(s, k) {
        None => None,
        Some(kp) => {
            let c = spec_skip_ws(s, kp.1);
            if c < s.len() && s[c] == 58 {
                match spec_parse_string(s, spec_skip_ws(s, c + 1)) {
                    None => None,
                    Some(vp) => {
                        let e = spec_skip_ws(s, vp.1);
                        if e < s.len() && s[e] == 125 {
                            Some((seq![(kp.0, vp.0)], e + 1))
                        } else if e < s.len() && s[e] == 44 {
                            match spec_members(s, e + 1) {
                                Some(rp) => Some((seq![(kp.0, vp.0)] + rp.0, rp.1)),
                                None => None,
                            }
                        } else {
                            None
                        }
                    },
                }
            } else {
                None
            }
        },
    }
}

#[via_fn]
proof fn spec_members_dec(s: Seq<u8>, i: int) {
    lemma_skip_ws_bounds(s, i);
    let k = spec_skip_ws(s, i);
    if spec_parse_string(s, k) is Some {
        lemma_parse_string_advances(s, k);
        let kp = spec_parse_string(s, k)->Some_0;
        lemma_skip_ws_bounds(s, kp.1);
        let c = spec_skip_ws(s, kp.1);
        if c < s.len() && s[c] == 58 {
            lemma_skip_ws_bounds(s, c + 1);
            if spec_parse_string(s, spec_skip_ws(s, c + 1)) is Some {
                lemma_parse_string_advances(s, spec_skip_ws(s, c + 1));
                let vp = spec_parse_string(s, spec_skip_ws(s, c + 1))->Some_0;
                lemma_skip_ws_bounds(s, vp.1);
            }
        }
    }
}

/// A whole login body: a JSON object of string fields and nothing but
/// whitespace around it.
pub open spec fn spec_parse_object(s: Seq<u8>) -> Option<Seq<(Seq<u8>, Seq<u8>)>> {
    let o = spec_skip_ws(s, 0);
    if o < s.len() && s[o] == 123 {
        let e = spec_skip_ws(s, o + 1);
        if e < s.len() && s[e] == 125 {
            if spec_skip_ws(s, e + 1) == s.len() {
                Some(Seq::empty())
            } else {
                None
            }
        } else {
            match spec_members(s, o + 1) {
                Some(p) => {
                    if spec_skip_ws(s, p.1) == s.len() {
                        Some(p.0)
                    } else {
                        None
                    }
                },
                None => None,
            }
        }
    } else {
        None
    }
}

/// How many fields bear the given name.
pub open spec fn spec_field_count(fields: Seq<(Seq<u8>, Seq<u8>)>, name: Seq<u8>) -> nat
    decreases fields.len(),
{
    if fields.len() == 0 {
        0
    } else if fields[0].0 == name {
        1 + spec_field_count(fields.drop_first(), name)
    } else {
        spec_field_count(fields.drop_first(), name)
    }
}

/// The value of the first field with the given name.
pub open spec fn spec_field_value(fields: Seq<(Seq<u8>, Seq<u8>)>, name: Seq<u8>) -> Option<
    Seq<u8>,
>
    decreases fields.len(),
{
    if fields.len() == 0 {
        None
    } else if fields[0].0 == name {
        Some(fields[0].1)
    } else {
        spec_field_value(fields.drop_first(), name)
    }
}

/// Move past whitespace.
fn skip_ws(s: &Vec<u8>, i: usize) -> (r: usize)
    requires
        i <= s.len(),
    ensures
        r == spec_skip_ws(s@, i as int),
        i <= r <= s.len(),
{
    let mut cur = i;
    while cur < s.len() && (s[cur] == 32 || s[cur] == 9 || s[cur] == 10 || s[cur] == 13)
        invariant
            i <= cur <= s.len(),
            spec_skip_ws(s@, i as int) == spec_skip_ws(s@, cur as int),
        decreases s.len() - cur,
    {
        cur += 1;
    }
    cur
}

/// The value of a hexadecimal digit.
fn hex_val(b: u8) -> (r: Option<u32>)
    ensures
        r == spec_hex_val(b),
{
    if 48 <= b && b <= 57 {
        Some((b - 48) as u32)
    } else if 97 <= b && b <= 102 {
        Some((b - 87) as u32)
    } else if 65 <= b && b <= 70 {
        Some((b - 55) as u32)
    } else {
        None
    }
}

/// Decode the content of a string whose opening quote stands just before
/// `start`.
fn parse_string_content(s: &Vec<u8>, start: usize) -> (r: Option<(Vec<u8>, usize)>)
    requires
        start <= s.len(),
    ensures
        match r {
            Some(p) => spec_str_chars(s@, start as int) == Some((p.0@, p.1 as int)) && start
                < p.1 <= s.len(),
            None => spec_str_chars(s@, start as int) is None,
        },
{
    let mut out: Vec<u8> = Vec::new();
    let mut cur = start;
    proof {
        assert(Seq::<u8>::empty() + out@ =~= out@);
    }
    loop
        invariant
            start <= cur <= s.len(),
            match spec_str_chars(s@, cur as int) {
                Some(p) => spec_str_chars(s@, start as int) == Some((out@ + p.0, p.1)),
                None => spec_str_chars(s@, start as int) is None,
            },
        decreases s.len() - cur,
    {
        if cur >= s.len() {
            return None;
        }
        let b = s[cur];
        if b == 34 {
            proof {
                assert(out@ + Seq::<u8>::empty() =~= out@);
                lemma_str_chars_advances(s@, start as int);
            }
            return Some((out, cur + 1));
        }
        if b == 92 {
            if s.len() - cur < 2 {
                return None;
            }
            let c = s[cur + 1];
            if c == 117 {
                if s.len() - cur < 6 {
                    assert(spec_u_escape(s@, cur + 2) is None);
                    return None;
                }
                let h3 = hex_val(s[cur + 2]);
                let h2 = hex_val(s[cur + 3]);
                let h1 = hex_val(s[cur + 4]);
                let h0 = hex_val(s[cur + 5]);
                match (h3, h2, h1, h0) {
                    (Some(v3), Some(v2), Some(v1), Some(v0)) => {
                        let v = v3 * 4096 + v2 * 256 + v1 * 16 + v0;
                        if v >= 128 {
                            return None;
                        }
                        let ghost snap = out@;
                        out.push(v as u8);
                        proof {
                            match spec_str_chars(s@, cur + 6) {
                                Some(p) => {
                                    assert(out@ + p.0 =~= snap + (seq![v as u8] + p.0));
                                },
                                None => {},
                            }
                        }
                        cur += 6;
                    },
                    _ => {
                        return None;
                    },
                }
            } else {
                let decoded: u8 = if c == 34 || c == 92 || c == 47 {
                    c
                } else if c == 98 {
                    8
                } else if c == 102 {
                    12
                } else if c == 110 {
                    10
                } else if c == 114 {
                    13
                } else if c == 116 {
                    9
                } else {
                    return None;
                };
                assert(spec_escape_byte(c) == Some(decoded));
                let ghost snap = out@;
                out.push(decoded);
                proof {
                    match spec_str_chars(s@, cur + 2) {
                        Some(p) => {
                            assert(out@ + p.0 =~= snap + (seq![decoded] + p.0));
                        },
                        None => {},
                    }
                }
                cur += 2;
            }
        } else if b < 32 {
            return None;
        } else {
            let ghost snap = out@;
            out.push(b);
            proof {
                match spec_str_chars(s@, cur + 1) {
                    Some(p) => {
                        assert(out@ + p.0 =~= snap + (seq![b] + p.0));
                    },
                    None => {},
                }
            }
            cur += 1;
        }
    }
}

/// Parse a JSON string at `i`.
fn parse_string(s: &Vec<u8>, i: usize) -> (r: Option<(Vec<u8>, usize)>)
    requires
        i <= s.len(),
    ensures
        match r {
            Some(p) => spec_parse_string(s@, i as int) == Some((p.0@, p.1 as int)) && i < p.1
                <= s.len(),
            None => spec_parse_string(s@, i as int) is None,
        },
{
    if i < s.len() && s[i] == 34 {
        parse_string_content(s, i + 1)
    } else {
        None
    }
}

/// Parse the members of an object from just after `{` or a `,`.
fn parse_members(s: &Vec<u8>, i: usize) -> (r: Option<(Vec<(Vec<u8>, Vec<u8>)>, usize)>)
    requires
        i <= s.len(),
    ensures
        match r {
            Some(p) => spec_members(s@, i as int) == Some(
                (p.0@.map_values(|e: (Vec<u8>, Vec<u8>)| (e.0@, e.1@)), p.1 as int),
            ) && p.1 <= s.len(),
            None => spec_members(s@, i as int) is None,
        },
    decreases s.len() - i,
{
    let k = skip_ws(s, i);
    let (key, j1) = match parse_string(s, k) {
        Some(p) => p,
        None => {
            return None;
        },
    };
    let c = skip_ws(s, j1);
    if !(c < s.len() && s[c] == 58) {
        return None;
    }
    let v0 = skip_ws(s, c + 1);
    let (val, j2) = match parse_string(s, v0) {
        Some(p) => p,
        None => {
            return None;
        },
    };
    let e = skip_ws(s, j2);
    if e < s.len() && s[e] == 125 {
        let mut fields: Vec<(Vec<u8>, Vec<u8>)> = Vec::new();
        let ghost kv = key@;
        let ghost vv = val@;
        fields.push((key, val));
        proof {
            assert(fields@.map_values(|e: (Vec<u8>, Vec<u8>)| (e.0@, e.1@)) =~= seq![(kv, vv)]);
        }
        Some((fields, e + 1))
    } else if e < s.len() && s[e] == 44 {
        match parse_members(s, e + 1) {
            Some((mut rest, j3)) => {
                let ghost kv = key@;
                let ghost vv = val@;
                let ghost rv = rest@.map_values(|e: (Vec<u8>, Vec<u8>)| (e.0@, e.1@));
                rest.insert(0, (key, val));
                proof {
                    assert(rest@.map_values(|e: (Vec<u8>, Vec<u8>)| (e.0@, e.1@)) =~= seq![
                        (kv, vv),
                    ] + rv);
                }
                Some((rest, j3))
            },
            None => None,
        }
    } else {
        None
    }
}

/// Parse a whole login body into its fields.
pub fn parse_object(s: &Vec<u8>) -> (r: Option<Vec<(Vec<u8>, Vec<u8>)>>)
    ensures
        match r {
            Some(fields) => spec_parse_object(s@) == Some(
                fields@.map_values(|e: (Vec<u8>, Vec<u8>)| (e.0@, e.1@)),
            ),
            None => spec_parse_object(s@) is None,
        },
{
    let o = skip_ws(s, 0);
    if !(o < s.len() && s[o] == 123) {
        return None;
    }
    let e = skip_ws(s, o + 1);
    if e < s.len() && s[e] == 125 {
        if skip_ws(s, e + 1) == s.len() {
            let fields: Vec<(Vec<u8>, Vec<u8>)> = Vec::new();
            proof {
                assert(fields@.map_values(|e: (Vec<u8>, Vec<u8>)| (e.0@, e.1@)) =~= Seq::<
                    (Seq<u8>, Seq<u8>),
                >::empty());
            }
            Some(fields)
        } else {
            None
        }
    } else {
        match parse_members(s, o + 1) {
            Some((fields, j)) => {
                if skip_ws(s, j) == s.len() {
                    Some(fields)
                } else {
                    None
                }
            },
            None => None,
        }
    }
}

/// The submitted credentials: the body parses as an object holding the
/// `username` and `password` fields exactly once each.
pub open spec fn spec_login_fields(s: Seq<u8>) -> Option<(Seq<u8>, Seq<u8>)> {
    match spec_parse_object(s) {
        None => None,
        Some(fields) => {
            if spec_field_count(fields, "username".spec_bytes()) == 1 && spec_field_count(
                fields,
                "password".spec_bytes(),
            ) == 1 {
                Some(
                    (
                        spec_field_value(fields, "username".spec_bytes())->Some_0,
                        spec_field_value(fields, "password".spec_bytes())->Some_0,
                    ),
                )
            } else {
                None
            }
        },
    }
}

/// Count the fields bearing a name.
fn field_count(fields: &Vec<(Vec<u8>, Vec<u8>)>, name: &Vec<u8>) -> (r: usize)
    ensures
        r == spec_field_count(fields@.map_values(|e: (Vec<u8>, Vec<u8>)| (e.0@, e.1@)), name@),
{
    let ghost fv = fields@.map_values(|e: (Vec<u8>, Vec<u8>)| (e.0@, e.1@));
    let mut n: usize = 0;
    let mut i: usize = 0;
    proof {
        assert(fv.skip(0) =~= fv);
    }
    while i < fields.len()
        invariant
            fv == fields@.map_values(|e: (Vec<u8>, Vec<u8>)| (e.0@, e.1@)),
            fv.len() == fields@.len(),
            i <= fields.len(),
            n <= i,
            n + spec_field_count(fv.skip(i as int), name@) == spec_field_count(fv, name@),
        decreases fields.len() - i,
    {
        proof {
            assert(fv.skip(i as int)[0] == fv[i as int]);
            assert(fv.skip(i as int).drop_first() =~= fv.skip(i + 1 as int));
        }
        if crate::domain::bytes_eq(&fields[i].0, name) {
            n += 1;
        }
        i += 1;
    }
    proof {
        assert(fv.skip(i as int) =~= Seq::<(Seq<u8>, Seq<u8>)>::empty());
    }
    n
}

/// The value of the first field bearing a name, copied out.
fn field_value(fields: &Vec<(Vec<u8>, Vec<u8>)>, name: &Vec<u8>) -> (r: Option<Vec<u8>>)
    ensures
        match r {
            Some(v) => spec_field_value(
                fields@.map_values(|e: (Vec<u8>, Vec<u8>)| (e.0@, e.1@)),
                name@,
            ) == Some(v@),
            None => spec_field_value(
                fields@.map_values(|e: (Vec<u8>, Vec<u8>)| (e.0@, e.1@)),
                name@,
            ) is None,
        },
{
    let ghost fv = fields@.map_values(|e: (Vec<u8>, Vec<u8>)| (e.0@, e.1@));
    let mut i: usize = 0;
    proof {
        assert(fv.skip(0) =~= fv);
    }
    while i < fields.len()
        invariant
            fv == fields@.map_values(|e: (Vec<u8>, Vec<u8>)| (e.0@, e.1@)),
            fv.len() == fields@.len(),
            i <= fields.len(),
            spec_field_value(fv, name@) == spec_field_value(fv.skip(i as int), name@),
        decreases fields.len() - i,
    {
        proof {
            assert(fv.skip(i as int)[0] == fv[i as int]);
            assert(fv.skip(i as int).drop_first() =~= fv.skip(i + 1 as int));
        }
        if crate::domain::bytes_eq(&fields[i].0, name) {
            return Some(crate::domain::clone_bytes(&fields[i].1));
        }
        i += 1;
    }
    proof {
        assert(fv.skip(i as int) =~= Seq::<(Seq<u8>, Seq<u8>)>::empty());
    }
    None
}

/// Parse the login body and extract the credentials.
pub fn login_fields(s: &Vec<u8>) -> (r: Option<(Vec<u8>, Vec<u8>)>)
    ensures
        match r {
            Some(c) => spec_login_fields(s@) == Some((c.0@, c.1@)),
            None => spec_login_fields(s@) is None,
        },
{
    let fields = match parse_object(s) {
        Some(f) => f,
        None => {
            return None;
        },
    };
    let uname = "username".as_bytes_vec();
    let pname = "password".as_bytes_vec();
    if field_count(&fields, &uname) != 1 || field_count(&fields, &pname) != 1 {
        return None;
    }
    let ghost fv = fields@.map_values(|e: (Vec<u8>, Vec<u8>)| (e.0@, e.1@));
    let u = match field_value(&fields, &uname) {
        Some(v) => v,
        None => {
            proof {
                lemma_count_one_has_value(fv, uname@);
            }
            return None;
        },
    };
    let p = match field_value(&fields, &pname) {
        Some(v) => v,
        None => {
            proof {
                lemma_count_one_has_value(fv, pname@);
            }
            return None;
        },
    };
    Some((u, p))
}

/// A field counted once has a value.
proof fn lemma_count_one_has_value(fields: Seq<(Seq<u8>, Seq<u8>)>, name: Seq<u8>)
    requires
        spec_field_count(fields, name) >= 1,
    ensures
        spec_field_value(fields, name) is Some,
    decreases fields.len(),
{
    if fields.len() > 0 && !(fields[0].0 == name) {
        lemma_count_one_has_value(fields.drop_first(), name);
    }
}

} // verus!
