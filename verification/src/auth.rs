//! The authorization gate: protected-domain matching, cookie parsing,
//! account checking, and the issuance of bearer tokens.
//!
//! A request is protected when its host contains a configured domain
//! substring; the first configured entry that matches wins. A protected
//! request passes when its `Cookie` header carries a `__wj_token` value
//! present in the token store.

use vstd::prelude::*;

use vstd::string::StrSliceExecFns;
use vstd::string::StringSliceAdditionalSpecFns;

use crate::config::Account;
use crate::domain::{bytes_eq, clone_bytes};
use crate::textops::{contains_pattern, has_pattern, spec_split, split_bytes};

verus! {

/// The name of the authorization cookie.
pub open spec fn cookie_name() -> Seq<u8> {
    "__wj_token".spec_bytes()
}

/// The first configured protected-domain substring that the host
/// contains, if any.
pub open spec fn spec_find_protected(list: Seq<Seq<u8>>, host: Seq<u8>) -> Option<Seq<u8>>
    decreases list.len(),
{
    if list.len() == 0 {
        None
    } else if has_pattern(host, list[0]) {
        Some(list[0])
    } else {
        spec_find_protected(list.drop_first(), host)
    }
}

/// Find the protected-domain entry matching the host, first match wins.
pub fn find_protected(list: &Vec<Vec<u8>>, host: &Vec<u8>) -> (r: Option<Vec<u8>>)
    ensures
        match r {
            Some(d) => spec_find_protected(list@.map_values(|v: Vec<u8>| v@), host@) == Some(d@),
            None => spec_find_protected(list@.map_values(|v: Vec<u8>| v@), host@) is None,
        },
{
    let ghost lv = list@.map_values(|v: Vec<u8>| v@);
    let mut i: usize = 0;
    proof {
        assert(lv.skip(0) =~= lv);
    }
    while i < list.len()
        invariant
            lv == list@.map_values(|v: Vec<u8>| v@),
            lv.len() == list@.len(),
            i <= list.len(),
            spec_find_protected(lv, host@) == spec_find_protected(lv.skip(i as int), host@),
        decreases list.len() - i,
    {
        proof {
            assert(lv.skip(i as int)[0] == lv[i as int]);
            assert(lv.skip(i as int).drop_first() =~= lv.skip(i + 1 as int));
        }
        if contains_pattern(host, &list[i]) {
            return Some(clone_bytes(&list[i]));
        }
        i += 1;
    }
    proof {
        assert(lv.skip(i as int) =~= Seq::<Seq<u8>>::empty());
    }
    None
}

/// The first `=` in a cookie pair, splitting the name from the value.
pub open spec fn spec_first_eq(item: Seq<u8>) -> Option<int>
    decreases item.len(),
{
    if item.len() == 0 {
        None
    } else if item[0] == 61 {
        Some(0)
    } else {
        match spec_first_eq(item.drop_first()) {
            Some(j) => Some(j + 1),
            None => None,
        }
    }
}

/// The token in one `name=value` cookie pair: the pair splits on its
/// first `=`, and the name must be the cookie name.
pub open spec fn spec_pair_token(item: Seq<u8>) -> Option<Seq<u8>> {
    match spec_first_eq(item) {
        Some(i) => {
            if item.take(i) == cookie_name() {
                Some(item.skip(i + 1))
            } else {
                None
            }
        },
        None => None,
    }
}

proof fn lemma_first_eq_at(item: Seq<u8>, k: int)
    requires
        0 <= k <= item.len(),
        forall|j: int| 0 <= j < k ==> item[j] != 61,
        k == item.len() || item[k] == 61,
    ensures
        spec_first_eq(item) == (if k == item.len() {
            Option::<int>::None
        } else {
            Option::<int>::Some(k)
        }),
    decreases k,
{
    if k == 0 {
    } else {
        lemma_first_eq_at(item.drop_first(), k - 1);
    }
}

/// The first token among the `"; "`-separated pairs of one `Cookie`
/// header value.
pub open spec fn spec_token_in_items(items: Seq<Seq<u8>>) -> Option<Seq<u8>>
    decreases items.len(),
{
    if items.len() == 0 {
        None
    } else {
        match spec_pair_token(items[0]) {
            Some(t) => Some(t),
            None => spec_token_in_items(items.drop_first()),
        }
    }
}

/// The token carried by one `Cookie` header value.
pub open spec fn spec_cookie_token(value: Seq<u8>) -> Option<Seq<u8>> {
    spec_token_in_items(spec_split(value, "; ".spec_bytes()))
}

/// The first token across several `Cookie` header values.
pub open spec fn spec_token_in_cookies(values: Seq<Seq<u8>>) -> Option<Seq<u8>>
    decreases values.len(),
{
    if values.len() == 0 {
        None
    } else {
        match spec_cookie_token(values[0]) {
            Some(t) => Some(t),
            None => spec_token_in_cookies(values.drop_first()),
        }
    }
}

/// Extract the token from one cookie pair.
fn pair_token(item: &Vec<u8>) -> (r: Option<Vec<u8>>)
    ensures
        match r {
            Some(t) => spec_pair_token(item@) == Some(t@),
            None => spec_pair_token(item@) is None,
        },
{
    let mut k: usize = 0;
    while k < item.len() && item[k] != 61
        invariant
            k <= item.len(),
            forall|j: int| 0 <= j < k ==> item@[j] != 61,
        decreases item.len() - k,
    {
        k += 1;
    }
    proof {
        lemma_first_eq_at(item@, k as int);
    }
    if k == item.len() {
        return None;
    }
    let mut name: Vec<u8> = Vec::new();
    crate::textops::push_range(&mut name, item, 0, k);
    assert(name@ =~= item@.take(k as int));
    if !bytes_eq(&name, &"__wj_token".as_bytes_vec()) {
        return None;
    }
    let mut value: Vec<u8> = Vec::new();
    crate::textops::push_range(&mut value, item, k + 1, item.len());
    assert(value@ =~= item@.skip(k + 1 as int));
    Some(value)
}

/// Extract the token from one `Cookie` header value.
pub fn cookie_token(value: &Vec<u8>) -> (r: Option<Vec<u8>>)
    ensures
        match r {
            Some(t) => spec_cookie_token(value@) == Some(t@),
            None => spec_cookie_token(value@) is None,
        },
{
    let items = split_bytes(value, &"; ".as_bytes_vec());
    let ghost iv = items@.map_values(|v: Vec<u8>| v@);
    let mut i: usize = 0;
    proof {
        assert(iv.skip(0) =~= iv);
    }
    while i < items.len()
        invariant
            iv == items@.map_values(|v: Vec<u8>| v@),
            iv == spec_split(value@, "; ".spec_bytes()),
            iv.len() == items@.len(),
            i <= items.len(),
            spec_token_in_items(iv) == spec_token_in_items(iv.skip(i as int)),
        decreases items.len() - i,
    {
        proof {
            assert(iv.skip(i as int)[0] == iv[i as int]);
            assert(iv.skip(i as int).drop_first() =~= iv.skip(i + 1 as int));
            assert(iv[i as int] == items@[i as int]@);
        }
        match pair_token(&items[i]) {
            Some(t) => {
                return Some(t);
            },
            None => {},
        }
        i += 1;
    }
    proof {
        assert(iv.skip(i as int) =~= Seq::<Seq<u8>>::empty());
    }
    None
}

/// Extract the first token across several `Cookie` header values.
pub fn token_in_cookies(values: &Vec<Vec<u8>>) -> (r: Option<Vec<u8>>)
    ensures
        match r {
            Some(t) => spec_token_in_cookies(values@.map_values(|v: Vec<u8>| v@)) == Some(t@),
            None => spec_token_in_cookies(values@.map_values(|v: Vec<u8>| v@)) is None,
        },
{
    let ghost vv = values@.map_values(|v: Vec<u8>| v@);
    let mut i: usize = 0;
    proof {
        assert(vv.skip(0) =~= vv);
    }
    while i < values.len()
        invariant
            vv == values@.map_values(|v: Vec<u8>| v@),
            vv.len() == values@.len(),
            i <= values.len(),
            spec_token_in_cookies(vv) == spec_token_in_cookies(vv.skip(i as int)),
        decreases values.len() - i,
    {
        proof {
            assert(vv.skip(i as int)[0] == vv[i as int]);
            assert(vv.skip(i as int).drop_first() =~= vv.skip(i + 1 as int));
            assert(vv[i as int] == values@[i as int]@);
        }
        match cookie_token(&values[i]) {
            Some(t) => {
                return Some(t);
            },
            None => {},
        }
        i += 1;
    }
    proof {
        assert(vv.skip(i as int) =~= Seq::<Seq<u8>>::empty());
    }
    None
}

/// The credential view of an account list.
pub open spec fn accounts_view(accounts: Seq<Account>) -> Seq<(Seq<u8>, Seq<u8>)> {
    accounts.map_values(|a: Account| (a.username@, a.password@))
}

/// Some configured account has exactly these credentials.
pub open spec fn spec_account_matches(
    accounts: Seq<(Seq<u8>, Seq<u8>)>,
    username: Seq<u8>,
    password: Seq<u8>,
) -> bool {
    exists|k: int|
        0 <= k < accounts.len() && accounts[k].0 == username && accounts[k].1 == password
}

/// Whether the submitted credentials match a configured account exactly.
pub fn account_matches(accounts: &Vec<Account>, username: &Vec<u8>, password: &Vec<u8>) -> (r:
    bool)
    ensures
        r == spec_account_matches(accounts_view(accounts@), username@, password@),
{
    let ghost av = accounts_view(accounts@);
    let mut i: usize = 0;
    while i < accounts.len()
        invariant
            av == accounts_view(accounts@),
            av.len() == accounts@.len(),
            i <= accounts.len(),
            forall|k: int| 0 <= k < i ==> !(av[k].0 == username@ && av[k].1 == password@),
        decreases accounts.len() - i,
    {
        if bytes_eq(&accounts[i].username, username) && bytes_eq(
            &accounts[i].password,
            password,
        ) {
            assert(av[i as int].0 == username@ && av[i as int].1 == password@);
            return true;
        }
        i += 1;
    }
    false
}

/// Relies on `uuid::Uuid::new_v4` and its `Display` form: a fresh random
/// version-4 UUID in the hyphenated format, 36 ASCII characters. The
/// value is random; nothing but its length is promised.
#[verifier::external_body]
pub fn new_token() -> (r: Vec<u8>)
    ensures
        r@.len() == 36,
{
    uuid::Uuid::new_v4().to_string().into_bytes()
}

/// Relies on `time::OffsetDateTime::now_utc`, `time::Duration::days` and
/// RFC 2822 formatting: the moment the given number of days from now, as
/// a date string for a cookie `Expires` attribute. The value depends on
/// the clock; nothing is promised of it. Assumes the system clock lies
/// far from the representable range's ends.
#[verifier::external_body]
pub fn http_date_days_from_now(days: i64) -> (r: Vec<u8>)
    requires
        0 <= days <= 36500,
{
    let expires = time::OffsetDateTime::now_utc() + time::Duration::days(days);
    match expires.format(&time::format_description::well_known::Rfc2822) {
        Ok(s) => s.into_bytes(),
        Err(_) => Vec::new(),
    }
}

} // verus!
