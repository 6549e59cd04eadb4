//! The alias table: validation and the substitution engine.

use web_jingzi::config::{Account, Authorization, Config};
use web_jingzi::domain::{AliasTable, ConfigError};
use web_jingzi::textops::{replace_all, replace_reversible, split_bytes};

fn b(s: &str) -> Vec<u8> {
    s.as_bytes().to_vec()
}

fn config_with(domains: Vec<(Vec<u8>, Vec<u8>)>) -> Config {
    Config {
        listen_address: b("127.0.0.1:8080"),
        domain_name: domains,
        use_https: None,
        data_dir: b("data"),
        authorization: Authorization { enabled: false, domain_list: None, account: None },
    }
}

#[test]
fn check_domain_accepts_disjoint_aliases() {
    let config = config_with(vec![
        (b("mirror.local"), b("example.com")),
        (b("other.local"), b("example.org")),
    ]);
    assert!(config.check_domain().is_ok());
}

#[test]
fn check_domain_rejects_contained_aliases() {
    let config = config_with(vec![(b("foo.local"), b("a.com")), (b("oo.local"), b("b.com"))]);
    match config.check_domain() {
        Err(ConfigError::ConflictingAliases(x, y)) => {
            assert_eq!(x, b("foo.local"));
            assert_eq!(y, b("oo.local"));
        },
        Ok(()) => panic!("conflict not detected"),
    }
}

#[test]
fn build_rejects_contained_aliases() {
    let entries = vec![(b("foo.local"), b("a.com")), (b("oo.local"), b("b.com"))];
    assert!(AliasTable::build(entries).is_err());
}

#[test]
fn check_domain_accepts_equal_aliases() {
    // equal alias strings are not a conflict, as in the containment rule
    let config = config_with(vec![(b("m.local"), b("a.com")), (b("m.local"), b("b.com"))]);
    assert!(config.check_domain().is_ok());
}

#[test]
fn forward_replaces_every_alias_occurrence() {
    let table =
        AliasTable::build(vec![(b("mirror.local"), b("example.com"))]).unwrap();
    let s = b("see http://mirror.local/a and https://mirror.local/b");
    let out = table.forward_substitute(&s);
    assert_eq!(out, b("see http://example.com/a and https://example.com/b"));
}

#[test]
fn reverse_replaces_every_real_occurrence() {
    let table =
        AliasTable::build(vec![(b("mirror.local"), b("example.com"))]).unwrap();
    let s = b("<a href=\"https://example.com/x\">");
    let out = table.reverse_substitute(&s);
    assert_eq!(out, b("<a href=\"https://mirror.local/x\">"));
}

#[test]
fn substitution_round_trip_restores_original() {
    // forward then reverse is the identity on text without the real domain
    let table =
        AliasTable::build(vec![(b("mirror.local"), b("example.com"))]).unwrap();
    let s = b("a page at mirror.local/path, twice: mirror.local");
    let out = table.reverse_substitute(&table.forward_substitute(&s));
    assert_eq!(out, s);
}

#[test]
fn substitution_round_trip_other_direction() {
    // reverse then forward is the identity on text without the alias
    let table =
        AliasTable::build(vec![(b("mirror.local"), b("example.com"))]).unwrap();
    let s = b("body from example.com with a link to example.com/x");
    let out = table.forward_substitute(&table.reverse_substitute(&s));
    assert_eq!(out, s);
}

#[test]
fn forward_is_idempotent_on_ordinary_text() {
    let table =
        AliasTable::build(vec![(b("mirror.local"), b("example.com"))]).unwrap();
    let s = b("http://mirror.local/page");
    let once = table.forward_substitute(&s);
    let twice = table.forward_substitute(&once);
    assert_eq!(once, twice);
}

#[test]
fn reverse_is_idempotent_on_ordinary_text() {
    let table =
        AliasTable::build(vec![(b("mirror.local"), b("example.com"))]).unwrap();
    let s = b("at example.com and example.com/y");
    let once = table.reverse_substitute(&s);
    let twice = table.reverse_substitute(&once);
    assert_eq!(once, twice);
}

#[test]
fn entries_apply_in_declared_order() {
    let table = AliasTable::build(vec![
        (b("one.local"), b("first.com")),
        (b("two.local"), b("second.com")),
    ])
    .unwrap();
    let s = b("one.local two.local");
    assert_eq!(table.forward_substitute(&s), b("first.com second.com"));
}

#[test]
fn exact_lookups() {
    let table = AliasTable::build(vec![
        (b("one.local"), b("first.com")),
        (b("two.local"), b("second.com")),
    ])
    .unwrap();
    assert_eq!(table.real_for(&b("two.local")), Some(b("second.com")));
    assert_eq!(table.alias_for(&b("first.com")), Some(b("one.local")));
    assert_eq!(table.real_for(&b("missing.local")), None);
    assert_eq!(table.alias_for(&b("missing.com")), None);
    assert_eq!(table.len(), 2);
}

#[test]
fn replace_all_is_literal_and_left_to_right() {
    assert_eq!(replace_all(&b("aaa"), &b("aa"), &b("b")), b("ba"));
    assert_eq!(replace_all(&b("xyx"), &b("y"), &b("yy")), b("xyyx"));
    assert_eq!(replace_all(&b("abc"), &b(""), &b("z")), b("abc"));
    assert_eq!(replace_all(&b(""), &b("a"), &b("z")), b(""));
}

#[test]
fn replace_round_trip_can_fail_on_adjacent_remnants() {
    // with pattern "b" replaced by "cc", the text "cbc" substitutes to
    // "cccc", and substituting back yields "bb": the round trip needs the
    // no-spurious-occurrence condition
    let forward = replace_all(&b("cbc"), &b("b"), &b("cc"));
    assert_eq!(forward, b("cccc"));
    let back = replace_all(&forward, &b("cc"), &b("b"));
    assert_eq!(back, b("bb"));
}

#[test]
fn split_on_separator() {
    let parts = split_bytes(&b("a=1; b=2; c"), &b("; "));
    assert_eq!(parts, vec![b("a=1"), b("b=2"), b("c")]);
    let parts = split_bytes(&b("one"), &b("; "));
    assert_eq!(parts, vec![b("one")]);
    let parts = split_bytes(&b("=x="), &b("="));
    assert_eq!(parts, vec![b(""), b("x"), b("")]);
}

#[test]
fn account_fields_are_plain_bytes() {
    let account = Account { username: b("a"), password: b("b") };
    assert_eq!(account.username, b("a"));
    assert_eq!(account.password, b("b"));
}

#[test]
fn reversibility_check_predicts_the_round_trip() {
    // ordinary mirror text: the check passes and the round trip holds
    let s = b("see http://mirror.local/a and mirror.local again");
    assert!(replace_reversible(&s, &b("mirror.local"), &b("example.com")));
    let fwd = replace_all(&s, &b("mirror.local"), &b("example.com"));
    assert_eq!(replace_all(&fwd, &b("example.com"), &b("mirror.local")), s);

    // the adjacent-remnant case: the check refuses, and indeed the round
    // trip fails
    assert!(!replace_reversible(&b("cbc"), &b("b"), &b("cc")));

    // text already holding the replacement is refused
    assert!(!replace_reversible(&b("example.com"), &b("mirror.local"), &b("example.com")));

    // empty patterns are refused
    assert!(!replace_reversible(&b("x"), &b(""), &b("y")));
    assert!(!replace_reversible(&b("x"), &b("y"), &b("")));
}
