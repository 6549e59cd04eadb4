//! The alias table: a bidirectional map between alias domains and their
//! real upstream domains, validated so that no alias contains another.
//!
//! Substitution applies the entries in their declared order: the forward
//! direction (restore) turns every alias occurrence into its real domain,
//! the reverse direction (replace) turns every real-domain occurrence into
//! its alias.

use vstd::prelude::*;

use crate::textops::{
    contains_pattern, has_pattern, lemma_replace_absent, lemma_replace_roundtrip, replace_all,
    spec_replace_all, unreplace_safe,
};

verus! {

/// A configuration fault: two distinct alias domains where one contains
/// the other, which would make substitution order-dependent. The first
/// field is the containing alias, the second the contained one.
#[derive(Debug)]
pub enum ConfigError {
    ConflictingAliases(Vec<u8>, Vec<u8>),
}

/// The view of an entry list: each entry as (alias, real_dom).
pub open spec fn entries_view(v: Seq<(Vec<u8>, Vec<u8>)>) -> Seq<(Seq<u8>, Seq<u8>)> {
    v.map_values(|e: (Vec<u8>, Vec<u8>)| (e.0@, e.1@))
}

/// The alias side of an entry list.
pub open spec fn aliases_of(entries: Seq<(Seq<u8>, Seq<u8>)>) -> Seq<Seq<u8>> {
    entries.map_values(|e: (Seq<u8>, Seq<u8>)| e.0)
}

/// Aliases `m` and `n` conflict: they differ and alias `m` contains
/// alias `n` as a substring.
pub open spec fn spec_conflict(aliases: Seq<Seq<u8>>, m: int, n: int) -> bool {
    &&& 0 <= m < aliases.len()
    &&& 0 <= n < aliases.len()
    &&& aliases[m] != aliases[n]
    &&& has_pattern(aliases[m], aliases[n])
}

/// Some pair of aliases conflicts.
pub open spec fn has_conflict(aliases: Seq<Seq<u8>>) -> bool {
    exists|m: int, n: int| spec_conflict(aliases, m, n)
}

/// Forward substitution: for each entry in order, every occurrence of the
/// alias is replaced by the real domain.
pub open spec fn spec_forward(entries: Seq<(Seq<u8>, Seq<u8>)>, s: Seq<u8>) -> Seq<u8>
    decreases entries.len(),
{
    if entries.len() == 0 {
        s
    } else {
        spec_forward(entries.drop_first(), spec_replace_all(s, entries[0].0, entries[0].1))
    }
}

/// Reverse substitution: for each entry in order, every occurrence of the
/// real domain is replaced by the alias.
pub open spec fn spec_reverse(entries: Seq<(Seq<u8>, Seq<u8>)>, s: Seq<u8>) -> Seq<u8>
    decreases entries.len(),
{
    if entries.len() == 0 {
        s
    } else {
        spec_reverse(entries.drop_first(), spec_replace_all(s, entries[0].1, entries[0].0))
    }
}

/// Compare two byte strings.
pub fn bytes_eq(a: &Vec<u8>, b: &Vec<u8>) -> (r: bool)
    ensures
        r == (a@ == b@),
{
    if a.len() != b.len() {
        return false;
    }
    let mut i: usize = 0;
    while i < a.len()
        invariant
            a.len() == b.len(),
            i <= a.len(),
            forall|k: int| 0 <= k < i ==> a@[k] == b@[k],
        decreases a.len() - i,
    {
        if a[i] != b[i] {
            return false;
        }
        i += 1;
    }
    assert(a@ =~= b@);
    true
}

/// Copy a byte string.
pub fn clone_bytes(v: &Vec<u8>) -> (r: Vec<u8>)
    ensures
        r@ == v@,
{
    let mut out: Vec<u8> = Vec::new();
    let mut i: usize = 0;
    while i < v.len()
        invariant
            i <= v.len(),
            out@ == v@.subrange(0, i as int),
        decreases v.len() - i,
    {
        out.push(v[i]);
        assert(out@ =~= v@.subrange(0, i + 1 as int));
        i += 1;
    }
    assert(out@ =~= v@);
    out
}

/// Search an entry list for a pair of conflicting aliases; the result
/// names the containing entry first, the contained one second.
pub fn find_conflict(entries: &Vec<(Vec<u8>, Vec<u8>)>) -> (r: Option<(usize, usize)>)
    ensures
        match r {
            Some(p) => spec_conflict(aliases_of(entries_view(entries@)), p.0 as int, p.1 as int),
            None => !has_conflict(aliases_of(entries_view(entries@))),
        },
{
    let ghost aliases = aliases_of(entries_view(entries@));
    let mut i: usize = 0;
    while i < entries.len()
        invariant
            aliases == aliases_of(entries_view(entries@)),
            aliases.len() == entries@.len(),
            i <= entries.len(),
            forall|m: int, n: int| 0 <= n < i ==> !spec_conflict(aliases, m, n),
        decreases entries.len() - i,
    {
        let mut j: usize = 0;
        while j < entries.len()
            invariant
                aliases == aliases_of(entries_view(entries@)),
                aliases.len() == entries@.len(),
                i < entries.len(),
                j <= entries.len(),
                forall|m: int| 0 <= m < j ==> !spec_conflict(aliases, m, i as int),
            decreases entries.len() - j,
        {
            if !bytes_eq(&entries[j].0, &entries[i].0) && contains_pattern(
                &entries[j].0,
                &entries[i].0,
            ) {
                assert(spec_conflict(aliases, j as int, i as int));
                return Some((j, i));
            }
            j += 1;
        }
        i += 1;
    }
    assert forall|m: int, n: int| !spec_conflict(aliases, m, n) by {
        if spec_conflict(aliases, m, n) {
            assert(0 <= n < entries@.len());
        }
    }
    None
}

/// The immutable alias table. Built once at startup from the configured
/// alias-to-real mapping, after validation.
pub struct AliasTable {
    entries: Vec<(Vec<u8>, Vec<u8>)>,
}

impl AliasTable {
    /// The entries as (alias, real_dom) pairs, in declared order.
    pub closed spec fn entries(&self) -> Seq<(Seq<u8>, Seq<u8>)> {
        entries_view(self.entries@)
    }

    /// A validated table holds no pair of conflicting aliases.
    pub open spec fn wf(&self) -> bool {
        !has_conflict(aliases_of(self.entries()))
    }

    /// Validate and build the table; fails when two distinct aliases
    /// contain one another, naming a conflicting pair of the given
    /// entries, the containing alias first.
    pub fn build(entries: Vec<(Vec<u8>, Vec<u8>)>) -> (r: Result<AliasTable, ConfigError>)
        ensures
            match r {
                Ok(t) => t.entries() == entries_view(entries@) && t.wf(),
                Err(e) => {
                    &&& has_conflict(aliases_of(entries_view(entries@)))
                    &&& match e {
                        ConfigError::ConflictingAliases(x, y) => exists|m: int, n: int|
                            spec_conflict(aliases_of(entries_view(entries@)), m, n)
                                && aliases_of(entries_view(entries@))[m] == x@
                                && aliases_of(entries_view(entries@))[n] == y@,
                    }
                },
            },
    {
        match find_conflict(&entries) {
            Some((m, n)) => {
                let ghost aliases = aliases_of(entries_view(entries@));
                proof {
                    assert(entries_view(entries@)[m as int] == (
                        entries@[m as int].0@,
                        entries@[m as int].1@,
                    ));
                    assert(entries_view(entries@)[n as int] == (
                        entries@[n as int].0@,
                        entries@[n as int].1@,
                    ));
                    assert(aliases[m as int] == entries@[m as int].0@);
                    assert(aliases[n as int] == entries@[n as int].0@);
                }
                let x = clone_bytes(&entries[m].0);
                let y = clone_bytes(&entries[n].0);
                Err(ConfigError::ConflictingAliases(x, y))
            },
            None => Ok(AliasTable { entries }),
        }
    }

    /// The number of entries.
    pub fn len(&self) -> (r: usize)
        ensures
            r == self.entries().len(),
    {
        self.entries.len()
    }

    /// Forward substitution (restore): every alias becomes its real domain.
    pub fn forward_substitute(&self, s: &Vec<u8>) -> (r: Vec<u8>)
        ensures
            r@ == spec_forward(self.entries(), s@),
    {
        let mut cur = clone_bytes(s);
        let mut k: usize = 0;
        proof {
            assert(self.entries().skip(0) =~= self.entries());
        }
        while k < self.entries.len()
            invariant
                k <= self.entries.len(),
                self.entries().len() == self.entries@.len(),
                spec_forward(self.entries().skip(k as int), cur@) == spec_forward(
                    self.entries(),
                    s@,
                ),
            decreases self.entries.len() - k,
        {
            let ghost pre = self.entries().skip(k as int);
            cur = replace_all(&cur, &self.entries[k].0, &self.entries[k].1);
            proof {
                assert(pre[0] == self.entries()[k as int]);
                assert(pre.drop_first() =~= self.entries().skip(k + 1 as int));
            }
            k += 1;
        }
        proof {
            assert(self.entries().skip(k as int) =~= Seq::<(Seq<u8>, Seq<u8>)>::empty());
        }
        cur
    }

    /// Reverse substitution (replace): every real domain becomes its alias.
    pub fn reverse_substitute(&self, s: &Vec<u8>) -> (r: Vec<u8>)
        ensures
            r@ == spec_reverse(self.entries(), s@),
    {
        let mut cur = clone_bytes(s);
        let mut k: usize = 0;
        proof {
            assert(self.entries().skip(0) =~= self.entries());
        }
        while k < self.entries.len()
            invariant
                k <= self.entries.len(),
                self.entries().len() == self.entries@.len(),
                spec_reverse(self.entries().skip(k as int), cur@) == spec_reverse(
                    self.entries(),
                    s@,
                ),
            decreases self.entries.len() - k,
        {
            let ghost pre = self.entries().skip(k as int);
            cur = replace_all(&cur, &self.entries[k].1, &self.entries[k].0);
            proof {
                assert(pre[0] == self.entries()[k as int]);
                assert(pre.drop_first() =~= self.entries().skip(k + 1 as int));
            }
            k += 1;
        }
        proof {
            assert(self.entries().skip(k as int) =~= Seq::<(Seq<u8>, Seq<u8>)>::empty());
        }
        cur
    }

    /// Exact lookup: the real domain for an alias, matching the first
    /// entry whose alias equals the argument.
    pub fn real_for(&self, alias: &Vec<u8>) -> (r: Option<Vec<u8>>)
        ensures
            match r {
                Some(v) => exists|k: int|
                    0 <= k < self.entries().len() && self.entries()[k].0 == alias@
                        && self.entries()[k].1 == v@,
                None => forall|k: int|
                    0 <= k < self.entries().len() ==> self.entries()[k].0 != alias@,
            },
    {
        let mut k: usize = 0;
        while k < self.entries.len()
            invariant
                k <= self.entries.len(),
                self.entries().len() == self.entries@.len(),
                forall|m: int| 0 <= m < k ==> self.entries()[m].0 != alias@,
            decreases self.entries.len() - k,
        {
            if bytes_eq(&self.entries[k].0, alias) {
                assert(self.entries()[k as int].0 == alias@);
                return Some(clone_bytes(&self.entries[k].1));
            }
            k += 1;
        }
        None
    }

    /// Exact lookup: the alias for a real domain, matching the first
    /// entry whose real domain equals the argument.
    pub fn alias_for(&self, real_dom: &Vec<u8>) -> (r: Option<Vec<u8>>)
        ensures
            match r {
                Some(v) => exists|k: int|
                    0 <= k < self.entries().len() && self.entries()[k].1 == real_dom@
                        && self.entries()[k].0 == v@,
                None => forall|k: int|
                    0 <= k < self.entries().len() ==> self.entries()[k].1 != real_dom@,
            },
    {
        let mut k: usize = 0;
        while k < self.entries.len()
            invariant
                k <= self.entries.len(),
                self.entries().len() == self.entries@.len(),
                forall|m: int| 0 <= m < k ==> self.entries()[m].1 != real_dom@,
            decreases self.entries.len() - k,
        {
            if bytes_eq(&self.entries[k].1, real_dom) {
                assert(self.entries()[k as int].1 == real_dom@);
                return Some(clone_bytes(&self.entries[k].0));
            }
            k += 1;
        }
        None
    }
}

/// A text in which no alias occurs is left unchanged by forward
/// substitution.
pub proof fn lemma_forward_fixed(entries: Seq<(Seq<u8>, Seq<u8>)>, t: Seq<u8>)
    requires
        forall|k: int| 0 <= k < entries.len() ==> (#[trigger] entries[k]).0.len() > 0,
        forall|k: int| 0 <= k < entries.len() ==> !has_pattern(t, (#[trigger] entries[k]).0),
    ensures
        spec_forward(entries, t) == t,
    decreases entries.len(),
{
    if entries.len() > 0 {
        lemma_replace_absent(t, entries[0].0, entries[0].1);
        assert(forall|k: int|
            0 <= k < entries.drop_first().len() ==> entries.drop_first()[k] == entries[k + 1]);
        lemma_forward_fixed(entries.drop_first(), t);
    }
}

/// A text in which no real domain occurs is left unchanged by reverse
/// substitution.
pub proof fn lemma_reverse_fixed(entries: Seq<(Seq<u8>, Seq<u8>)>, t: Seq<u8>)
    requires
        forall|k: int| 0 <= k < entries.len() ==> (#[trigger] entries[k]).1.len() > 0,
        forall|k: int| 0 <= k < entries.len() ==> !has_pattern(t, (#[trigger] entries[k]).1),
    ensures
        spec_reverse(entries, t) == t,
    decreases entries.len(),
{
    if entries.len() > 0 {
        lemma_replace_absent(t, entries[0].1, entries[0].0);
        assert(forall|k: int|
            0 <= k < entries.drop_first().len() ==> entries.drop_first()[k] == entries[k + 1]);
        lemma_reverse_fixed(entries.drop_first(), t);
    }
}

/// Applying forward substitution twice equals applying it once, whenever
/// the substituted text holds no further alias occurrence. (With an entry
/// such as alias `ab`, real `a`, the text `abb` substitutes to `ab`, which
/// still holds the alias; such entries are excluded by the hypothesis.)
pub proof fn lemma_forward_idempotent(entries: Seq<(Seq<u8>, Seq<u8>)>, s: Seq<u8>)
    requires
        forall|k: int| 0 <= k < entries.len() ==> (#[trigger] entries[k]).0.len() > 0,
        forall|k: int|
            0 <= k < entries.len() ==> !has_pattern(
                spec_forward(entries, s),
                (#[trigger] entries[k]).0,
            ),
    ensures
        spec_forward(entries, spec_forward(entries, s)) == spec_forward(entries, s),
{
    lemma_forward_fixed(entries, spec_forward(entries, s));
}

/// Applying reverse substitution twice equals applying it once, whenever
/// the substituted text holds no further real-domain occurrence.
pub proof fn lemma_reverse_idempotent(entries: Seq<(Seq<u8>, Seq<u8>)>, s: Seq<u8>)
    requires
        forall|k: int| 0 <= k < entries.len() ==> (#[trigger] entries[k]).1.len() > 0,
        forall|k: int|
            0 <= k < entries.len() ==> !has_pattern(
                spec_reverse(entries, s),
                (#[trigger] entries[k]).1,
            ),
    ensures
        spec_reverse(entries, spec_reverse(entries, s)) == spec_reverse(entries, s),
{
    lemma_reverse_fixed(entries, spec_reverse(entries, s));
}

/// Inversion for a single-entry table: reverse substitution undoes forward
/// substitution on a text that holds no real-domain occurrence, provided
/// substitution creates no spurious real-domain occurrence
/// (`unreplace_safe`).
pub proof fn lemma_forward_then_reverse(alias: Seq<u8>, real_dom: Seq<u8>, s: Seq<u8>)
    requires
        alias.len() > 0,
        real_dom.len() > 0,
        !has_pattern(s, real_dom),
        unreplace_safe(s, alias, real_dom),
    ensures
        spec_reverse(seq![(alias, real_dom)], spec_forward(seq![(alias, real_dom)], s)) == s,
{
    let single = seq![(alias, real_dom)];
    let rest = single.drop_first();
    let x = spec_replace_all(s, alias, real_dom);
    let y = spec_replace_all(x, real_dom, alias);
    assert(single[0] == (alias, real_dom));
    assert(rest.len() == 0);
    assert(spec_forward(single, s) == spec_forward(rest, x));
    assert(spec_forward(rest, x) == x);
    assert(spec_reverse(single, x) == spec_reverse(rest, y));
    assert(spec_reverse(rest, y) == y);
    lemma_replace_roundtrip(s, alias, real_dom);
}

/// Inversion for a single-entry table, the other way round: forward
/// substitution undoes reverse substitution on a text that holds no alias
/// occurrence.
pub proof fn lemma_reverse_then_forward(alias: Seq<u8>, real_dom: Seq<u8>, s: Seq<u8>)
    requires
        alias.len() > 0,
        real_dom.len() > 0,
        !has_pattern(s, alias),
        unreplace_safe(s, real_dom, alias),
    ensures
        spec_forward(seq![(alias, real_dom)], spec_reverse(seq![(alias, real_dom)], s)) == s,
{
    let single = seq![(alias, real_dom)];
    let rest = single.drop_first();
    let x = spec_replace_all(s, real_dom, alias);
    let y = spec_replace_all(x, alias, real_dom);
    assert(single[0] == (alias, real_dom));
    assert(rest.len() == 0);
    assert(spec_reverse(single, s) == spec_reverse(rest, x));
    assert(spec_reverse(rest, x) == x);
    assert(spec_forward(single, x) == spec_forward(rest, y));
    assert(spec_forward(rest, y) == y);
    lemma_replace_roundtrip(s, real_dom, alias);
}

} // verus!
