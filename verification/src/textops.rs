//! Literal all-occurrence substitution over byte strings.
//!
//! The proxy rewrites domains by plain substring replacement: every
//! occurrence of a pattern is replaced, scanning left to right without
//! overlap. `spec_replace_all` is the mathematical definition and
//! `replace_all` the verified executable form.

use vstd::prelude::*;

verus! {

/// The view of a list of byte-string pairs.
pub open spec fn pairs_view(v: Seq<(Vec<u8>, Vec<u8>)>) -> Seq<(Seq<u8>, Seq<u8>)> {
    v.map_values(|e: (Vec<u8>, Vec<u8>)| (e.0@, e.1@))
}

/// The pattern `p` occurs in `s` at position `i`.
pub open spec fn occurs_at(s: Seq<u8>, p: Seq<u8>, i: int) -> bool {
    0 <= i && i + p.len() <= s.len() && s.subrange(i, i + p.len() as int) == p
}

/// The pattern `p` occurs somewhere in `s`.
pub open spec fn has_pattern(s: Seq<u8>, p: Seq<u8>) -> bool {
    exists|i: int| occurs_at(s, p, i)
}

/// `s` with every occurrence of `p` replaced by `q`, scanning left to
/// right; a replaced stretch is not scanned again. An empty pattern
/// replaces nothing.
pub open spec fn spec_replace_all(s: Seq<u8>, p: Seq<u8>, q: Seq<u8>) -> Seq<u8>
    decreases s.len(),
{
    if p.len() == 0 || s.len() < p.len() {
        s
    } else if s.subrange(0, p.len() as int) == p {
        q + spec_replace_all(s.subrange(p.len() as int, s.len() as int), p, q)
    } else {
        seq![s[0]] + spec_replace_all(s.drop_first(), p, q)
    }
}

/// Occurrences shift with `drop_first`: an occurrence of `p` in `s` at a
/// positive position is an occurrence in `s.drop_first()` one step earlier,
/// and conversely.
proof fn lemma_occurs_drop_first(s: Seq<u8>, p: Seq<u8>, i: int)
    requires
        s.len() > 0,
        i >= 1,
    ensures
        occurs_at(s, p, i) <==> occurs_at(s.drop_first(), p, i - 1),
{
    if occurs_at(s, p, i) {
        assert(s.drop_first().subrange(i - 1, i - 1 + p.len() as int) =~= s.subrange(
            i,
            i + p.len() as int,
        ));
    }
    if occurs_at(s.drop_first(), p, i - 1) {
        assert(s.subrange(i, i + p.len() as int) =~= s.drop_first().subrange(
            i - 1,
            i - 1 + p.len() as int,
        ));
    }
}

/// A string without an occurrence of the pattern is left unchanged.
pub proof fn lemma_replace_absent(s: Seq<u8>, p: Seq<u8>, q: Seq<u8>)
    requires
        p.len() > 0,
        !has_pattern(s, p),
    ensures
        spec_replace_all(s, p, q) == s,
    decreases s.len(),
{
    if s.len() < p.len() {
    } else if s.subrange(0, p.len() as int) == p {
        assert(occurs_at(s, p, 0));
    } else {
        assert(!has_pattern(s.drop_first(), p)) by {
            if has_pattern(s.drop_first(), p) {
                let j = choose|j: int| occurs_at(s.drop_first(), p, j);
                lemma_occurs_drop_first(s, p, j + 1);
                assert(occurs_at(s, p, j + 1));
            }
        }
        lemma_replace_absent(s.drop_first(), p, q);
        assert(seq![s[0]] + s.drop_first() =~= s);
    }
}

/// An occurrence of `p` inside `s.subrange(lo, hi)` is an occurrence in `s`.
pub proof fn lemma_pattern_in_subrange(s: Seq<u8>, p: Seq<u8>, lo: int, hi: int)
    requires
        0 <= lo <= hi <= s.len(),
        has_pattern(s.subrange(lo, hi), p),
    ensures
        has_pattern(s, p),
{
    let j = choose|j: int| occurs_at(s.subrange(lo, hi), p, j);
    assert(s.subrange(lo + j, lo + j + p.len() as int) =~= s.subrange(lo, hi).subrange(
        j,
        j + p.len() as int,
    ));
    assert(occurs_at(s, p, lo + j));
}

/// No substituted text is mistaken for a pattern when substituting back:
/// scanning as `spec_replace_all(s, a, r)` does, wherever a stretch of `s`
/// is kept, the text from that point on does not begin with `r`. Inserted
/// copies of `r` are then the only occurrences of `r` in the result.
pub open spec fn unreplace_safe(s: Seq<u8>, a: Seq<u8>, r: Seq<u8>) -> bool
    decreases s.len(),
{
    if a.len() == 0 || s.len() < a.len() {
        true
    } else if s.subrange(0, a.len() as int) == a {
        unreplace_safe(s.subrange(a.len() as int, s.len() as int), a, r)
    } else {
        !occurs_at(seq![s[0]] + spec_replace_all(s.drop_first(), a, r), r, 0)
            && unreplace_safe(s.drop_first(), a, r)
    }
}

/// Substituting `a` by `r` and then `r` by `a` restores the original,
/// provided the original has no occurrence of `r` and no spurious
/// occurrence of `r` arises in the substituted text.
pub proof fn lemma_replace_roundtrip(s: Seq<u8>, a: Seq<u8>, r: Seq<u8>)
    requires
        a.len() > 0,
        r.len() > 0,
        !has_pattern(s, r),
        unreplace_safe(s, a, r),
    ensures
        spec_replace_all(spec_replace_all(s, a, r), r, a) == s,
    decreases s.len(),
{
    if s.len() < a.len() {
        lemma_replace_absent(s, a, r);
        lemma_replace_absent(s, r, a);
    } else if s.subrange(0, a.len() as int) == a {
        let s2 = s.subrange(a.len() as int, s.len() as int);
        assert(!has_pattern(s2, r)) by {
            if has_pattern(s2, r) {
                lemma_pattern_in_subrange(s, r, a.len() as int, s.len() as int);
            }
        }
        lemma_replace_roundtrip(s2, a, r);
        let x = r + spec_replace_all(s2, a, r);
        assert(spec_replace_all(s, a, r) == x);
        assert(x.subrange(0, r.len() as int) =~= r);
        assert(occurs_at(x, r, 0));
        lemma_replace_step_match(x, r, a);
        assert(x.subrange(r.len() as int, x.len() as int) =~= spec_replace_all(s2, a, r));
        assert(a + s2 =~= s);
    } else {
        let s1 = s.drop_first();
        assert(!has_pattern(s1, r)) by {
            if has_pattern(s1, r) {
                lemma_pattern_in_subrange(s, r, 1, s.len() as int);
            }
        }
        lemma_replace_roundtrip(s1, a, r);
        let x = seq![s[0]] + spec_replace_all(s1, a, r);
        assert(spec_replace_all(s, a, r) == x);
        assert(x.len() > 0);
        lemma_replace_step_byte(x, r, a);
        assert(x.drop_first() =~= spec_replace_all(s1, a, r));
        assert(seq![s[0]] + s1 =~= s);
    }
}

/// Copy `src[from..to]` out as a fresh byte string.
pub fn subvec(src: &Vec<u8>, from: usize, to: usize) -> (r: Vec<u8>)
    requires
        from <= to <= src.len(),
    ensures
        r@ == src@.subrange(from as int, to as int),
{
    let mut out: Vec<u8> = Vec::new();
    push_range(&mut out, src, from, to);
    assert(out@ =~= src@.subrange(from as int, to as int));
    out
}

/// Decide `unreplace_safe`: whether substituting `pat` by `rep` in `s`
/// creates no spurious occurrence of `rep`.
fn unreplace_safe_check(s: &Vec<u8>, pat: &Vec<u8>, rep: &Vec<u8>) -> (res: bool)
    requires
        pat@.len() > 0,
    ensures
        res == unreplace_safe(s@, pat@, rep@),
    decreases s@.len(),
{
    if s.len() < pat.len() {
        return true;
    }
    if is_match_at(s, pat, 0) {
        assert(s@.subrange(0, pat@.len() as int) == pat@);
        let tail = subvec(s, pat.len(), s.len());
        unreplace_safe_check(&tail, pat, rep)
    } else {
        assert(s@.subrange(0, pat@.len() as int) != pat@);
        let tail = subvec(s, 1, s.len());
        assert(tail@ =~= s@.drop_first());
        let transformed = replace_all(&tail, pat, rep);
        let mut probe: Vec<u8> = Vec::new();
        probe.push(s[0]);
        append_bytes(&mut probe, &transformed);
        assert(probe@ =~= seq![s@[0]] + spec_replace_all(s@.drop_first(), pat@, rep@));
        if is_match_at(&probe, rep, 0) {
            return false;
        }
        unreplace_safe_check(&tail, pat, rep)
    }
}

/// Decide whether the round trip is guaranteed: substituting `pat` by
/// `rep` in `s` and then `rep` by `pat` restores `s` whenever this
/// returns true (`lemma_replace_roundtrip`).
pub fn replace_reversible(s: &Vec<u8>, pat: &Vec<u8>, rep: &Vec<u8>) -> (res: bool)
    ensures
        res == (pat@.len() > 0 && rep@.len() > 0 && !has_pattern(s@, rep@) && unreplace_safe(
            s@,
            pat@,
            rep@,
        )),
        res ==> spec_replace_all(spec_replace_all(s@, pat@, rep@), rep@, pat@) == s@,
{
    if pat.len() == 0 || rep.len() == 0 {
        return false;
    }
    if contains_pattern(s, rep) {
        return false;
    }
    let safe = unreplace_safe_check(s, pat, rep);
    proof {
        if safe {
            lemma_replace_roundtrip(s@, pat@, rep@);
        }
    }
    safe
}

/// `s` split on every occurrence of the separator, scanning left to
/// right; `n` separators yield `n + 1` parts. An empty separator does not
/// split.
pub open spec fn spec_split(s: Seq<u8>, sep: Seq<u8>) -> Seq<Seq<u8>>
    decreases s.len(),
{
    if sep.len() == 0 || s.len() < sep.len() {
        seq![s]
    } else if s.subrange(0, sep.len() as int) == sep {
        seq![Seq::<u8>::empty()] + spec_split(s.subrange(sep.len() as int, s.len() as int), sep)
    } else {
        let rest = spec_split(s.drop_first(), sep);
        seq![seq![s[0]] + rest[0]] + rest.drop_first()
    }
}

/// A split has at least one part.
pub proof fn lemma_split_nonempty(s: Seq<u8>, sep: Seq<u8>)
    ensures
        spec_split(s, sep).len() >= 1,
    decreases s.len(),
{
    if sep.len() == 0 || s.len() < sep.len() {
    } else if s.subrange(0, sep.len() as int) == sep {
        lemma_split_nonempty(s.subrange(sep.len() as int, s.len() as int), sep);
    } else {
        lemma_split_nonempty(s.drop_first(), sep);
    }
}

/// Test for an occurrence of `p` at position `i` of `s`.
fn is_match_at(s: &Vec<u8>, p: &Vec<u8>, i: usize) -> (r: bool)
    requires
        i <= s.len(),
    ensures
        r == occurs_at(s@, p@, i as int),
{
    if p.len() > s.len() - i {
        assert(!occurs_at(s@, p@, i as int));
        return false;
    }
    let mut j: usize = 0;
    while j < p.len()
        invariant
            i + p.len() <= s.len(),
            j <= p.len(),
            forall|k: int| 0 <= k < j ==> s@[i + k] == p@[k],
        decreases p.len() - j,
    {
        if s[i + j] != p[j] {
            assert(s@.subrange(i as int, i + p@.len() as int)[j as int] != p@[j as int]);
            return false;
        }
        j += 1;
    }
    assert(s@.subrange(i as int, i + p@.len() as int) =~= p@);
    true
}

/// Whether `p` occurs anywhere in `s`.
pub fn contains_pattern(s: &Vec<u8>, p: &Vec<u8>) -> (r: bool)
    ensures
        r == has_pattern(s@, p@),
{
    if p.len() == 0 {
        assert(occurs_at(s@, p@, 0)) by {
            assert(s@.subrange(0, 0) =~= p@);
        }
        return true;
    }
    if p.len() > s.len() {
        assert(!has_pattern(s@, p@)) by {
            if has_pattern(s@, p@) {
                let j = choose|j: int| occurs_at(s@, p@, j);
            }
        }
        return false;
    }
    let mut i: usize = 0;
    loop
        invariant
            0 < p.len() <= s.len(),
            i <= s.len() - p.len() + 1,
            forall|k: int| 0 <= k < i ==> !occurs_at(s@, p@, k),
        decreases s.len() - p.len() + 1 - i,
    {
        if i > s.len() - p.len() {
            assert(forall|k: int| occurs_at(s@, p@, k) ==> 0 <= k <= s@.len() - p@.len());
            assert(!has_pattern(s@, p@));
            return false;
        }
        if is_match_at(s, p, i) {
            assert(occurs_at(s@, p@, i as int));
            return true;
        }
        i += 1;
    }
}

/// Append `src[from..to]` to `out`.
pub(crate) fn push_range(out: &mut Vec<u8>, src: &Vec<u8>, from: usize, to: usize)
    requires
        from <= to <= src.len(),
    ensures
        final(out)@ == old(out)@ + src@.subrange(from as int, to as int),
{
    let mut k: usize = from;
    while k < to
        invariant
            from <= k <= to <= src.len(),
            out@ == old(out)@ + src@.subrange(from as int, k as int),
        decreases to - k,
    {
        out.push(src[k]);
        assert(src@.subrange(from as int, k + 1 as int) =~= src@.subrange(from as int, k as int)
            + seq![src@[k as int]]);
        k += 1;
    }
    assert(out@ =~= old(out)@ + src@.subrange(from as int, to as int));
}

/// Append a whole byte string to another.
pub fn append_bytes(out: &mut Vec<u8>, src: &Vec<u8>)
    ensures
        final(out)@ == old(out)@ + src@,
{
    push_range(out, src, 0, src.len());
    assert(src@.subrange(0, src@.len() as int) =~= src@);
}

/// Unfolding step: a match at the head is replaced whole.
proof fn lemma_replace_step_match(u: Seq<u8>, p: Seq<u8>, q: Seq<u8>)
    requires
        p.len() > 0,
        occurs_at(u, p, 0),
    ensures
        spec_replace_all(u, p, q) == q + spec_replace_all(
            u.subrange(p.len() as int, u.len() as int),
            p,
            q,
        ),
{
}

/// Unfolding step: with no match at the head, the first byte is kept.
proof fn lemma_replace_step_byte(u: Seq<u8>, p: Seq<u8>, q: Seq<u8>)
    requires
        p.len() > 0,
        u.len() > 0,
        !occurs_at(u, p, 0),
    ensures
        spec_replace_all(u, p, q) == seq![u[0]] + spec_replace_all(u.drop_first(), p, q),
{
    if u.len() < p.len() {
        assert(u.drop_first().len() < p.len());
        assert(seq![u[0]] + u.drop_first() =~= u);
    } else {
        assert(u.subrange(0, p.len() as int) != p);
    }
}

/// Split `s` on every occurrence of the separator, scanning left to
/// right.
pub fn split_bytes(s: &Vec<u8>, sep: &Vec<u8>) -> (r: Vec<Vec<u8>>)
    ensures
        r@.map_values(|v: Vec<u8>| v@) == spec_split(s@, sep@),
{
    if sep.len() == 0 || s.len() < sep.len() {
        let mut whole: Vec<u8> = Vec::new();
        push_range(&mut whole, s, 0, s.len());
        assert(whole@ =~= s@);
        let mut out: Vec<Vec<u8>> = Vec::new();
        out.push(whole);
        assert(out@.map_values(|v: Vec<u8>| v@) =~= seq![s@]);
        return out;
    }
    let mut out: Vec<Vec<u8>> = Vec::new();
    let mut cur: Vec<u8> = Vec::new();
    let mut i: usize = 0;
    proof {
        lemma_split_nonempty(s@.skip(0), sep@);
        assert(s@.skip(0) =~= s@);
        let sp = spec_split(s@, sep@);
        assert(Seq::<Seq<u8>>::empty() + seq![Seq::<u8>::empty() + sp[0]] + sp.drop_first() =~~= sp);
    }
    while i < s.len()
        invariant
            0 < sep@.len() <= s@.len(),
            i <= s.len(),
            out@.map_values(|v: Vec<u8>| v@) + seq![cur@ + spec_split(s@.skip(i as int), sep@)[0]]
                + spec_split(s@.skip(i as int), sep@).drop_first() == spec_split(s@, sep@),
        decreases s.len() - i,
    {
        let ghost out_mv = out@.map_values(|v: Vec<u8>| v@);
        let ghost u = s@.skip(i as int);
        let ghost sp = spec_split(u, sep@);
        if is_match_at(s, sep, i) {
            proof {
                assert(u.subrange(0, sep@.len() as int) =~= s@.subrange(i as int, i + sep@.len()));
                assert(u.subrange(sep@.len() as int, u.len() as int) =~= s@.skip(i + sep@.len()));
                let spn = spec_split(s@.skip(i + sep@.len()), sep@);
                lemma_split_nonempty(s@.skip(i + sep@.len()), sep@);
                assert(sp == seq![Seq::<u8>::empty()] + spn);
                assert(sp[0] == Seq::<u8>::empty());
                assert(cur@ + sp[0] =~= cur@);
                assert(sp.drop_first() =~= spn);
            }
            let ghost cur_snap = cur@;
            out.push(cur);
            cur = Vec::new();
            i += sep.len();
            proof {
                let spn = spec_split(s@.skip(i as int), sep@);
                assert(out@.map_values(|v: Vec<u8>| v@) =~= out_mv + seq![cur_snap]);
                assert(out_mv + seq![cur_snap + sp[0]] + sp.drop_first() =~~= (out_mv + seq![
                    cur_snap,
                ]) + seq![cur@ + spn[0]] + spn.drop_first());
            }
        } else {
            proof {
                assert(!occurs_at(u, sep@, 0)) by {
                    if occurs_at(u, sep@, 0) {
                        assert(u.subrange(0, sep@.len() as int) =~= s@.subrange(
                            i as int,
                            i + sep@.len(),
                        ));
                    }
                }
                assert(u.drop_first() =~= s@.skip(i + 1));
                assert(u[0] == s@[i as int]);
                if u.len() < sep@.len() {
                    // the tail is shorter than the separator: both splits are
                    // whole-string parts
                    assert(sp == seq![u]);
                    assert(spec_split(s@.skip(i + 1), sep@) == seq![u.drop_first()]);
                    assert(cur@.push(s@[i as int]) + u.drop_first() =~= cur@ + u);
                } else {
                    let rest = spec_split(u.drop_first(), sep@);
                    lemma_split_nonempty(u.drop_first(), sep@);
                    assert(u.subrange(0, sep@.len() as int) != sep@);
                    assert(sp == seq![seq![u[0]] + rest[0]] + rest.drop_first());
                    assert(sp[0] == seq![u[0]] + rest[0]);
                    assert(sp.drop_first() =~= rest.drop_first());
                    assert(cur@.push(s@[i as int]) + rest[0] =~= cur@ + sp[0]);
                }
            }
            cur.push(s[i]);
            i += 1;
            proof {
                let spn = spec_split(s@.skip(i as int), sep@);
                assert(out_mv + seq![cur@ + spn[0]] + spn.drop_first() =~~= out_mv + seq![
                    cur@.drop_last() + sp[0],
                ] + sp.drop_first());
            }
        }
    }
    proof {
        assert(s@.skip(i as int) =~= Seq::<u8>::empty());
        let sp = spec_split(Seq::<u8>::empty(), sep@);
        assert(sp == seq![Seq::<u8>::empty()]);
        assert(cur@ + sp[0] =~= cur@);
        assert(sp.drop_first() =~= Seq::<Seq<u8>>::empty());
    }
    let ghost out_mv = out@.map_values(|v: Vec<u8>| v@);
    let ghost cur_snap = cur@;
    out.push(cur);
    proof {
        assert(out@.map_values(|v: Vec<u8>| v@) =~= out_mv + seq![cur_snap]);
        assert(out_mv + seq![cur_snap] =~~= out_mv + seq![
            cur_snap + spec_split(Seq::<u8>::empty(), sep@)[0],
        ] + spec_split(Seq::<u8>::empty(), sep@).drop_first());
    }
    out
}

/// Replace every occurrence of `p` in `s` by `q`, scanning left to right.
pub fn replace_all(s: &Vec<u8>, p: &Vec<u8>, q: &Vec<u8>) -> (r: Vec<u8>)
    ensures
        r@ == spec_replace_all(s@, p@, q@),
{
    if p.len() == 0 {
        let mut out: Vec<u8> = Vec::new();
        push_range(&mut out, s, 0, s.len());
        assert(out@ =~= s@);
        return out;
    }
    let mut out: Vec<u8> = Vec::new();
    let mut i: usize = 0;
    proof {
        assert(s@.subrange(0, s@.len() as int) =~= s@);
    }
    while i < s.len()
        invariant
            p@.len() > 0,
            i <= s.len(),
            out@ + spec_replace_all(s@.subrange(i as int, s@.len() as int), p@, q@)
                == spec_replace_all(s@, p@, q@),
        decreases s.len() - i,
    {
        let ghost u = s@.subrange(i as int, s@.len() as int);
        if is_match_at(s, p, i) {
            push_range(&mut out, q, 0, q.len());
            proof {
                assert(u.subrange(0, p@.len() as int) =~= s@.subrange(i as int, i + p@.len()));
                assert(occurs_at(u, p@, 0));
                lemma_replace_step_match(u, p@, q@);
                assert(u.subrange(p@.len() as int, u.len() as int) =~= s@.subrange(
                    i + p@.len(),
                    s@.len() as int,
                ));
                assert(q@.subrange(0, q@.len() as int) =~= q@);
            }
            i += p.len();
        } else {
            out.push(s[i]);
            proof {
                assert(u.len() > 0);
                assert(!occurs_at(u, p@, 0)) by {
                    if occurs_at(u, p@, 0) {
                        assert(u.subrange(0, p@.len() as int) =~= s@.subrange(
                            i as int,
                            i + p@.len(),
                        ));
                    }
                }
                lemma_replace_step_byte(u, p@, q@);
                assert(u.drop_first() =~= s@.subrange(i + 1, s@.len() as int));
                assert(u[0] == s@[i as int]);
            }
            i += 1;
        }
    }
    proof {
        assert(s@.subrange(i as int, s@.len() as int) =~= Seq::<u8>::empty());
        assert(spec_replace_all(Seq::<u8>::empty(), p@, q@) == Seq::<u8>::empty());
        assert(out@ + Seq::<u8>::empty() =~= out@);
    }
    out
}

} // verus!
