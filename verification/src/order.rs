//! Fractional order keys: strings compared character by character, with room
//! to make a new key after any key and between most pairs of keys.

use vstd::prelude::*;
use vstd::string::*;

verus! {

/// `a` sorts strictly before `b`: at the first place where they differ `a` has
/// the smaller character, or `a` ends there and `b` goes on.
pub open spec fn key_lt(a: Seq<char>, b: Seq<char>) -> bool
    decreases a.len(),
{
    if b.len() == 0 {
        false
    } else if a.len() == 0 {
        true
    } else if a[0] != b[0] {
        (a[0] as int) < (b[0] as int)
    } else {
        key_lt(a.skip(1), b.skip(1))
    }
}

/// `p` is the beginning of `s` (or all of it).
pub open spec fn is_prefix(p: Seq<char>, s: Seq<char>) -> bool {
    p.len() <= s.len() && s.take(p.len() as int) == p
}

/// No key sorts before itself.
pub proof fn lemma_key_lt_irreflexive(a: Seq<char>)
    ensures
        !key_lt(a, a),
    decreases a.len(),
{
    if a.len() > 0 {
        lemma_key_lt_irreflexive(a.skip(1));
    }
}

/// `key_lt` is transitive.
pub proof fn lemma_key_lt_transitive(a: Seq<char>, b: Seq<char>, c: Seq<char>)
    requires
        key_lt(a, b),
        key_lt(b, c),
    ensures
        key_lt(a, c),
    decreases a.len(),
{
    if a.len() > 0 && a[0] == b[0] && b[0] == c[0] {
        lemma_key_lt_transitive(a.skip(1), b.skip(1), c.skip(1));
    }
}

/// Of two keys one sorts before the other, or they are the same key.
pub proof fn lemma_key_lt_total(a: Seq<char>, b: Seq<char>)
    ensures
        key_lt(a, b) || key_lt(b, a) || a == b,
    decreases a.len(),
{
    if a.len() == 0 || b.len() == 0 {
        if a.len() == 0 && b.len() == 0 {
            assert(a =~= b);
        }
    } else if a[0] == b[0] {
        lemma_key_lt_total(a.skip(1), b.skip(1));
        if a.skip(1) == b.skip(1) {
            assert(a =~= seq![a[0]] + a.skip(1));
            assert(b =~= seq![b[0]] + b.skip(1));
        }
    } else {
        assert((a[0] as int) != (b[0] as int));
    }
}

/// Two keys never sort before each other.
pub proof fn lemma_key_lt_asymmetric(a: Seq<char>, b: Seq<char>)
    requires
        key_lt(a, b),
    ensures
        !key_lt(b, a),
{
    if key_lt(b, a) {
        lemma_key_lt_transitive(a, b, a);
        lemma_key_lt_irreflexive(a);
    }
}

/// A key sorts before every longer key that begins with it.
pub proof fn lemma_key_lt_extended(a: Seq<char>, s: Seq<char>)
    requires
        s.len() > 0,
    ensures
        key_lt(a, a + s),
    decreases a.len(),
{
    if a.len() > 0 {
        assert((a + s).skip(1) =~= a.skip(1) + s);
        lemma_key_lt_extended(a.skip(1), s);
    }
}

/// Two keys that agree on their first `k` characters compare as what follows.
pub proof fn lemma_key_lt_skip(a: Seq<char>, b: Seq<char>, k: int)
    requires
        0 <= k <= a.len(),
        k <= b.len(),
        a.take(k) == b.take(k),
    ensures
        key_lt(a, b) == key_lt(a.skip(k), b.skip(k)),
    decreases k,
{
    if k == 0 {
        assert(a.skip(0) =~= a);
        assert(b.skip(0) =~= b);
    } else {
        assert(a[0] == a.take(k)[0]);
        assert(b[0] == b.take(k)[0]);
        assert(a.skip(1).take(k - 1) =~= a.take(k).skip(1));
        assert(b.skip(1).take(k - 1) =~= b.take(k).skip(1));
        lemma_key_lt_skip(a.skip(1), b.skip(1), k - 1);
        assert(a.skip(1).skip(k - 1) =~= a.skip(k));
        assert(b.skip(1).skip(k - 1) =~= b.skip(k));
    }
}

/// A key that sorts before `hi` without being its beginning still sorts before
/// `hi` when characters are added at its end.
pub proof fn lemma_key_lt_extend_left(p: Seq<char>, s: Seq<char>, hi: Seq<char>)
    requires
        key_lt(p, hi),
        !is_prefix(p, hi),
    ensures
        key_lt(p + s, hi),
    decreases p.len(),
{
    if p.len() == 0 {
        assert(hi.take(0) =~= p);
    } else if p[0] != hi[0] {
        assert((p + s)[0] == p[0]);
    } else {
        assert((p + s).skip(1) =~= p.skip(1) + s);
        assert((p + s)[0] == p[0]);
        if is_prefix(p.skip(1), hi.skip(1)) {
            assert(hi.take(p.len() as int) =~= seq![hi[0]] + hi.skip(1).take(p.len() - 1));
            assert(p =~= seq![p[0]] + p.skip(1));
        }
        lemma_key_lt_extend_left(p.skip(1), s, hi.skip(1));
    }
}

/// The first index at or after `from` where `s` holds a character greater
/// than `'a'`; the length of `s` if there is none.
pub open spec fn first_above_a(s: Seq<char>, from: int) -> int
    decreases s.len() - from,
{
    if from < 0 || from >= s.len() {
        s.len() as int
    } else if (s[from] as int) > ('a' as int) {
        from
    } else {
        first_above_a(s, from + 1)
    }
}

/// The key that [`key_between`] makes between `lo` and `hi`, if it makes one.
///
/// Where `lo` is not the beginning of `hi`, the key is `lo` followed by `n`.
/// Where it is, the key is `hi` up to its first character greater than `a`
/// behind `lo`, followed by `an`; there is no key if `hi` holds no such
/// character.
pub open spec fn spec_key_between(lo: Seq<char>, hi: Seq<char>) -> Option<Seq<char>> {
    if !is_prefix(lo, hi) {
        Some(lo + seq!['n'])
    } else {
        let j = first_above_a(hi, lo.len() as int);
        if j >= hi.len() {
            None
        } else {
            Some(hi.take(j) + seq!['a', 'n'])
        }
    }
}

proof fn lemma_first_above_a(s: Seq<char>, from: int)
    requires
        0 <= from <= s.len(),
    ensures
        from <= first_above_a(s, from) <= s.len(),
        first_above_a(s, from) < s.len() ==> (s[first_above_a(s, from)] as int) > ('a' as int),
    decreases s.len() - from,
{
    if from < s.len() && !((s[from] as int) > ('a' as int)) {
        lemma_first_above_a(s, from + 1);
    }
}

/// The key made between `lo` and `hi` sorts strictly between them, whenever
/// `lo` sorts before `hi` or is the beginning of it.
pub proof fn lemma_key_between(lo: Seq<char>, hi: Seq<char>)
    requires
        key_lt(lo, hi) || is_prefix(lo, hi),
        spec_key_between(lo, hi) is Some,
    ensures
        key_lt(lo, spec_key_between(lo, hi)->Some_0),
        key_lt(spec_key_between(lo, hi)->Some_0, hi),
{
    let r = spec_key_between(lo, hi)->Some_0;
    if !is_prefix(lo, hi) {
        lemma_key_lt_extended(lo, seq!['n']);
        lemma_key_lt_extend_left(lo, seq!['n'], hi);
    } else {
        let j = first_above_a(hi, lo.len() as int);
        lemma_first_above_a(hi, lo.len() as int);
        let tail = hi.take(j).skip(lo.len() as int) + seq!['a', 'n'];
        assert(hi.take(j).take(lo.len() as int) =~= hi.take(lo.len() as int));
        assert(r =~= lo + tail);
        lemma_key_lt_extended(lo, tail);
        assert(r.take(j) =~= hi.take(j));
        lemma_key_lt_skip(r, hi, j);
        assert(r.skip(j) =~= seq!['a', 'n']);
        assert(hi.skip(j)[0] == hi[j]);
    }
}

/// Whether `a` sorts strictly before `b`.
pub fn order_lt(a: &String, b: &String) -> (r: bool)
    ensures
        r == key_lt(a@, b@),
{
    let la: usize = a.as_str().unicode_len();
    let lb: usize = b.as_str().unicode_len();
    let mut i: usize = 0;
    while i < la && i < lb
        invariant
            la == a@.len(),
            lb == b@.len(),
            i <= la,
            i <= lb,
            a@.take(i as int) == b@.take(i as int),
        decreases la - i,
    {
        let ca: char = a.as_str().get_char(i);
        let cb: char = b.as_str().get_char(i);
        if ca != cb {
            proof {
                lemma_key_lt_skip(a@, b@, i as int);
                assert(a@.skip(i as int)[0] == ca);
                assert(b@.skip(i as int)[0] == cb);
            }
            return ca < cb;
        }
        proof {
            assert(a@.take(i + 1) =~= a@.take(i as int).push(ca));
            assert(b@.take(i + 1) =~= b@.take(i as int).push(cb));
        }
        i += 1;
    }
    proof {
        lemma_key_lt_skip(a@, b@, i as int);
    }
    i < lb
}

/// Whether `p` is the beginning of `s`.
pub fn starts_with(s: &String, p: &String) -> (r: bool)
    ensures
        r == is_prefix(p@, s@),
{
    let lp: usize = p.as_str().unicode_len();
    let ls: usize = s.as_str().unicode_len();
    if lp > ls {
        return false;
    }
    let mut i: usize = 0;
    while i < lp
        invariant
            lp == p@.len(),
            ls == s@.len(),
            lp <= ls,
            i <= lp,
            s@.take(i as int) == p@.take(i as int),
        decreases lp - i,
    {
        let cp: char = p.as_str().get_char(i);
        let cs: char = s.as_str().get_char(i);
        if cp != cs {
            assert(s@.take(lp as int)[i as int] != p@[i as int]);
            return false;
        }
        proof {
            assert(s@.take(i + 1) =~= s@.take(i as int).push(cs));
            assert(p@.take(i + 1) =~= p@.take(i as int).push(cp));
        }
        i += 1;
    }
    assert(p@.take(lp as int) =~= p@);
    true
}

/// The key of the first sheet of an empty grid.
pub fn first_key() -> (r: String)
    ensures
        r@ == seq!['n'],
{
    proof {
        reveal_strlit("n");
    }
    let r = "n".to_owned();
    assert(r@ =~= seq!['n']);
    r
}

/// A key that sorts after `a`: `a` followed by `n`.
pub fn key_after(a: &String) -> (r: String)
    ensures
        r@ == a@ + seq!['n'],
        key_lt(a@, r@),
{
    let mut r: String = a.clone();
    proof {
        reveal_strlit("n");
        lemma_key_lt_extended(a@, seq!['n']);
    }
    r.append("n");
    assert(r@ =~= a@ + seq!['n']);
    r
}

/// A key that sorts between `lo` and `hi`, where this scheme has one.
pub fn key_between(lo: &String, hi: &String) -> (r: Option<String>)
    ensures
        r is Some <==> spec_key_between(lo@, hi@) is Some,
        r is Some ==> r->Some_0@ == spec_key_between(lo@, hi@)->Some_0,
{
    if !starts_with(hi, lo) {
        let mut k: String = lo.clone();
        proof {
            reveal_strlit("n");
        }
        k.append("n");
        assert(k@ =~= lo@ + seq!['n']);
        return Some(k);
    }
    let lh: usize = hi.as_str().unicode_len();
    let mut j: usize = lo.as_str().unicode_len();
    while j < lh && !(hi.as_str().get_char(j) > 'a')
        invariant
            lh == hi@.len(),
            lo@.len() <= j <= lh,
            first_above_a(hi@, lo@.len() as int) == first_above_a(hi@, j as int),
        decreases lh - j,
    {
        j += 1;
    }
    if j >= lh {
        return None;
    }
    let head: &str = hi.as_str().substring_char(0, j);
    let mut k: String = head.to_owned();
    proof {
        reveal_strlit("an");
    }
    k.append("an");
    assert(k@ =~= hi@.take(j as int) + seq!['a', 'n']);
    Some(k)
}

} // verus!
