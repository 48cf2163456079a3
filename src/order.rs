use vstd::prelude::*;
use vstd::string::StrSliceExecFns;

verus! {

/// `a` sorts before `b`, comparing from position `i` on, character by
/// character by code point; a proper prefix sorts first.
pub open spec fn text_lt_from(a: Seq<char>, b: Seq<char>, i: int) -> bool
    decreases a.len() - i,
{
    if i < 0 {
        false
    } else if i >= a.len() {
        i < b.len()
    } else if i >= b.len() {
        false
    } else if a[i] != b[i] {
        (a[i] as u32) < (b[i] as u32)
    } else {
        text_lt_from(a, b, i + 1)
    }
}

/// `a` sorts before `b` in the order of `String`'s `Ord`.
pub open spec fn text_lt(a: Seq<char>, b: Seq<char>) -> bool {
    text_lt_from(a, b, 0)
}

/// Every text of `ks` sorts before every later one: ascending, no repeats.
pub open spec fn ascending(ks: Seq<Seq<char>>) -> bool {
    forall|i: int, j: int| 0 <= i < j < ks.len() ==> text_lt(#[trigger] ks[i], #[trigger] ks[j])
}

/// The keys of a list of pairs.
pub open spec fn keys_of<V>(s: Seq<(String, V)>) -> Seq<Seq<char>> {
    Seq::new(s.len(), |i: int| s[i].0@)
}

/// The list holds the pair `k: x`.
pub open spec fn entry_in<V>(s: Seq<(String, V)>, k: Seq<char>, x: V) -> bool {
    exists|i: int| 0 <= i < s.len() && #[trigger] s[i].0@ == k && s[i].1 == x
}

proof fn lemma_lt_from_irreflexive(a: Seq<char>, i: int)
    requires
        i >= 0,
    ensures
        !text_lt_from(a, a, i),
    decreases a.len() - i,
{
    if i < a.len() {
        lemma_lt_from_irreflexive(a, i + 1);
    }
}

proof fn lemma_lt_from_transitive(a: Seq<char>, b: Seq<char>, c: Seq<char>, i: int)
    requires
        i >= 0,
        text_lt_from(a, b, i),
        text_lt_from(b, c, i),
    ensures
        text_lt_from(a, c, i),
    decreases a.len() - i,
{
    if i < a.len() && i < b.len() && i < c.len() && a[i] == b[i] && b[i] == c[i] {
        lemma_lt_from_transitive(a, b, c, i + 1);
    }
}

proof fn lemma_lt_from_total(a: Seq<char>, b: Seq<char>, i: int)
    requires
        0 <= i <= a.len(),
        i <= b.len(),
        a.take(i) == b.take(i),
    ensures
        text_lt_from(a, b, i) || text_lt_from(b, a, i) || a == b,
    decreases a.len() - i,
{
    if i == a.len() && i == b.len() {
        assert(a =~= a.take(i));
        assert(b =~= b.take(i));
    } else if i < a.len() && i < b.len() && a[i] == b[i] {
        assert(a.take(i + 1) =~= a.take(i).push(a[i]));
        assert(b.take(i + 1) =~= b.take(i).push(b[i]));
        lemma_lt_from_total(a, b, i + 1);
    } else if i < a.len() && i < b.len() {
        let x = a[i] as u32;
        let y = b[i] as u32;
        vstd::utf8::char_u32_cast(a[i], x);
        vstd::utf8::char_u32_cast(b[i], y);
        assert(x != y);
    }
}

/// The order is strict, transitive and total.
pub proof fn lemma_text_order(a: Seq<char>, b: Seq<char>, c: Seq<char>)
    ensures
        !text_lt(a, a),
        text_lt(a, b) && text_lt(b, c) ==> text_lt(a, c),
        text_lt(a, b) ==> !text_lt(b, a),
        text_lt(a, b) || text_lt(b, a) || a == b,
{
    lemma_lt_from_irreflexive(a, 0);
    if text_lt(a, b) && text_lt(b, c) {
        lemma_lt_from_transitive(a, b, c, 0);
    }
    if text_lt(a, b) && text_lt(b, a) {
        lemma_lt_from_transitive(a, b, a, 0);
    }
    assert(a.take(0) =~= b.take(0));
    lemma_lt_from_total(a, b, 0);
}

/// Whether `a` sorts before `b`.
pub fn text_less(a: &str, b: &str) -> (r: bool)
    ensures
        r == text_lt(a@, b@),
{
    let la = a.unicode_len();
    let lb = b.unicode_len();
    let mut i: usize = 0;
    while i < la && i < lb
        invariant
            la == a@.len(),
            lb == b@.len(),
            i <= la,
            i <= lb,
            text_lt_from(a@, b@, 0) == text_lt_from(a@, b@, i as int),
        decreases la - i,
    {
        let x = a.get_char(i);
        let y = b.get_char(i);
        if x != y {
            return (x as u32) < (y as u32);
        }
        i = i + 1;
    }
    i < lb
}

/// Puts `key: val` into a list kept in ascending key order: the value of an
/// existing `key` is replaced, else the pair is inserted at its place.
pub fn insert_sorted<V>(v: &mut Vec<(String, V)>, key: String, val: V)
    requires
        ascending(keys_of(old(v)@)),
    ensures
        ascending(keys_of(final(v)@)),
        forall|k: Seq<char>, x: V|
            #![trigger entry_in(final(v)@, k, x)]
            entry_in(final(v)@, k, x) <==> if k == key@ {
                x == val
            } else {
                entry_in(old(v)@, k, x)
            },
        final(v)@.len() <= old(v)@.len() + 1,
{
    let ghost old_v = v@;
    let ghost ks = keys_of(old_v);
    let mut p: usize = 0;
    while p < v.len() && text_less(v[p].0.as_str(), key.as_str())
        invariant
            v@ == old_v,
            ks == keys_of(old_v),
            p <= v@.len(),
            forall|i: int| 0 <= i < p ==> text_lt(#[trigger] ks[i], key@),
        decreases v.len() - p,
    {
        p = p + 1;
    }
    proof {
        assert forall|i: int| 0 <= i < old_v.len() && i != p implies #[trigger] ks[i] != key@ by {
            lemma_text_order(ks[i], key@, key@);
            if i > p {
                lemma_text_order(ks[p as int], ks[i], key@);
                lemma_text_order(key@, ks[p as int], ks[i]);
                lemma_text_order(ks[i], ks[p as int], key@);
            }
        }
    }
    if p < v.len() && crate::json::text_eq(v[p].0.as_str(), key.as_str()) {
        v.set(p, (key, val));
        proof {
            assert(keys_of(v@) =~= ks);
            assert forall|k: Seq<char>, x: V| #![trigger entry_in(v@, k, x)]
                entry_in(v@, k, x) <==> if k == key@ { x == val } else { entry_in(old_v, k, x) } by {
                if entry_in(v@, k, x) {
                    let i = choose|i: int| 0 <= i < v@.len() && #[trigger] v@[i].0@ == k && v@[i].1 == x;
                    if i != p {
                        assert(old_v[i] == v@[i]);
                        assert(ks[i] == k);
                    }
                }
                if k == key@ && x == val {
                    assert(v@[p as int].0@ == k);
                }
                if k != key@ && entry_in(old_v, k, x) {
                    let i = choose|i: int| 0 <= i < old_v.len() && #[trigger] old_v[i].0@ == k && old_v[i].1 == x;
                    assert(ks[i] == k);
                    assert(v@[i] == old_v[i]);
                }
            }
        }
    } else {
        proof {
            if p < old_v.len() {
                lemma_text_order(ks[p as int], key@, key@);
            }
        }
        v.insert(p, (key, val));
        proof {
            let nk = keys_of(v@);
            assert(nk =~= ks.insert(p as int, key@));
            assert forall|i: int, j: int| 0 <= i < j < nk.len() implies text_lt(#[trigger] nk[i], #[trigger] nk[j]) by {
                if j == p {
                    assert(nk[i] == ks[i]);
                } else if i == p {
                    assert(nk[j] == ks[j - 1]);
                    if j - 1 > p {
                        lemma_text_order(key@, ks[p as int], ks[j - 1]);
                    }
                } else if i < p && j > p {
                    lemma_text_order(ks[i], key@, ks[j - 1]);
                    if j - 1 > p {
                        lemma_text_order(key@, ks[p as int], ks[j - 1]);
                    }
                    lemma_text_order(ks[i], key@, ks[j - 1]);
                } else if i < p {
                    assert(nk[i] == ks[i] && nk[j] == ks[j]);
                } else {
                    assert(nk[i] == ks[i - 1] && nk[j] == ks[j - 1]);
                }
            }
            assert forall|k: Seq<char>, x: V| #![trigger entry_in(v@, k, x)]
                entry_in(v@, k, x) <==> if k == key@ { x == val } else { entry_in(old_v, k, x) } by {
                if entry_in(v@, k, x) {
                    let i = choose|i: int| 0 <= i < v@.len() && #[trigger] v@[i].0@ == k && v@[i].1 == x;
                    if i < p {
                        assert(v@[i] == old_v[i]);
                        assert(ks[i] == k);
                    } else if i > p {
                        assert(v@[i] == old_v[i - 1]);
                        assert(ks[i - 1] == k);
                    }
                }
                if k == key@ && x == val {
                    assert(v@[p as int].0@ == k);
                }
                if k != key@ && entry_in(old_v, k, x) {
                    let i = choose|i: int| 0 <= i < old_v.len() && #[trigger] old_v[i].0@ == k && old_v[i].1 == x;
                    if i < p {
                        assert(v@[i] == old_v[i]);
                    } else {
                        assert(v@[i + 1] == old_v[i]);
                    }
                }
            }
        }
    }
}

} // verus!
