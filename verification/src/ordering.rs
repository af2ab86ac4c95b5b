//! A canonical order for named parameters.
//!
//! Parameters are `(key, value)` pairs of strings.  They are ordered
//! lexicographically by key (comparing Unicode code points) and, between
//! pairs with equal keys, by value.  This is a total order, so sorting a
//! collection of pairs by it yields the same sequence for every permutation
//! of the collection — the property the signer needs for a canonical
//! serialization.

use vstd::prelude::*;
use vstd::relations::{antisymmetric, reflexive, sorted_by, strongly_connected, total_ordering,
    transitive};
use vstd::seq_lib::lemma_sorted_unique;

verus! {

/// The view of one parameter: the key's characters and the value's characters.
pub type PairView = (Seq<char>, Seq<char>);

/// The views of a sequence of owned parameter pairs.
pub open spec fn pair_views(s: Seq<(String, String)>) -> Seq<PairView> {
    s.map_values(|p: (String, String)| (p.0@, p.1@))
}

/// Lexicographic order on character sequences, comparing Unicode code points.
pub open spec fn lex_le(a: Seq<char>, b: Seq<char>) -> bool
    decreases a.len(),
{
    if a.len() == 0 {
        true
    } else if b.len() == 0 {
        false
    } else if (a[0] as u32) < (b[0] as u32) {
        true
    } else if (b[0] as u32) < (a[0] as u32) {
        false
    } else {
        lex_le(a.drop_first(), b.drop_first())
    }
}

/// Order on parameter pairs: by key, then by value.
pub open spec fn pair_le(p: PairView, q: PairView) -> bool {
    if p.0 == q.0 {
        lex_le(p.1, q.1)
    } else {
        lex_le(p.0, q.0)
    }
}

/// The pair order as a first-class relation, for use with `sort_by`.
pub open spec fn pair_order() -> spec_fn(PairView, PairView) -> bool {
    |p: PairView, q: PairView| pair_le(p, q)
}

pub proof fn lemma_lex_le_refl(a: Seq<char>)
    ensures
        lex_le(a, a),
    decreases a.len(),
{
    if a.len() > 0 {
        lemma_lex_le_refl(a.drop_first());
    }
}

pub proof fn lemma_lex_le_antisym(a: Seq<char>, b: Seq<char>)
    requires
        lex_le(a, b),
        lex_le(b, a),
    ensures
        a == b,
    decreases a.len(),
{
    if a.len() == 0 {
        assert(b.len() == 0);
        assert(a =~= b);
    } else {
        assert(b.len() > 0);
        assert((a[0] as u32) == (b[0] as u32));
        vstd::utf8::char_u32_cast(a[0], a[0] as u32);
        vstd::utf8::char_u32_cast(b[0], a[0] as u32);
        assert(a[0] == b[0]);
        lemma_lex_le_antisym(a.drop_first(), b.drop_first());
        assert(a.drop_first() == b.drop_first());
        assert(a.drop_first().len() == a.len() - 1);
        assert(b.drop_first().len() == b.len() - 1);
        assert(a.len() == b.len());
        assert forall|i: int| 0 <= i < a.len() implies a[i] == b[i] by {
            if i > 0 {
                assert(a[i] == a.drop_first()[i - 1]);
                assert(b[i] == b.drop_first()[i - 1]);
            }
        }
        assert(a =~= b);
    }
}

pub proof fn lemma_lex_le_trans(a: Seq<char>, b: Seq<char>, c: Seq<char>)
    requires
        lex_le(a, b),
        lex_le(b, c),
    ensures
        lex_le(a, c),
    decreases a.len(),
{
    if a.len() > 0 {
        assert(b.len() > 0);
        assert(c.len() > 0);
        if (a[0] as u32) == (b[0] as u32) && (b[0] as u32) == (c[0] as u32) {
            lemma_lex_le_trans(a.drop_first(), b.drop_first(), c.drop_first());
        }
    }
}

pub proof fn lemma_lex_le_connected(a: Seq<char>, b: Seq<char>)
    ensures
        lex_le(a, b) || lex_le(b, a),
    decreases a.len(),
{
    if a.len() > 0 && b.len() > 0 {
        lemma_lex_le_connected(a.drop_first(), b.drop_first());
    }
}

pub proof fn lemma_pair_le_refl(p: PairView)
    ensures
        pair_le(p, p),
{
    lemma_lex_le_refl(p.1);
}

pub proof fn lemma_pair_le_antisym(p: PairView, q: PairView)
    requires
        pair_le(p, q),
        pair_le(q, p),
    ensures
        p == q,
{
    if p.0 == q.0 {
        lemma_lex_le_antisym(p.1, q.1);
    } else {
        lemma_lex_le_antisym(p.0, q.0);
    }
}

pub proof fn lemma_pair_le_trans(p: PairView, q: PairView, r: PairView)
    requires
        pair_le(p, q),
        pair_le(q, r),
    ensures
        pair_le(p, r),
{
    if p.0 == q.0 && q.0 == r.0 {
        lemma_lex_le_trans(p.1, q.1, r.1);
    } else if p.0 == q.0 {
        // p and q share a key, q's key is strictly below r's
    } else if q.0 == r.0 {
        // q and r share a key, p's key is strictly below q's
    } else {
        lemma_lex_le_trans(p.0, q.0, r.0);
        if p.0 == r.0 {
            lemma_lex_le_antisym(p.0, q.0);
        }
    }
}

pub proof fn lemma_pair_le_connected(p: PairView, q: PairView)
    ensures
        pair_le(p, q) || pair_le(q, p),
{
    if p.0 == q.0 {
        lemma_lex_le_connected(p.1, q.1);
    } else {
        lemma_lex_le_connected(p.0, q.0);
    }
}

/// The pair order is a total order, so `sort_by(pair_order())` is canonical.
pub proof fn lemma_pair_order_total()
    ensures
        total_ordering(pair_order()),
{
    let leq = pair_order();
    assert forall|p: PairView| #[trigger] leq(p, p) by {
        lemma_pair_le_refl(p);
    }
    assert(reflexive(leq));
    assert forall|p: PairView, q: PairView| #[trigger] leq(p, q) && #[trigger] leq(q, p)
        implies p == q by {
        lemma_pair_le_antisym(p, q);
    }
    assert(antisymmetric(leq));
    assert forall|p: PairView, q: PairView, r: PairView|
        #[trigger] leq(p, q) && #[trigger] leq(q, r) implies leq(p, r) by {
        lemma_pair_le_trans(p, q, r);
    }
    assert(transitive(leq));
    assert forall|p: PairView, q: PairView| #[trigger] leq(p, q) || #[trigger] leq(q, p) by {
        lemma_pair_le_connected(p, q);
    }
    assert(strongly_connected(leq));
}

/// Two sequences of pairs with the same elements sort to the same sequence.
pub proof fn lemma_sort_canonical(a: Seq<PairView>, b: Seq<PairView>)
    requires
        a.to_multiset() == b.to_multiset(),
    ensures
        a.sort_by(pair_order()) == b.sort_by(pair_order()),
{
    lemma_pair_order_total();
    a.lemma_sort_by_ensures(pair_order());
    b.lemma_sort_by_ensures(pair_order());
    lemma_sorted_unique(a.sort_by(pair_order()), b.sort_by(pair_order()), pair_order());
}

/// Whether `a` is lexicographically at most `b`, by Unicode code point.
pub fn lex_le_exec(a: &str, b: &str) -> (r: bool)
    ensures
        r == lex_le(a@, b@),
{
    let a_len = a.unicode_len();
    let b_len = b.unicode_len();
    let mut i: usize = 0;
    proof {
        assert(a@.skip(0) =~= a@);
        assert(b@.skip(0) =~= b@);
    }
    loop
        invariant
            i <= a_len,
            i <= b_len,
            a_len == a@.len(),
            b_len == b@.len(),
            lex_le(a@, b@) == lex_le(a@.skip(i as int), b@.skip(i as int)),
        decreases a_len - i,
    {
        if i == a_len {
            assert(a@.skip(i as int).len() == 0);
            return true;
        }
        if i == b_len {
            assert(b@.skip(i as int).len() == 0);
            assert(a@.skip(i as int).len() > 0);
            return false;
        }
        let ca = a.get_char(i);
        let cb = b.get_char(i);
        assert(a@.skip(i as int)[0] == a@[i as int]);
        assert(b@.skip(i as int)[0] == b@[i as int]);
        if (ca as u32) < (cb as u32) {
            return true;
        }
        if (cb as u32) < (ca as u32) {
            return false;
        }
        proof {
            assert(a@.skip(i as int).drop_first() =~= a@.skip(i as int + 1));
            assert(b@.skip(i as int).drop_first() =~= b@.skip(i as int + 1));
        }
        i = i + 1;
    }
}

/// Whether the pair `a` comes no later than `b` in the canonical order.
pub fn pair_le_exec(a: &(String, String), b: &(String, String)) -> (r: bool)
    ensures
        r == pair_le((a.0@, a.1@), (b.0@, b.1@)),
{
    let key_le = lex_le_exec(a.0.as_str(), b.0.as_str());
    let key_ge = lex_le_exec(b.0.as_str(), a.0.as_str());
    if key_le && key_ge {
        proof {
            lemma_lex_le_antisym(a.0@, b.0@);
        }
        lex_le_exec(a.1.as_str(), b.1.as_str())
    } else {
        proof {
            if a.0@ == b.0@ {
                lemma_lex_le_refl(a.0@);
            }
        }
        key_le
    }
}

/// The position in the sorted vector `out` at which a pair viewed as `x`
/// can be inserted without disturbing the order.
fn insertion_index(out: &Vec<(String, String)>, x: &(String, String)) -> (j: usize)
    requires
        sorted_by(pair_views(out@), pair_order()),
    ensures
        j <= out.len(),
        forall|k: int| 0 <= k < j ==> pair_le(#[trigger] pair_views(out@)[k], (x.0@, x.1@)),
        forall|k: int| j <= k < out.len() ==> pair_le((x.0@, x.1@), #[trigger] pair_views(out@)[k]),
{
    let ghost xv: PairView = (x.0@, x.1@);
    let mut j: usize = 0;
    while j < out.len()
        invariant
            j <= out.len(),
            sorted_by(pair_views(out@), pair_order()),
            xv == (x.0@, x.1@),
            forall|k: int| 0 <= k < j ==> pair_le(#[trigger] pair_views(out@)[k], xv),
        decreases out.len() - j,
    {
        let le = pair_le_exec(&out[j], x);
        assert(pair_views(out@)[j as int] == (out@[j as int].0@, out@[j as int].1@));
        if !le {
            proof {
                lemma_pair_le_connected(pair_views(out@)[j as int], xv);
                assert forall|k: int| j <= k < out.len()
                    implies pair_le(xv, #[trigger] pair_views(out@)[k]) by {
                    if k > j {
                        assert(pair_order()(pair_views(out@)[j as int], pair_views(out@)[k]));
                        lemma_pair_le_trans(xv, pair_views(out@)[j as int], pair_views(out@)[k]);
                    }
                }
            }
            return j;
        }
        j = j + 1;
    }
    j
}

/// Sorts parameter pairs into the canonical order.  The result is exactly
/// the specification-level sort of the input's views, so every permutation
/// of the same pairs sorts to the same vector.
pub fn sort_pairs(input: &Vec<(String, String)>) -> (r: Vec<(String, String)>)
    ensures
        pair_views(r@) == pair_views(input@).sort_by(pair_order()),
{
    let mut out: Vec<(String, String)> = Vec::new();
    let mut i: usize = 0;
    assert(pair_views(out@) =~= Seq::<PairView>::empty());
    assert(pair_views(input@.take(0)) =~= Seq::<PairView>::empty());
    assert(pair_views(out@).to_multiset() =~= pair_views(input@.take(0)).to_multiset());
    while i < input.len()
        invariant
            i <= input.len(),
            sorted_by(pair_views(out@), pair_order()),
            pair_views(out@).to_multiset() == pair_views(input@.take(i as int)).to_multiset(),
        decreases input.len() - i,
    {
        let key = input[i].0.as_str().to_owned();
        let value = input[i].1.as_str().to_owned();
        let x = (key, value);
        let ghost xv: PairView = (x.0@, x.1@);
        let ghost old_out = out@;
        let j = insertion_index(&out, &x);
        out.insert(j, x);
        proof {
            let prev = pair_views(old_out);
            let taken = pair_views(input@.take(i as int));
            assert(prev.len() == old_out.len());
            assert(pair_views(out@) =~= prev.insert(j as int, xv));
            lemma_sorted_insert(prev, j as int, xv);
            vstd::seq_lib::to_multiset_insert(prev, j as int, xv);
            assert(prev.insert(j as int, xv).to_multiset() == prev.to_multiset().insert(xv));
            assert(pair_views(input@.take(i + 1)) =~= taken.push(xv));
            assert(taken.push(xv) =~= taken.insert(taken.len() as int, xv));
            vstd::seq_lib::to_multiset_insert(taken, taken.len() as int, xv);
            assert(taken.insert(taken.len() as int, xv).to_multiset() ==
                taken.to_multiset().insert(xv));
            assert(pair_views(out@).to_multiset() =~=
                pair_views(input@.take(i + 1)).to_multiset());
        }
        i = i + 1;
    }
    proof {
        assert(input@.take(input@.len() as int) =~= input@);
        lemma_pair_order_total();
        pair_views(input@).lemma_sort_by_ensures(pair_order());
        lemma_sorted_unique(pair_views(out@), pair_views(input@).sort_by(pair_order()),
            pair_order());
    }
    out
}

/// Inserting an element between its lower and upper neighbours keeps a
/// sequence sorted.
proof fn lemma_sorted_insert(s: Seq<PairView>, j: int, x: PairView)
    requires
        0 <= j <= s.len(),
        sorted_by(s, pair_order()),
        forall|k: int| 0 <= k < j ==> pair_le(#[trigger] s[k], x),
        forall|k: int| j <= k < s.len() ==> pair_le(x, #[trigger] s[k]),
    ensures
        sorted_by(s.insert(j, x), pair_order()),
{
    let t = s.insert(j, x);
    assert forall|p: int, q: int| 0 <= p < q < t.len() implies pair_order()(t[p], t[q]) by {
        let sp: int = if p < j { p } else { p - 1 };
        let sq: int = if q <= j { q - 1 } else { q - 1 };
        if p == j && q == j {
        } else if p == j {
            assert(t[q] == s[q - 1]);
            assert(pair_le(x, s[q - 1]));
        } else if q == j {
            assert(t[p] == s[p]);
            assert(pair_le(s[p], x));
        } else if p < j && q < j {
            assert(t[p] == s[p] && t[q] == s[q]);
            assert(pair_order()(s[p], s[q]));
        } else if p < j && q > j {
            assert(t[p] == s[p] && t[q] == s[q - 1]);
            if p == q - 1 {
                lemma_pair_le_trans(s[p], x, s[q - 1]);
            } else {
                assert(pair_order()(s[p], s[q - 1]));
            }
        } else {
            assert(t[p] == s[p - 1] && t[q] == s[q - 1]);
            assert(pair_order()(s[p - 1], s[q - 1]));
        }
    }
}

} // verus!
