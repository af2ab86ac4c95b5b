//! The request signer.
//!
//! A signature authenticates an outbound exchange request: the parameters
//! are serialized as `key=value` pairs joined with `&`, in the canonical
//! key-sorted order, the secret key is appended, and the SHA-256 digest of
//! the result is rendered as 64 lowercase hexadecimal characters.
//!
//! Sorting the parameters before serialization makes the signature a
//! function of the parameter *mapping* rather than of any insertion or
//! iteration order; `lemma_sign_order_independent` states that guarantee.

use vstd::prelude::*;
use crate::ordering::{PairView, pair_views, pair_order, sort_pairs, lemma_sort_canonical};

verus! {

/// An unordered mapping from parameter names to parameter values.
///
/// `insert` replaces the value of an existing key, so a well-formed value
/// never holds two entries with the same key.
pub struct SigningParams {
    pairs: Vec<(String, String)>,
}

impl View for SigningParams {
    type V = Seq<PairView>;

    closed spec fn view(&self) -> Seq<PairView> {
        pair_views(self.pairs@)
    }
}

/// The entry sequence that results from binding `k` to `v`: the first
/// entry with key `k` is replaced, or a new entry is appended.
pub open spec fn spec_insert(s: Seq<PairView>, k: Seq<char>, v: Seq<char>) -> Seq<PairView>
    decreases s.len(),
{
    if s.len() == 0 {
        seq![(k, v)]
    } else if s[0].0 == k {
        seq![(k, v)] + s.drop_first()
    } else {
        seq![s[0]] + spec_insert(s.drop_first(), k, v)
    }
}

proof fn lemma_spec_insert_found(s: Seq<PairView>, k: Seq<char>, v: Seq<char>, i: int)
    requires
        0 <= i < s.len(),
        s[i].0 == k,
        forall|j: int| 0 <= j < i ==> (#[trigger] s[j]).0 != k,
    ensures
        spec_insert(s, k, v) == s.update(i, (k, v)),
    decreases s.len(),
{
    if i == 0 {
        assert(spec_insert(s, k, v) =~= s.update(0, (k, v)));
    } else {
        assert(s[0].0 != k);
        assert forall|j: int| 0 <= j < i - 1 implies (#[trigger] s.drop_first()[j]).0 != k by {
            assert(s.drop_first()[j] == s[j + 1]);
        }
        assert(s.drop_first()[i - 1] == s[i]);
        lemma_spec_insert_found(s.drop_first(), k, v, i - 1);
        assert(seq![s[0]] + s.drop_first().update(i - 1, (k, v)) =~= s.update(i, (k, v)));
    }
}

/// Binding a key that no entry holds appends a new entry.
pub proof fn lemma_spec_insert_missing(s: Seq<PairView>, k: Seq<char>, v: Seq<char>)
    requires
        forall|j: int| 0 <= j < s.len() ==> (#[trigger] s[j]).0 != k,
    ensures
        spec_insert(s, k, v) == s.push((k, v)),
    decreases s.len(),
{
    if s.len() == 0 {
        assert(spec_insert(s, k, v) =~= s.push((k, v)));
    } else {
        assert forall|j: int| 0 <= j < s.drop_first().len()
            implies (#[trigger] s.drop_first()[j]).0 != k by {
            assert(s.drop_first()[j] == s[j + 1]);
        }
        lemma_spec_insert_missing(s.drop_first(), k, v);
        assert(seq![s[0]] + s.drop_first().push((k, v)) =~= s.push((k, v)));
    }
}

/// Whether two strings hold the same characters.
fn str_eq(a: &str, b: &str) -> (r: bool)
    ensures
        r == (a@ == b@),
{
    let a_len = a.unicode_len();
    let b_len = b.unicode_len();
    if a_len != b_len {
        return false;
    }
    let mut i: usize = 0;
    while i < a_len
        invariant
            i <= a_len,
            a_len == a@.len(),
            a@.len() == b@.len(),
            forall|j: int| 0 <= j < i ==> a@[j] == b@[j],
        decreases a_len - i,
    {
        let ca = a.get_char(i);
        let cb = b.get_char(i);
        if ca != cb {
            return false;
        }
        i = i + 1;
    }
    proof {
        assert(a@ =~= b@);
    }
    true
}

impl SigningParams {
    /// An empty mapping.
    pub fn new() -> (r: SigningParams)
        ensures
            r@ == Seq::<PairView>::empty(),
            r.wf(),
    {
        let r = SigningParams { pairs: Vec::new() };
        proof {
            assert(r@ =~= Seq::<PairView>::empty());
        }
        r
    }

    /// No two entries share a key.
    pub open spec fn wf(&self) -> bool {
        forall|i: int, j: int| 0 <= i < j < self@.len() ==>
            (#[trigger] self@[i]).0 != (#[trigger] self@[j]).0
    }

    /// The number of entries.
    pub fn len(&self) -> (n: usize)
        ensures
            n == self@.len(),
    {
        self.pairs.len()
    }

    /// Binds `key` to `value`, replacing the value of an existing key.
    #[verifier::loop_isolation(false)]
    pub fn insert(&mut self, key: String, value: String)
        ensures
            final(self)@ == spec_insert(old(self)@, key@, value@),
            old(self).wf() ==> final(self).wf(),
    {
        let ghost old_seq = old(self)@;
        let mut i: usize = 0;
        while i < self.pairs.len()
            invariant
                i <= self.pairs.len(),
                old_seq == pair_views(self.pairs@),
                forall|j: int| 0 <= j < i ==> (#[trigger] old_seq[j]).0 != key@,
            decreases self.pairs.len() - i,
        {
            assert(old_seq[i as int] == (self.pairs@[i as int].0@, self.pairs@[i as int].1@));
            if str_eq(self.pairs[i].0.as_str(), key.as_str()) {
                self.pairs.remove(i);
                self.pairs.insert(i, (key, value));
                proof {
                    assert(pair_views(self.pairs@) =~= old_seq.update(i as int, (key@, value@)));
                    lemma_spec_insert_found(old_seq, key@, value@, i as int);
                    if old(self).wf() {
                        assert forall|p: int, q: int| 0 <= p < q < self@.len()
                            implies (#[trigger] self@[p]).0 != (#[trigger] self@[q]).0 by {
                            assert(old_seq[p].0 == self@[p].0);
                            assert(old_seq[q].0 == self@[q].0);
                        }
                    }
                }
                return;
            }
            i = i + 1;
        }
        self.pairs.push((key, value));
        proof {
            assert(pair_views(self.pairs@) =~= old_seq.push((key@, value@)));
            lemma_spec_insert_missing(old_seq, key@, value@);
            if old(self).wf() {
                assert forall|p: int, q: int| 0 <= p < q < self@.len()
                    implies (#[trigger] self@[p]).0 != (#[trigger] self@[q]).0 by {
                    if q < self@.len() - 1 {
                        assert(old_seq[p].0 == self@[p].0);
                        assert(old_seq[q].0 == self@[q].0);
                    } else {
                        assert(old_seq[p].0 == self@[p].0);
                    }
                }
            }
        }
    }

    /// The entries in the canonical (key-sorted) order.
    pub fn canonical_pairs(&self) -> (r: Vec<(String, String)>)
        ensures
            pair_views(r@) == self@.sort_by(pair_order()),
    {
        sort_pairs(&self.pairs)
    }
}

/// The serialization of one pair: `key=value`.
pub open spec fn pair_text(p: PairView) -> Seq<char> {
    p.0 + seq!['='] + p.1
}

/// The serialization of a pair sequence: the pairs' texts joined with `&`.
pub open spec fn joined(ps: Seq<PairView>) -> Seq<char>
    decreases ps.len(),
{
    if ps.len() == 0 {
        Seq::empty()
    } else if ps.len() == 1 {
        pair_text(ps[0])
    } else {
        pair_text(ps[0]) + seq!['&'] + joined(ps.drop_first())
    }
}

proof fn lemma_joined_push(ps: Seq<PairView>, p: PairView)
    ensures
        ps.len() == 0 ==> joined(ps.push(p)) == pair_text(p),
        ps.len() > 0 ==> joined(ps.push(p)) == joined(ps) + seq!['&'] + pair_text(p),
    decreases ps.len(),
{
    if ps.len() == 0 {
        assert(ps.push(p) =~= seq![p]);
        assert(joined(seq![p]) == pair_text(seq![p][0]));
    } else if ps.len() == 1 {
        assert(ps.push(p).drop_first() =~= seq![p]);
        assert(joined(seq![p]) == pair_text(p));
        assert(ps.push(p)[0] == ps[0]);
        assert(joined(ps.push(p)) == pair_text(ps[0]) + seq!['&'] + pair_text(p));
    } else {
        assert(ps.push(p).drop_first() =~= ps.drop_first().push(p));
        lemma_joined_push(ps.drop_first(), p);
        assert(pair_text(ps[0]) + seq!['&'] + (joined(ps.drop_first()) + seq!['&'] + pair_text(p))
            =~= (pair_text(ps[0]) + seq!['&'] + joined(ps.drop_first())) + seq!['&'] + pair_text(
            p));
    }
}

/// Serializes pairs as `key=value` joined with `&`, in the order given.
pub fn join_pairs(pairs: &Vec<(String, String)>) -> (s: String)
    ensures
        s@ == joined(pair_views(pairs@)),
{
    let mut s = String::new();
    let mut i: usize = 0;
    proof {
        assert(pair_views(pairs@).take(0) =~= Seq::<PairView>::empty());
    }
    while i < pairs.len()
        invariant
            i <= pairs.len(),
            s@ == joined(pair_views(pairs@).take(i as int)),
        decreases pairs.len() - i,
    {
        if i > 0 {
            s.append("&");
        }
        s.append(pairs[i].0.as_str());
        s.append("=");
        s.append(pairs[i].1.as_str());
        proof {
            reveal_strlit("&");
            reveal_strlit("=");
            assert("&"@ =~= seq!['&']);
            assert("="@ =~= seq!['=']);
            let pv = pair_views(pairs@);
            assert(pv[i as int] == (pairs@[i as int].0@, pairs@[i as int].1@));
            lemma_joined_push(pv.take(i as int), pv[i as int]);
            assert(pv.take(i + 1) =~= pv.take(i as int).push(pv[i as int]));
            if i == 0 {
                assert(s@ =~= pair_text(pv[0]));
            } else {
                assert(s@ =~= joined(pv.take(i as int)) + seq!['&'] + pair_text(pv[i as int]));
            }
        }
        i = i + 1;
    }
    proof {
        assert(pair_views(pairs@).take(pairs@.len() as int) =~= pair_views(pairs@));
    }
    s
}

/// The SHA-256 digest, in hexadecimal, of the UTF-8 bytes of a message.
pub uninterp spec fn sha256_hex_of(message: Seq<char>) -> Seq<char>;

/// A lowercase hexadecimal digit.
pub open spec fn is_lower_hex_char(c: char) -> bool {
    (('0' as u32) <= (c as u32) && (c as u32) <= ('9' as u32))
    || (('a' as u32) <= (c as u32) && (c as u32) <= ('f' as u32))
}

/// Relies on `crypto_hash::hex_digest` with `Algorithm::SHA256`: it hashes
/// the UTF-8 bytes of the message — a function of the characters alone —
/// and renders the 32-byte digest with `hex::encode`, giving exactly 64
/// lowercase hexadecimal characters.
#[verifier::external_body]
fn sha256_hex(message: &str) -> (r: String)
    ensures
        r@ == sha256_hex_of(message@),
        r@.len() == 64,
        forall|i: int| 0 <= i < r@.len() ==> is_lower_hex_char(#[trigger] r@[i]),
{
    crypto_hash::hex_digest(crypto_hash::Algorithm::SHA256, message.as_bytes())
}

/// The byte string that gets hashed: the canonical serialization of the
/// parameters with the secret appended.
pub open spec fn canonical_message(secret: Seq<char>, params: Seq<PairView>) -> Seq<char> {
    joined(params.sort_by(pair_order())) + secret
}

/// The signature of `params` under `secret`.
pub open spec fn spec_sign(secret: Seq<char>, params: Seq<PairView>) -> Seq<char> {
    sha256_hex_of(canonical_message(secret, params))
}

/// Signs a parameter mapping: serializes the entries in the canonical
/// key-sorted order as `key=value` pairs joined with `&`, appends the
/// secret, and hashes with SHA-256.  The result is always 64 lowercase
/// hexadecimal characters.
pub fn sign(secret: &str, params: &SigningParams) -> (r: String)
    ensures
        r@ == spec_sign(secret@, params@),
        r@.len() == 64,
        forall|i: int| 0 <= i < r@.len() ==> is_lower_hex_char(#[trigger] r@[i]),
{
    let sorted = params.canonical_pairs();
    let mut message = join_pairs(&sorted);
    message.append(secret);
    sha256_hex(message.as_str())
}

/// Signing is deterministic: two results for the same secret and the same
/// parameters are the same signature.
pub proof fn lemma_sign_deterministic(
    secret: Seq<char>,
    params: Seq<PairView>,
    r1: Seq<char>,
    r2: Seq<char>,
)
    requires
        r1 == spec_sign(secret, params),
        r2 == spec_sign(secret, params),
    ensures
        r1 == r2,
{
}

/// The signature does not depend on the order in which the parameters were
/// bound: two parameter sequences that are permutations of each other sign
/// to the same signature.
pub proof fn lemma_sign_order_independent(
    secret: Seq<char>,
    params1: Seq<PairView>,
    params2: Seq<PairView>,
)
    requires
        params1.to_multiset() == params2.to_multiset(),
    ensures
        spec_sign(secret, params1) == spec_sign(secret, params2),
{
    lemma_sort_canonical(params1, params2);
}

} // verus!
