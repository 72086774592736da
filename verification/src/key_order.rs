//! The order in which keys are kept: byte-wise lexicographic order of their
//! UTF-8 encoding, the order Rust gives to `str` and `String`.

use vstd::prelude::*;
use vstd::utf8::*;

verus! {

/// How one key stands relative to another.
#[derive(Clone, Copy, Debug, PartialEq, Eq)]
pub enum KeyOrder {
    /// The first key sorts strictly before the second.
    Before,
    /// Both keys are the same text.
    Same,
    /// The first key sorts strictly after the second.
    After,
}

/// `a` and `b` hold the same byte at every position below `n`.
pub open spec fn agree_below(a: Seq<u8>, b: Seq<u8>, n: int) -> bool {
    &&& 0 <= n <= a.len()
    &&& n <= b.len()
    &&& forall|j: int| 0 <= j < n ==> a[j] == b[j]
}

/// Strict lexicographic order on byte strings: at the first position where
/// the two differ, `a` has ended or holds the smaller byte.
pub open spec fn bytes_before(a: Seq<u8>, b: Seq<u8>) -> bool {
    exists|n: int| #[trigger]
        agree_below(a, b, n) && n < b.len() && (n == a.len() || a[n] < b[n])
}

/// Strict order on keys: the lexicographic order of their UTF-8 bytes.
pub open spec fn key_before(a: Seq<char>, b: Seq<char>) -> bool {
    bytes_before(encode_utf8(a), encode_utf8(b))
}

/// No byte string sorts before itself.
pub proof fn lemma_bytes_irreflexive(a: Seq<u8>)
    ensures
        !bytes_before(a, a),
{
}

/// The byte order is transitive.
pub proof fn lemma_bytes_transitive(a: Seq<u8>, b: Seq<u8>, c: Seq<u8>)
    requires
        bytes_before(a, b),
        bytes_before(b, c),
    ensures
        bytes_before(a, c),
{
    let n = choose|n: int| #[trigger]
        agree_below(a, b, n) && n < b.len() && (n == a.len() || a[n] < b[n]);
    let m = choose|m: int| #[trigger]
        agree_below(b, c, m) && m < c.len() && (m == b.len() || b[m] < c[m]);
    let k = if n <= m {
        n
    } else {
        m
    };
    assert(agree_below(a, c, k));
}

/// Two byte strings that agree below `n` and are not equal are ordered one
/// way or the other.
proof fn lemma_bytes_apart(a: Seq<u8>, b: Seq<u8>, n: int)
    requires
        agree_below(a, b, n),
        a != b,
    ensures
        bytes_before(a, b) || bytes_before(b, a),
    decreases a.len() - n,
{
    if n == a.len() {
        if n == b.len() {
            assert(a =~= b);
        }
    } else if n == b.len() {
        assert(agree_below(b, a, n));
    } else if a[n] != b[n] {
        assert(agree_below(b, a, n));
    } else {
        assert(agree_below(a, b, n + 1));
        lemma_bytes_apart(a, b, n + 1);
    }
}

/// The byte order is total: distinct byte strings are ordered.
pub proof fn lemma_bytes_total(a: Seq<u8>, b: Seq<u8>)
    ensures
        a == b || bytes_before(a, b) || bytes_before(b, a),
{
    if a != b {
        assert(agree_below(a, b, 0));
        lemma_bytes_apart(a, b, 0);
    }
}

/// Keys with the same UTF-8 bytes are the same text.
pub proof fn lemma_encoding_injective(a: Seq<char>, b: Seq<char>)
    requires
        encode_utf8(a) == encode_utf8(b),
    ensures
        a == b,
{
    encode_utf8_decode_utf8(a);
    encode_utf8_decode_utf8(b);
}

/// The key order is a strict total order: of `a before b`, `a == b` and
/// `b before a` exactly one holds.
pub proof fn lemma_key_order_trichotomy(a: Seq<char>, b: Seq<char>)
    ensures
        key_before(a, b) || a == b || key_before(b, a),
        !(key_before(a, b) && a == b),
        !(key_before(b, a) && a == b),
        !(key_before(a, b) && key_before(b, a)),
{
    let x = encode_utf8(a);
    let y = encode_utf8(b);
    lemma_bytes_total(x, y);
    if x == y {
        lemma_encoding_injective(a, b);
    }
    lemma_bytes_irreflexive(x);
    if bytes_before(x, y) && bytes_before(y, x) {
        lemma_bytes_transitive(x, y, x);
    }
}

/// The key order is transitive.
pub proof fn lemma_key_order_transitive(a: Seq<char>, b: Seq<char>, c: Seq<char>)
    requires
        key_before(a, b),
        key_before(b, c),
    ensures
        key_before(a, c),
{
    lemma_bytes_transitive(encode_utf8(a), encode_utf8(b), encode_utf8(c));
}

/// Compares two keys byte by byte.
pub fn compare_keys(a: &str, b: &str) -> (r: KeyOrder)
    ensures
        r == KeyOrder::Before <==> key_before(a@, b@),
        r == KeyOrder::Same <==> a@ == b@,
        r == KeyOrder::After <==> key_before(b@, a@),
{
    let x = a.as_bytes();
    let y = b.as_bytes();
    proof {
        lemma_key_order_trichotomy(a@, b@);
    }
    let mut i: usize = 0;
    while i < x.len() && i < y.len()
        invariant
            agree_below(x@, y@, i as int),
            x@ == encode_utf8(a@),
            y@ == encode_utf8(b@),
        decreases x.len() - i,
    {
        if x[i] < y[i] {
            return KeyOrder::Before;
        }
        if x[i] > y[i] {
            assert(agree_below(y@, x@, i as int));
            return KeyOrder::After;
        }
        i += 1;
    }
    if i < y.len() {
        KeyOrder::Before
    } else if i < x.len() {
        assert(agree_below(y@, x@, i as int));
        KeyOrder::After
    } else {
        assert(x@ =~= y@);
        proof {
            lemma_encoding_injective(a@, b@);
        }
        KeyOrder::Same
    }
}

} // verus!
