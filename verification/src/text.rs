//! The order of addresses: strings compared by the bytes of their UTF-8
//! encoding, the order in which a byte-keyed store walks its keys.

use vstd::prelude::*;
use vstd::string::*;
use vstd::utf8::*;

verus! {

/// `a` and `b` agree before position `k`, and at `k` either `a` has ended
/// while `b` goes on, or `a` holds the smaller byte.
pub open spec fn parts_at(a: Seq<u8>, b: Seq<u8>, k: int) -> bool {
    &&& 0 <= k <= a.len()
    &&& k < b.len()
    &&& forall|i: int| 0 <= i < k ==> a[i] == b[i]
    &&& (k == a.len() || a[k] < b[k])
}

/// Lexicographic "comes before" on byte strings.
pub open spec fn bytes_lt(a: Seq<u8>, b: Seq<u8>) -> bool {
    exists|k: int| parts_at(a, b, k)
}

/// "Comes before" on strings: the bytes of `a`'s encoding come before those of `b`'s.
pub open spec fn text_lt(a: Seq<char>, b: Seq<char>) -> bool {
    bytes_lt(encode_utf8(a), encode_utf8(b))
}

/// How one string stands to another in the order of [`text_lt`].
#[derive(Clone, Copy, Debug, PartialEq, Eq, Structural)]
pub enum TextOrder {
    Before,
    Same,
    After,
}

pub proof fn lemma_bytes_lt_irreflexive(a: Seq<u8>)
    ensures
        !bytes_lt(a, a),
{
}

pub proof fn lemma_bytes_lt_transitive(a: Seq<u8>, b: Seq<u8>, c: Seq<u8>)
    requires
        bytes_lt(a, b),
        bytes_lt(b, c),
    ensures
        bytes_lt(a, c),
{
    let k1 = choose|k: int| parts_at(a, b, k);
    let k2 = choose|k: int| parts_at(b, c, k);
    if k1 <= k2 {
        assert(parts_at(a, c, k1));
    } else {
        assert(parts_at(a, c, k2));
    }
}

/// Two byte strings that agree before `i` are equal or ordered one way.
proof fn lemma_bytes_total_from(a: Seq<u8>, b: Seq<u8>, i: int)
    requires
        0 <= i <= a.len(),
        i <= b.len(),
        forall|j: int| 0 <= j < i ==> a[j] == b[j],
    ensures
        a == b || bytes_lt(a, b) || bytes_lt(b, a),
    decreases a.len() - i,
{
    if i == a.len() {
        if i == b.len() {
            assert(a =~= b);
        } else {
            assert(parts_at(a, b, i));
        }
    } else if i == b.len() {
        assert(parts_at(b, a, i));
    } else if a[i] < b[i] {
        assert(parts_at(a, b, i));
    } else if b[i] < a[i] {
        assert(parts_at(b, a, i));
    } else {
        lemma_bytes_total_from(a, b, i + 1);
    }
}

pub proof fn lemma_bytes_lt_total(a: Seq<u8>, b: Seq<u8>)
    ensures
        a == b || bytes_lt(a, b) || bytes_lt(b, a),
{
    lemma_bytes_total_from(a, b, 0);
}

/// [`text_lt`] is a strict total order on strings.
pub proof fn lemma_text_lt_irreflexive(a: Seq<char>)
    ensures
        !text_lt(a, a),
{
    lemma_bytes_lt_irreflexive(encode_utf8(a));
}

pub proof fn lemma_text_lt_transitive(a: Seq<char>, b: Seq<char>, c: Seq<char>)
    requires
        text_lt(a, b),
        text_lt(b, c),
    ensures
        text_lt(a, c),
{
    lemma_bytes_lt_transitive(encode_utf8(a), encode_utf8(b), encode_utf8(c));
}

pub proof fn lemma_text_lt_asymmetric(a: Seq<char>, b: Seq<char>)
    requires
        text_lt(a, b),
    ensures
        !text_lt(b, a),
        a != b,
{
    if text_lt(b, a) {
        lemma_text_lt_transitive(a, b, a);
    }
    lemma_text_lt_irreflexive(a);
}

pub proof fn lemma_text_lt_total(a: Seq<char>, b: Seq<char>)
    ensures
        a == b || text_lt(a, b) || text_lt(b, a),
{
    lemma_bytes_lt_total(encode_utf8(a), encode_utf8(b));
    if encode_utf8(a) == encode_utf8(b) {
        encode_utf8_decode_utf8(a);
        encode_utf8_decode_utf8(b);
    }
}

/// Compares two strings byte by byte.
pub fn text_order(a: &str, b: &str) -> (r: TextOrder)
    ensures
        r == TextOrder::Before <==> text_lt(a@, b@),
        r == TextOrder::Same <==> a@ == b@,
        r == TextOrder::After <==> text_lt(b@, a@),
{
    let x = a.as_bytes();
    let y = b.as_bytes();
    let mut i: usize = 0;
    while i < x.len() && i < y.len()
        invariant
            i <= x.len(),
            i <= y.len(),
            x@ == encode_utf8(a@),
            y@ == encode_utf8(b@),
            forall|j: int| 0 <= j < i ==> x@[j] == y@[j],
        decreases x.len() - i,
    {
        if x[i] < y[i] {
            proof {
                assert(parts_at(x@, y@, i as int));
                lemma_text_lt_asymmetric(a@, b@);
            }
            return TextOrder::Before;
        }
        if y[i] < x[i] {
            proof {
                assert(parts_at(y@, x@, i as int));
                lemma_text_lt_asymmetric(b@, a@);
            }
            return TextOrder::After;
        }
        i += 1;
    }
    if i < y.len() {
        proof {
            assert(parts_at(x@, y@, i as int));
            lemma_text_lt_asymmetric(a@, b@);
        }
        TextOrder::Before
    } else if i < x.len() {
        proof {
            assert(parts_at(y@, x@, i as int));
            lemma_text_lt_asymmetric(b@, a@);
        }
        TextOrder::After
    } else {
        proof {
            assert(x@ =~= y@);
            encode_utf8_decode_utf8(a@);
            encode_utf8_decode_utf8(b@);
            lemma_text_lt_irreflexive(a@);
        }
        TextOrder::Same
    }
}

/// Whether two strings are the same.
pub fn text_eq(a: &str, b: &str) -> (r: bool)
    ensures
        r == (a@ == b@),
{
    match text_order(a, b) {
        TextOrder::Same => true,
        _ => false,
    }
}

} // verus!
