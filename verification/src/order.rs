//! The order of cache keys.
//!
//! Keys are compared as `str` compares: byte by byte over the UTF-8 text, a
//! proper prefix coming before its extensions.

use vstd::prelude::*;
use vstd::utf8::*;

verus! {

/// `a` and `b` agree on their first `n` bytes, and there `a` ends while `b`
/// goes on, or `a` holds the smaller byte.
pub open spec fn parts_at(a: Seq<u8>, b: Seq<u8>, n: int) -> bool {
    &&& 0 <= n <= a.len()
    &&& n < b.len()
    &&& forall|i: int| 0 <= i < n ==> a[i] == b[i]
    &&& (n == a.len() || a[n] < b[n])
}

/// Lexicographic order on byte strings.
pub open spec fn bytes_before(a: Seq<u8>, b: Seq<u8>) -> bool {
    exists|n: int| parts_at(a, b, n)
}

/// The strict order of keys.
pub open spec fn key_before(a: Seq<char>, b: Seq<char>) -> bool {
    bytes_before(encode_utf8(a), encode_utf8(b))
}

/// No key comes before itself.
pub proof fn key_before_irreflexive(a: Seq<char>)
    ensures
        !key_before(a, a),
{
}

/// The order of keys is transitive.
pub proof fn key_before_transitive(a: Seq<char>, b: Seq<char>, c: Seq<char>)
    requires
        key_before(a, b),
        key_before(b, c),
    ensures
        key_before(a, c),
{
    let x = encode_utf8(a);
    let y = encode_utf8(b);
    let z = encode_utf8(c);
    let n = choose|n: int| parts_at(x, y, n);
    let m = choose|m: int| parts_at(y, z, m);
    if n <= m {
        assert(parts_at(x, z, n));
    } else {
        assert(parts_at(x, z, m));
    }
}

/// Of two keys, at most one comes before the other.
pub proof fn key_before_asymmetric(a: Seq<char>, b: Seq<char>)
    requires
        key_before(a, b),
    ensures
        !key_before(b, a),
{
    if key_before(b, a) {
        key_before_transitive(a, b, a);
        key_before_irreflexive(a);
    }
}

/// Two texts with the same UTF-8 bytes are the same text.
pub proof fn same_bytes_same_text(a: Seq<char>, b: Seq<char>)
    requires
        encode_utf8(a) == encode_utf8(b),
    ensures
        a == b,
{
    encode_utf8_decode_utf8(a);
    encode_utf8_decode_utf8(b);
}

/// How one key stands to another.
#[derive(Clone, Copy, Debug, PartialEq, Eq)]
pub enum KeyOrder {
    Before,
    Same,
    After,
}

/// Compares two keys.
pub fn key_order(a: &str, b: &str) -> (order: KeyOrder)
    ensures
        order is Before <==> key_before(a@, b@),
        order is Same <==> a@ == b@,
        order is After <==> key_before(b@, a@),
{
    let x = a.as_bytes();
    let y = b.as_bytes();
    let mut i: usize = 0;
    while i < x.len() && i < y.len()
        invariant
            i <= x.len(),
            i <= y.len(),
            x@ == encode_utf8(a@),
            y@ == encode_utf8(b@),
            forall|j: int| 0 <= j < i ==> x@[j] == y@[j],
        decreases x.len() - i,
    {
        if x[i] < y[i] {
            proof {
                assert(parts_at(x@, y@, i as int));
                key_before_asymmetric(a@, b@);
                key_before_irreflexive(a@);
            }
            return KeyOrder::Before;
        }
        if y[i] < x[i] {
            proof {
                assert(parts_at(y@, x@, i as int));
                key_before_asymmetric(b@, a@);
                key_before_irreflexive(a@);
            }
            return KeyOrder::After;
        }
        i += 1;
    }
    if x.len() < y.len() {
        proof {
            assert(parts_at(x@, y@, i as int));
            key_before_asymmetric(a@, b@);
            key_before_irreflexive(a@);
        }
        KeyOrder::Before
    } else if y.len() < x.len() {
        proof {
            assert(parts_at(y@, x@, i as int));
            key_before_asymmetric(b@, a@);
            key_before_irreflexive(a@);
        }
        KeyOrder::After
    } else {
        proof {
            assert(x@ =~= y@);
            same_bytes_same_text(a@, b@);
            key_before_irreflexive(a@);
        }
        KeyOrder::Same
    }
}

} // verus!
