//! Names as text: byte-wise ordering and equality.

use vstd::prelude::*;
use vstd::utf8::*;

verus! {

/// `a` and `b` hold the same bytes at every index below `k`.
pub open spec fn agree_before(a: Seq<u8>, b: Seq<u8>, k: int) -> bool {
    &&& 0 <= k <= a.len()
    &&& k <= b.len()
    &&& forall|j: int| 0 <= j < k ==> a[j] == b[j]
}

/// Lexicographic order on byte strings: `a` is a prefix of `b`, or `a` holds
/// the smaller byte at the first index where the two differ.
pub open spec fn bytes_le(a: Seq<u8>, b: Seq<u8>) -> bool {
    exists|k: int| #[trigger]
        agree_before(a, b, k) && (k == a.len() || (k < b.len() && a[k] < b[k]))
}

/// The order of names: byte-wise on their UTF-8 encodings.
pub open spec fn name_le(a: Seq<char>, b: Seq<char>) -> bool {
    bytes_le(encode_utf8(a), encode_utf8(b))
}

/// A byte string stands at or before itself.
pub proof fn lemma_bytes_le_refl(a: Seq<u8>)
    ensures
        bytes_le(a, a),
{
    assert(agree_before(a, a, a.len() as int));
}

/// The order on byte strings is transitive.
pub proof fn lemma_bytes_le_trans(a: Seq<u8>, b: Seq<u8>, c: Seq<u8>)
    requires
        bytes_le(a, b),
        bytes_le(b, c),
    ensures
        bytes_le(a, c),
{
    let k1 = choose|k: int| #[trigger]
        agree_before(a, b, k) && (k == a.len() || (k < b.len() && a[k] < b[k]));
    let k2 = choose|k: int| #[trigger]
        agree_before(b, c, k) && (k == b.len() || (k < c.len() && b[k] < c[k]));
    let k = if k1 <= k2 { k1 } else { k2 };
    assert(agree_before(a, c, k));
}

/// Two byte strings that agree before `i` are ordered one way or the other.
proof fn lemma_bytes_le_total_from(a: Seq<u8>, b: Seq<u8>, i: int)
    requires
        agree_before(a, b, i),
    ensures
        bytes_le(a, b) || bytes_le(b, a),
    decreases a.len() - i,
{
    if i == a.len() {
    } else if i == b.len() {
        assert(agree_before(b, a, i));
    } else if a[i] == b[i] {
        assert(agree_before(a, b, i + 1));
        lemma_bytes_le_total_from(a, b, i + 1);
    } else if a[i] < b[i] {
    } else {
        assert(agree_before(b, a, i));
    }
}

/// Of two byte strings, one stands at or before the other.
pub proof fn lemma_bytes_le_total(a: Seq<u8>, b: Seq<u8>)
    ensures
        bytes_le(a, b) || bytes_le(b, a),
{
    assert(agree_before(a, b, 0));
    lemma_bytes_le_total_from(a, b, 0);
}

/// Two byte strings that each stand at or before the other are the same.
pub proof fn lemma_bytes_le_antisym(a: Seq<u8>, b: Seq<u8>)
    requires
        bytes_le(a, b),
        bytes_le(b, a),
    ensures
        a == b,
{
    let k1 = choose|k: int| #[trigger]
        agree_before(a, b, k) && (k == a.len() || (k < b.len() && a[k] < b[k]));
    let k2 = choose|k: int| #[trigger]
        agree_before(b, a, k) && (k == b.len() || (k < a.len() && b[k] < a[k]));
    assert(k1 == a.len() && k2 == b.len());
    assert(a =~= b);
}

/// Whether `a` sorts at or before `b`.
pub fn bytes_at_or_before(a: &[u8], b: &[u8]) -> (r: bool)
    ensures
        r == bytes_le(a@, b@),
{
    let mut i: usize = 0;
    while i < a.len() && i < b.len() && a[i] == b[i]
        invariant
            agree_before(a@, b@, i as int),
        decreases a.len() - i,
    {
        i += 1;
    }
    let r = i == a.len() || (i < b.len() && a[i] < b[i]);
    proof {
        if !r {
            assert forall|k: int| #[trigger] agree_before(a@, b@, k) implies !(k == a@.len() || (k
                < b@.len() && a@[k] < b@[k])) by {
                if k > i {
                    if i < b@.len() {
                        assert(a@[i as int] == b@[i as int]);
                    }
                }
            }
        }
    }
    r
}

/// Whether the name `a` sorts at or before the name `b`.
pub fn name_at_or_before(a: &str, b: &str) -> (r: bool)
    ensures
        r == name_le(a@, b@),
{
    bytes_at_or_before(a.as_bytes(), b.as_bytes())
}

/// Whether two names are the same text.
pub fn same_name(a: &str, b: &str) -> (r: bool)
    ensures
        r == (a@ == b@),
{
    let x = a.as_bytes();
    let y = b.as_bytes();
    if x.len() != y.len() {
        return false;
    }
    let mut i: usize = 0;
    while i < x.len()
        invariant
            x@ == encode_utf8(a@),
            y@ == encode_utf8(b@),
            x@.len() == y@.len(),
            forall|j: int| 0 <= j < i ==> x@[j] == y@[j],
        decreases x.len() - i,
    {
        if x[i] != y[i] {
            return false;
        }
        i += 1;
    }
    proof {
        assert(x@ =~= y@);
        encode_utf8_decode_utf8(a@);
        encode_utf8_decode_utf8(b@);
    }
    true
}

} // verus!
