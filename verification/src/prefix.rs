//! Initial-segment reasoning for wire-byte sequences: on failure a write
//! leaves some prefix of the full frame on the wire, never anything else.

use vstd::prelude::*;

verus! {

/// `a` is an initial segment of `b`.
pub open spec fn is_prefix_of(a: Seq<u8>, b: Seq<u8>) -> bool {
    a.len() <= b.len() && a == b.take(a.len() as int)
}

/// A take is a prefix of the whole.
pub proof fn lemma_take_is_prefix(s: Seq<u8>, k: int)
    requires
        0 <= k <= s.len(),
    ensures
        is_prefix_of(s.take(k), s),
{
    assert(s.take(k) =~= s.take(s.take(k).len() as int));
}

/// A sequence is a prefix of itself followed by anything.
pub proof fn lemma_prefix_of_concat(a: Seq<u8>, b: Seq<u8>)
    ensures
        is_prefix_of(a, a + b),
{
    assert(a =~= (a + b).take(a.len() as int));
}

/// Prepending the same sequence on both sides keeps the prefix relation.
pub proof fn lemma_concat_prefix(c: Seq<u8>, a: Seq<u8>, b: Seq<u8>)
    requires
        is_prefix_of(a, b),
    ensures
        is_prefix_of(c + a, c + b),
{
    assert(c + a =~= (c + b).take((c + a).len() as int));
}

/// The prefix relation is transitive.
pub proof fn lemma_prefix_trans(a: Seq<u8>, b: Seq<u8>, c: Seq<u8>)
    requires
        is_prefix_of(a, b),
        is_prefix_of(b, c),
    ensures
        is_prefix_of(a, c),
{
    assert(a =~= c.take(a.len() as int));
}

} // verus!
