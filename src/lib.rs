//! Integer-side logic of a Monte Carlo path tracer: the bounding volume
//! hierarchy's construction, the Perlin lattice hash and image texel lookup.

use vstd::prelude::*;

pub mod bvh;
pub mod perlin;
pub mod texture;

verus! {

/// A sequence with the same elements, counted with multiplicity, as one
/// without duplicates has none either.
pub proof fn lemma_same_multiset_no_duplicates<A>(s: Seq<A>, t: Seq<A>)
    requires
        s.no_duplicates(),
        t.to_multiset() == s.to_multiset(),
    ensures
        t.no_duplicates(),
{
    s.lemma_multiset_has_no_duplicates();
    t.lemma_multiset_has_no_duplicates_conv();
}

} // verus!
