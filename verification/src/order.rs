//! The order in which the keys of a request's fields are walked.

use vstd::prelude::*;
use vstd::std_specs::btree::increasing_seq;
use vstd::std_specs::cmp::OrdSpec;

verus! {

/// Field numbers that a map hands out in increasing order grow strictly.
pub proof fn lemma_increasing_ids(keys: Seq<u16>)
    requires
        increasing_seq(keys),
    ensures
        forall|i: int, j: int| 0 <= i < j < keys.len() ==> keys[i] < keys[j],
{
    assert forall|i: int, j: int| 0 <= i < j < keys.len() implies keys[i] < keys[j] by {
        assert(keys[i].cmp_spec(&keys[j]) is Less);
    }
}

/// Pairs of field and subfield number that a map hands out in increasing
/// order grow strictly: by the field number first, by the subfield number
/// within one field.
pub proof fn lemma_increasing_pairs(keys: Seq<(u16, u8)>)
    requires
        increasing_seq(keys),
    ensures
        forall|i: int, j: int|
            0 <= i < j < keys.len() ==> (keys[i].0 < keys[j].0 || (keys[i].0 == keys[j].0
                && keys[i].1 < keys[j].1)),
{
    assert forall|i: int, j: int| 0 <= i < j < keys.len() implies (keys[i].0 < keys[j].0 || (
    keys[i].0 == keys[j].0 && keys[i].1 < keys[j].1)) by {
        assert(keys[i].cmp_spec(&keys[j]) is Less);
    }
}

} // verus!
