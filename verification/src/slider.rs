//! The public slider's slide selection: the gallery's paths in a random
//! order, at most ten of them per response.

use vstd::prelude::*;
use vstd::math::min;
use rand::seq::SliceRandom;

verus! {

/// The slide paths one slider response carries.
pub struct SliderResponse {
    pub paths: Vec<String>,
}

/// Relies on `<[String]>::sort`: reorders in place, keeping the same
/// entries; the order is then discarded by the shuffle that follows.
#[verifier::external_body]
fn sort_paths(v: &mut Vec<String>)
    ensures
        final(v)@.len() == old(v)@.len(),
        final(v)@.to_multiset() == old(v)@.to_multiset(),
{
    v.sort();
}

/// Relies on rand's `SliceRandom::shuffle` with the thread rng: a random
/// permutation holding the same entries, in an order nothing may assume.
#[verifier::external_body]
fn shuffle_paths(v: &mut Vec<String>)
    ensures
        final(v)@.len() == old(v)@.len(),
        final(v)@.to_multiset() == old(v)@.to_multiset(),
{
    v.shuffle(&mut rand::rng());
}

/// Picks the paths one slider response shows: the given paths in a random
/// order, cut to at most ten. Every path shown is one of the paths given,
/// and no path is shown more often than it was given; which ten, and in
/// what order, is the shuffle's choice alone.
pub fn pick_slider_paths(paths: Vec<String>) -> (r: Vec<String>)
    ensures
        r@.len() == min(10, paths@.len() as int),
        forall|k: int|
            0 <= k < r@.len() ==> paths@.to_multiset().count(#[trigger] r@[k]) > 0,
        forall|x: String| #[trigger] r@.to_multiset().count(x) <= paths@.to_multiset().count(x),
{
    broadcast use vstd::prelude::Seq::to_multiset_ensures;
    broadcast use vstd::multiset::group_multiset_axioms;

    let ghost given = paths@;
    let mut v = paths;
    sort_paths(&mut v);
    shuffle_paths(&mut v);
    let ghost shuffled = v@;
    v.truncate(10);
    proof {
        shuffled.to_multiset_ensures();
        assert forall|k: int| 0 <= k < v@.len() implies given.to_multiset().count(
            #[trigger] v@[k],
        ) > 0 by {
            assert(v@[k] == shuffled[k]);
            assert(shuffled.contains(shuffled[k]));
            assert(shuffled.to_multiset().count(shuffled[k]) > 0);
        }
        let taken = v@;
        let dropped = shuffled.skip(taken.len() as int);
        assert(shuffled =~= taken + dropped);
        vstd::seq_lib::lemma_multiset_commutative(taken, dropped);
        assert forall|x: String| #[trigger] taken.to_multiset().count(x) <= given.to_multiset().count(
            x,
        ) by {
            assert(shuffled.to_multiset().count(x) == taken.to_multiset().count(x)
                + dropped.to_multiset().count(x));
        }
    }
    v
}

} // verus!
