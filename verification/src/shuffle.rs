//! The collector: draining a finished run and shuffling its tracks.

use vstd::prelude::*;
use rand::seq::SliceRandom;
use crate::errors::Error;
use crate::machine::{Expander, PhaseView};

verus! {

/// The declared handle type of the thread-local random generator.
#[verifier::external_type_specification]
#[verifier::external_body]
pub struct ExThreadRng(rand::rngs::ThreadRng);

/// Relies on `rand::thread_rng`: a handle to the thread-local random
/// generator. Nothing can be promised of what it will draw.
#[verifier::external_body]
fn fresh_rng() -> rand::rngs::ThreadRng {
    rand::thread_rng()
}

/// Relies on `rand::seq::SliceRandom::shuffle`: it permutes the elements of
/// the slice in place, so whatever order was drawn, the tracks afterwards
/// are the same multiset as before.
#[verifier::external_body]
fn shuffle_with(rng: &mut rand::rngs::ThreadRng, tracks: &mut Vec<String>)
    ensures
        final(tracks).deep_view().to_multiset() == old(tracks).deep_view().to_multiset(),
{
    tracks.shuffle(rng)
}

/// Drain a finished run into memory and randomly permute the tracks: the
/// result is a permutation of the tracks the run emitted, or the single
/// error that aborted the run.
pub fn materialize_shuffled(m: Expander) -> (r: Result<Vec<String>, Error>)
    requires
        m@.phase is Done || m@.phase is Failed,
    ensures
        match r {
            Ok(ts) => m@.phase is Done && ts.deep_view().to_multiset()
                == m@.tracks.to_multiset(),
            Err(e) => m@.phase == PhaseView::Failed(e),
        },
{
    match m.finish() {
        Ok(mut ts) => {
            let mut rng = fresh_rng();
            shuffle_with(&mut rng, &mut ts);
            Ok(ts)
        },
        Err(e) => Err(e),
    }
}

/// A permutation of at most one track is the sequence itself: shuffling
/// zero or one tracks cannot change the collection.
pub proof fn lemma_permutation_of_at_most_one(a: Seq<Seq<char>>, b: Seq<Seq<char>>)
    requires
        a.to_multiset() == b.to_multiset(),
        a.len() <= 1,
    ensures
        a == b,
{
    broadcast use vstd::seq_lib::group_to_multiset_ensures;

    assert(a.len() == a.to_multiset().len());
    assert(b.len() == b.to_multiset().len());
    if a.len() == 0 {
        assert(a =~= b);
    } else {
        assert(a.contains(a[0]));
        assert(a.to_multiset().count(a[0]) > 0);
        assert(b.to_multiset().count(a[0]) > 0);
        assert(b.contains(a[0]));
        let i = choose|i: int| 0 <= i < b.len() && b[i] == a[0];
        assert(b[0] == a[0]);
        assert(a =~= b);
    }
}

} // verus!
