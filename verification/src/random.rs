//! What the library relies on of the `rand` crate.
//!
//! Both functions draw from the generator of the current thread. That they
//! draw uniformly is not part of their contracts, and neither is what happens
//! when the operating system cannot seed that generator: `rand` panics.

use rand::Rng;
use vstd::prelude::*;

verus! {

/// A number that was drawn from those below `bound`.
pub struct Draw {
    pub bound: int,
    pub value: int,
}

/// The record of what was drawn, in order. It is there for contracts only: a
/// result that depends on chance is named by its place in the record. Each
/// drawing is in exactly one record, and no drawing leaves it.
pub struct Draws {
    id: Ghost<int>,
    made: Ghost<Seq<Draw>>,
}

impl View for Draws {
    type V = Seq<Draw>;

    closed spec fn view(&self) -> Seq<Draw> {
        self.made@
    }
}

impl Draws {
    /// Which record this is.
    pub closed spec fn id(&self) -> int {
        self.id@
    }

    /// A record of nothing drawn.
    pub fn new() -> (draws: Draws)
        ensures
            draws@ == Seq::<Draw>::empty(),
    {
        Draws { id: Ghost(0), made: Ghost(Seq::empty()) }
    }
}

/// `rand::random` gives some byte: nothing is known of which one. It is
/// recorded in `draws`.
#[verifier::external_body]
pub(crate) fn random_byte(draws: &mut Draws) -> (byte: u8)
    ensures
        final(draws).id() == old(draws).id(),
        final(draws)@ == old(draws)@.push(Draw { bound: 256, value: byte as int }),
{
    rand::random()
}

/// `Rng::gen_range` on `rand::thread_rng` gives some number of the range from
/// zero to `bound`, the latter excluded. It panics when that range is empty.
/// The number is recorded in `draws`.
#[verifier::external_body]
pub(crate) fn random_below(draws: &mut Draws, bound: usize) -> (number: usize)
    requires
        bound > 0,
    ensures
        number < bound,
        final(draws).id() == old(draws).id(),
        final(draws)@ == old(draws)@.push(Draw { bound: bound as int, value: number as int }),
{
    rand::thread_rng().gen_range(0..bound)
}

} // verus!
