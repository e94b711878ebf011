use random_fast_rng::{local_rng, Random};
use vstd::prelude::*;

verus! {

/// A fresh random number from this thread's generator.
///
/// Calls `get_u32` on `random_fast_rng::local_rng()`, the thread's PCG32 generator, which
/// the first call on a thread seeds from the system clock. Nothing is claimed of the
/// value: any `u32` may come back, and two calls may give different values.
#[verifier::external_body]
pub(crate) fn random_u32() -> (r: u32) {
    local_rng().get_u32()
}

/// Moves the items of `items` into a vector that gives them back in order when popped.
pub(crate) fn reversed<P>(items: Vec<P>) -> (r: Vec<P>)
    ensures
        r@.reverse() == items@,
{
    let ghost given = items@;
    let mut items = items;
    let mut rest: Vec<P> = Vec::new();
    while items.len() > 0
        invariant
            items@ + rest@.reverse() == given,
        decreases items@.len(),
    {
        let ghost before_rest = rest@;
        let ghost before_items = items@;
        let p = items.pop().unwrap();
        rest.push(p);
        proof {
            assert(before_items =~= items@.push(p));
            assert(rest@.reverse() =~= seq![p] + before_rest.reverse());
            assert(items@ + rest@.reverse() =~= before_items + before_rest.reverse());
        }
    }
    proof {
        assert(items@ + rest@.reverse() =~= rest@.reverse());
    }
    rest
}

} // verus!
