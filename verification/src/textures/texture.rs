use vstd::prelude::*;

verus! {

/// A colour that varies over a surface: the colour at point `p` with surface coordinates
/// `uv`.
pub trait Texture<P, U, C> {
    /// Whether `c` is a colour that the texture gives at `p`, `uv`.
    spec fn spec_value_is(&self, p: P, uv: U, c: C) -> bool;

    fn value(&self, p: P, uv: U) -> (c: C)
        ensures
            self.spec_value_is(p, uv, c),
    ;
}

} // verus!
