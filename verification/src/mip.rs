//! The mip chain that the blur walks down and back up: level 0 is the image itself and
//! each further level is half the size of the previous one.

use vstd::prelude::*;
use crate::extent::{level_extent, spec_level_extent, lemma_level_extent_halves};

verus! {

/// Extent of one level of the mip chain.
#[derive(Clone, Copy, Debug, PartialEq, Eq, Structural)]
pub struct MipLevel {
    pub width: u32,
    pub height: u32,
}

/// The levels of a mip chain, level 0 first.
pub struct MipChain {
    pub levels: Vec<MipLevel>,
}

/// Whether `levels` are the `passes + 1` levels of the mip chain of a `dims` image.
pub open spec fn is_mip_chain(levels: Seq<MipLevel>, dims: (u32, u32), passes: nat) -> bool {
    &&& levels.len() == passes + 1
    &&& forall|i: int| 0 <= i <= passes ==> {
        &&& #[trigger] levels[i].width == spec_level_extent(dims.0, i as nat)
        &&& levels[i].height == spec_level_extent(dims.1, i as nat)
    }
}

impl MipChain {
    /// The `passes + 1` levels for an image of `dims`: level `i` is `(width >> i).max(1)`
    /// by `(height >> i).max(1)`.
    pub fn new(dims: (u32, u32), passes: usize) -> (chain: MipChain)
        requires
            passes < 32,
        ensures
            is_mip_chain(chain.levels@, dims, passes as nat),
    {
        let (width, height) = dims;
        let mut levels: Vec<MipLevel> = Vec::new();
        let mut i: usize = 0;
        while i <= passes
            invariant
                passes < 32,
                i <= passes + 1,
                levels@.len() == i,
                forall|q: int| 0 <= q < i ==> {
                    &&& #[trigger] levels@[q].width == spec_level_extent(width, q as nat)
                    &&& levels@[q].height == spec_level_extent(height, q as nat)
                },
            decreases passes + 1 - i,
        {
            let level = MipLevel { width: level_extent(width, i), height: level_extent(height, i) };
            levels.push(level);
            i = i + 1;
        }
        MipChain { levels }
    }
}

/// Each level of a mip chain is half the size of the previous one, rounded down but never
/// below one texel, and level 0 is the image itself (a zero extent counting as one).
pub proof fn lemma_mip_chain_halves(levels: Seq<MipLevel>, dims: (u32, u32), passes: nat, i: int)
    requires
        is_mip_chain(levels, dims, passes),
        0 <= i < passes,
    ensures
        levels[i + 1].width == if levels[i].width / 2 == 0 { 1 } else { levels[i].width / 2 },
        levels[i + 1].height == if levels[i].height / 2 == 0 { 1 } else { levels[i].height / 2 },
        levels[0].width == if dims.0 == 0 { 1 } else { dims.0 as nat },
        levels[0].height == if dims.1 == 0 { 1 } else { dims.1 as nat },
{
    lemma_level_extent_halves(dims.0, i as nat);
    lemma_level_extent_halves(dims.1, i as nat);
    assert(levels[i + 1].width == spec_level_extent(dims.0, (i + 1) as nat));
    assert(levels[0].width == spec_level_extent(dims.0, 0));
}

} // verus!
