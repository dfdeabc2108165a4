//! The schedule of the blur: a chain of downsampling passes from the image to the smallest
//! mip level, then upsampling passes back to the image, each drawing one level from its
//! neighbour with the uniform record selected by a dynamic offset.

use vstd::prelude::*;
use crate::extent::{level_extent, spec_level_extent, lemma_level_extent_bounded};
use crate::mip::{MipChain, MipLevel, is_mip_chain};
use crate::pipeline::{BlurUniforms, spec_pass_offset};

verus! {

/// Which of the two shader entry points a pass runs.
#[derive(Clone, Copy, Debug, PartialEq, Eq, Structural)]
pub enum PassKind {
    /// Draws level `src + 1` from level `src` (`fs_down`).
    Downsample,
    /// Draws level `dst` from level `dst + 1` (`fs_up`).
    Upsample,
}

/// One render pass: the mip level sampled, the level drawn, the dynamic offset of its
/// uniform record, and the viewport (the extent of the level drawn).
#[derive(Clone, Copy, Debug, PartialEq, Eq, Structural)]
pub struct BlurPass {
    pub kind: PassKind,
    pub src_level: usize,
    pub dst_level: usize,
    pub offset: u32,
    pub viewport_width: u32,
    pub viewport_height: u32,
}

/// Downsampling pass `i`: level `i` into level `i + 1`, with uniform record `i`.
pub open spec fn down_pass(levels: Seq<MipLevel>, i: int, alignment: int) -> BlurPass {
    BlurPass {
        kind: PassKind::Downsample,
        src_level: i as usize,
        dst_level: (i + 1) as usize,
        offset: spec_pass_offset(i, alignment),
        viewport_width: levels[i + 1].width,
        viewport_height: levels[i + 1].height,
    }
}

/// Upsampling pass for level `j`: level `j + 1` into level `j`, with uniform record `j + 1`.
pub open spec fn up_pass(levels: Seq<MipLevel>, j: int, alignment: int) -> BlurPass {
    BlurPass {
        kind: PassKind::Upsample,
        src_level: (j + 1) as usize,
        dst_level: j as usize,
        offset: spec_pass_offset(j + 1, alignment),
        viewport_width: levels[j].width,
        viewport_height: levels[j].height,
    }
}

/// The passes in the order they are recorded: down passes `0..passes`, then up passes
/// for levels `passes - 1` down to `0`.
pub open spec fn blur_schedule(levels: Seq<MipLevel>, passes: nat, alignment: int) -> Seq<BlurPass> {
    Seq::new(2 * passes, |t: int|
        if t < passes { down_pass(levels, t, alignment) } else { up_pass(levels, 2 * passes - 1 - t, alignment) })
}

/// What a blur needs besides the GPU objects: the uniform records of its passes.
pub struct BlurCtx<'a> {
    pub blur_params: &'a BlurUniforms,
}

impl<'a> BlurCtx<'a> {
    pub fn new(blur_params: &'a BlurUniforms) -> (ctx: BlurCtx<'a>)
        ensures
            ctx.blur_params == blur_params,
    {
        BlurCtx { blur_params }
    }

    /// The passes of a blur of `passes` levels over `mip_chain`: downsampling pass `i`
    /// draws level `i + 1` from level `i` with the record at `offset_for_pass(i)`;
    /// upsampling pass `j` (for `j` from `passes - 1` down to `0`) draws level `j` from
    /// level `j + 1` with the record at `offset_for_pass(j + 1)`.
    pub fn execute(&self, passes: usize, mip_chain: &MipChain) -> (plan: Vec<BlurPass>)
        requires
            passes == 0 || passes < mip_chain.levels@.len(),
            (passes as int) * (self.blur_params.alignment as int) <= usize::MAX,
        ensures
            plan@ == blur_schedule(mip_chain.levels@, passes as nat, self.blur_params.alignment as int),
    {
        let ghost levels = mip_chain.levels@;
        let ghost a = self.blur_params.alignment as int;
        let mut plan: Vec<BlurPass> = Vec::new();
        let mut i: usize = 0;
        while i < passes
            invariant
                levels == mip_chain.levels@,
                a == self.blur_params.alignment,
                passes == 0 || passes < levels.len(),
                (passes as int) * a <= usize::MAX,
                i <= passes,
                plan@.len() == i,
                forall|t: int| 0 <= t < i ==> #[trigger] plan@[t] == down_pass(levels, t, a),
            decreases passes - i,
        {
            assert((i as int) * a <= (passes as int) * a) by (nonlinear_arith)
                requires
                    i <= passes,
                    a >= 0,
            ;
            let dst = &mip_chain.levels[i + 1];
            let pass = BlurPass {
                kind: PassKind::Downsample,
                src_level: i,
                dst_level: i + 1,
                offset: self.blur_params.offset_for_pass(i),
                viewport_width: dst.width,
                viewport_height: dst.height,
            };
            plan.push(pass);
            i = i + 1;
        }
        let mut j: usize = passes;
        while j > 0
            invariant
                levels == mip_chain.levels@,
                a == self.blur_params.alignment,
                passes == 0 || passes < levels.len(),
                (passes as int) * a <= usize::MAX,
                j <= passes,
                plan@.len() == 2 * passes - j,
                forall|t: int| 0 <= t < passes ==> #[trigger] plan@[t] == down_pass(levels, t, a),
                forall|t: int| passes <= t < 2 * passes - j ==> #[trigger] plan@[t] == up_pass(levels, 2 * passes - 1 - t, a),
            decreases j,
        {
            j = j - 1;
            assert(((j + 1) as int) * a <= (passes as int) * a) by (nonlinear_arith)
                requires
                    j < passes,
                    a >= 0,
            ;
            let dst = &mip_chain.levels[j];
            let pass = BlurPass {
                kind: PassKind::Upsample,
                src_level: j + 1,
                dst_level: j,
                offset: self.blur_params.offset_for_pass(j + 1),
                viewport_width: dst.width,
                viewport_height: dst.height,
            };
            plan.push(pass);
        }
        assert(plan@ =~= blur_schedule(levels, passes as nat, a));
        plan
    }
}


/// Downsampling pass `i` of a blur recorded straight from the image extent `dims`.
pub open spec fn direct_down_pass(dims: (u32, u32), i: int, alignment: int) -> BlurPass {
    BlurPass {
        kind: PassKind::Downsample,
        src_level: i as usize,
        dst_level: (i + 1) as usize,
        offset: spec_pass_offset(i, alignment),
        viewport_width: spec_level_extent(dims.0, (i + 1) as nat) as u32,
        viewport_height: spec_level_extent(dims.1, (i + 1) as nat) as u32,
    }
}

/// Upsampling pass for level `j` of a blur recorded straight from the image extent,
/// using uniform record `j`.
pub open spec fn direct_up_pass(dims: (u32, u32), j: int, alignment: int) -> BlurPass {
    BlurPass {
        kind: PassKind::Upsample,
        src_level: (j + 1) as usize,
        dst_level: j as usize,
        offset: spec_pass_offset(j, alignment),
        viewport_width: spec_level_extent(dims.0, j as nat) as u32,
        viewport_height: spec_level_extent(dims.1, j as nat) as u32,
    }
}

/// The passes of `pass_plan`, in recording order.
pub open spec fn direct_schedule(dims: (u32, u32), passes: nat, alignment: int) -> Seq<BlurPass> {
    Seq::new(2 * passes, |t: int|
        if t < passes { direct_down_pass(dims, t, alignment) } else { direct_up_pass(dims, 2 * passes - 1 - t, alignment) })
}

/// The passes of a blur of `passes` levels of an image of `dims`, without a mip chain at
/// hand: the viewport of each pass is `(extent >> level).max(1)` of the level drawn, and
/// both the down pass from level `i` and the up pass into level `i` use the uniform
/// record at `i * alignment`.
pub fn pass_plan(dims: (u32, u32), passes: usize, alignment: usize) -> (plan: Vec<BlurPass>)
    requires
        passes < 32,
        passes == 0 || ((passes - 1) as int) * (alignment as int) <= usize::MAX,
    ensures
        plan@ == direct_schedule(dims, passes as nat, alignment as int),
{
    let ghost a = alignment as int;
    let mut plan: Vec<BlurPass> = Vec::new();
    let mut i: usize = 0;
    while i < passes
        invariant
            a == alignment,
            passes < 32,
            passes == 0 || ((passes - 1) as int) * a <= usize::MAX,
            i <= passes,
            plan@.len() == i,
            forall|t: int| 0 <= t < i ==> #[trigger] plan@[t] == direct_down_pass(dims, t, a),
        decreases passes - i,
    {
        assert((i as int) * a <= ((passes - 1) as int) * a) by (nonlinear_arith)
            requires
                i < passes,
                a >= 0,
        ;
        let pass = BlurPass {
            kind: PassKind::Downsample,
            src_level: i,
            dst_level: i + 1,
            offset: (i * alignment) as u32,
            viewport_width: level_extent(dims.0, i + 1),
            viewport_height: level_extent(dims.1, i + 1),
        };
        plan.push(pass);
        i = i + 1;
    }
    let mut j: usize = passes;
    while j > 0
        invariant
            a == alignment,
            passes < 32,
            passes == 0 || ((passes - 1) as int) * a <= usize::MAX,
            j <= passes,
            plan@.len() == 2 * passes - j,
            forall|t: int| 0 <= t < passes ==> #[trigger] plan@[t] == direct_down_pass(dims, t, a),
            forall|t: int| passes <= t < 2 * passes - j ==> #[trigger] plan@[t] == direct_up_pass(dims, 2 * passes - 1 - t, a),
        decreases j,
    {
        j = j - 1;
        assert((j as int) * a <= ((passes - 1) as int) * a) by (nonlinear_arith)
            requires
                j < passes,
                a >= 0,
        ;
        let pass = BlurPass {
            kind: PassKind::Upsample,
            src_level: j + 1,
            dst_level: j,
            offset: (j * alignment) as u32,
            viewport_width: level_extent(dims.0, j),
            viewport_height: level_extent(dims.1, j),
        };
        plan.push(pass);
    }
    assert(plan@ =~= direct_schedule(dims, passes as nat, a));
    plan
}

/// Each pass samples the level that the previous pass drew, the blur starts from the
/// image (level 0) and it ends by drawing the image again.
pub proof fn lemma_schedule_chains(levels: Seq<MipLevel>, passes: nat, alignment: int)
    ensures
        forall|t: int| 0 <= t < 2 * passes - 1 ==>
            (#[trigger] blur_schedule(levels, passes, alignment)[t]).dst_level
                == blur_schedule(levels, passes, alignment)[t + 1].src_level,
        passes > 0 ==> blur_schedule(levels, passes, alignment)[0].src_level == 0,
        passes > 0 ==> blur_schedule(levels, passes, alignment)[2 * passes - 1].dst_level == 0,
{
}

/// The upsampling half retraces the downsampling half backwards: the `i`-th pass from the
/// end draws the level that the `i`-th pass samples, from the level that pass draws.
pub proof fn lemma_schedule_mirrors(levels: Seq<MipLevel>, passes: nat, alignment: int)
    ensures
        forall|i: int| 0 <= i < passes ==> {
            &&& (#[trigger] blur_schedule(levels, passes, alignment)[i]).kind == PassKind::Downsample
            &&& blur_schedule(levels, passes, alignment)[2 * passes - 1 - i].kind == PassKind::Upsample
            &&& blur_schedule(levels, passes, alignment)[2 * passes - 1 - i].src_level
                == blur_schedule(levels, passes, alignment)[i].dst_level
            &&& blur_schedule(levels, passes, alignment)[2 * passes - 1 - i].dst_level
                == blur_schedule(levels, passes, alignment)[i].src_level
        },
{
}

/// Every pass draws over the whole of the level it draws, and never leaves the
/// `passes + 1` levels of the chain.
pub proof fn lemma_schedule_viewports(levels: Seq<MipLevel>, dims: (u32, u32), passes: nat, alignment: int)
    requires
        is_mip_chain(levels, dims, passes),
        passes < usize::MAX,
    ensures
        forall|t: int| 0 <= t < 2 * passes ==> {
            let p = #[trigger] blur_schedule(levels, passes, alignment)[t];
            &&& p.src_level <= passes && p.dst_level <= passes
            &&& p.viewport_width == spec_level_extent(dims.0, p.dst_level as nat)
            &&& p.viewport_height == spec_level_extent(dims.1, p.dst_level as nat)
        },
{
    assert forall|t: int| 0 <= t < 2 * passes implies {
        let p = #[trigger] blur_schedule(levels, passes, alignment)[t];
        &&& p.src_level <= passes && p.dst_level <= passes
        &&& p.viewport_width == spec_level_extent(dims.0, p.dst_level as nat)
        &&& p.viewport_height == spec_level_extent(dims.1, p.dst_level as nat)
    } by {
        let p = blur_schedule(levels, passes, alignment)[t];
        let d = p.dst_level as int;
        assert(levels[d].width == spec_level_extent(dims.0, d as nat));
    }
}

/// The schedule recorded over a mip chain and the one recorded from the image extent
/// visit the same levels in the same order with the same viewports, and agree on the
/// records of the downsampling passes; the upsampling pass into level `j` reads record
/// `j + 1` in the first and record `j` in the second.
pub proof fn lemma_schedules_agree(levels: Seq<MipLevel>, dims: (u32, u32), passes: nat, alignment: int)
    requires
        is_mip_chain(levels, dims, passes),
        passes < usize::MAX,
    ensures
        forall|t: int| 0 <= t < 2 * passes ==> {
            let p = #[trigger] blur_schedule(levels, passes, alignment)[t];
            let q = direct_schedule(dims, passes, alignment)[t];
            &&& p.kind == q.kind
            &&& p.src_level == q.src_level
            &&& p.dst_level == q.dst_level
            &&& p.viewport_width == q.viewport_width
            &&& p.viewport_height == q.viewport_height
            &&& t < passes ==> p.offset == q.offset
            &&& t >= passes ==> p.offset == spec_pass_offset(q.dst_level + 1, alignment)
            &&& t >= passes ==> q.offset == spec_pass_offset(q.dst_level as int, alignment)
        },
{
    assert forall|t: int| 0 <= t < 2 * passes implies {
        let p = #[trigger] blur_schedule(levels, passes, alignment)[t];
        let q = direct_schedule(dims, passes, alignment)[t];
        &&& p.kind == q.kind
        &&& p.src_level == q.src_level
        &&& p.dst_level == q.dst_level
        &&& p.viewport_width == q.viewport_width
        &&& p.viewport_height == q.viewport_height
        &&& t < passes ==> p.offset == q.offset
        &&& t >= passes ==> p.offset == spec_pass_offset(q.dst_level + 1, alignment)
        &&& t >= passes ==> q.offset == spec_pass_offset(q.dst_level as int, alignment)
    } by {
        let d: int = if t < passes { t + 1 } else { 2 * passes - 1 - t };
        lemma_level_extent_bounded(dims.0, d as nat);
        lemma_level_extent_bounded(dims.1, d as nat);
        assert(levels[d].width == spec_level_extent(dims.0, d as nat));
        assert(levels[d].height == spec_level_extent(dims.1, d as nat));
    }
}


/// In a uniform buffer of `passes` records at a stride of `alignment`, the record that a
/// pass selects starts at its dynamic offset and ends inside the buffer for every pass of
/// the schedule recorded from the image extent, and for every pass of the schedule over a
/// mip chain except the upsampling pass into level `passes - 1`, which selects record
/// `passes`.
pub proof fn lemma_records_inside_buffer(levels: Seq<MipLevel>, dims: (u32, u32), passes: nat, alignment: int)
    requires
        alignment >= 0,
        (passes as int) * alignment <= u32::MAX,
    ensures
        forall|t: int| 0 <= t < 2 * passes ==>
            (#[trigger] direct_schedule(dims, passes, alignment)[t]).offset as int + alignment <= (passes as int) * alignment,
        forall|t: int| 0 <= t < 2 * passes && t != passes ==>
            (#[trigger] blur_schedule(levels, passes, alignment)[t]).offset as int + alignment <= (passes as int) * alignment,
{
    assert forall|t: int| 0 <= t < 2 * passes implies
        (#[trigger] direct_schedule(dims, passes, alignment)[t]).offset as int + alignment <= (passes as int) * alignment by {
        let r: int = if t < passes { t } else { 2 * passes - 1 - t };
        assert(r * alignment + alignment <= (passes as int) * alignment) by (nonlinear_arith)
            requires
                0 <= r < passes,
                alignment >= 0,
        ;
    }
    assert forall|t: int| 0 <= t < 2 * passes && t != passes implies
        (#[trigger] blur_schedule(levels, passes, alignment)[t]).offset as int + alignment <= (passes as int) * alignment by {
        let r: int = if t < passes { t } else { 2 * passes - t };
        assert(r * alignment + alignment <= (passes as int) * alignment) by (nonlinear_arith)
            requires
                0 <= r < passes,
                alignment >= 0,
        ;
    }
}

} // verus!
