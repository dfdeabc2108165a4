use gpu_blur::blur::{pass_plan, BlurCtx, BlurPass, PassKind};
use gpu_blur::mip::MipChain;
use gpu_blur::pipeline::{BlurParams, BlurUniforms};

fn uniforms(records: usize, alignment: usize) -> BlurUniforms {
    BlurUniforms::new(&vec![BlurParams::new([0, 0], 0); records], alignment)
}

#[test]
fn execute_walks_down_then_up() {
    let chain = MipChain::new((64, 32), 2);
    let u = uniforms(2, 256);
    let ctx = BlurCtx::new(&u);
    let plan = ctx.execute(2, &chain);
    let pass = |kind, src_level, dst_level, offset, viewport_width, viewport_height| BlurPass {
        kind, src_level, dst_level, offset, viewport_width, viewport_height,
    };
    assert_eq!(plan, vec![
        pass(PassKind::Downsample, 0, 1, 0, 32, 16),
        pass(PassKind::Downsample, 1, 2, 256, 16, 8),
        pass(PassKind::Upsample, 2, 1, 512, 32, 16),
        pass(PassKind::Upsample, 1, 0, 256, 64, 32),
    ]);
}

#[test]
fn execute_passes_chain_from_image_back_to_image() {
    let chain = MipChain::new((640, 480), 5);
    let u = uniforms(5, 256);
    let plan = BlurCtx::new(&u).execute(5, &chain);
    assert_eq!(plan.len(), 10);
    assert_eq!(plan[0].src_level, 0);
    assert_eq!(plan[9].dst_level, 0);
    for t in 0..9 {
        assert_eq!(plan[t].dst_level, plan[t + 1].src_level);
    }
    for i in 0..5 {
        assert_eq!(plan[9 - i].src_level, plan[i].dst_level);
        assert_eq!(plan[9 - i].dst_level, plan[i].src_level);
    }
    for p in &plan {
        let level = chain.levels[p.dst_level];
        assert_eq!((p.viewport_width, p.viewport_height), (level.width, level.height));
    }
}

#[test]
fn execute_without_passes_records_nothing() {
    let chain = MipChain::new((8, 8), 0);
    let u = uniforms(0, 256);
    assert!(BlurCtx::new(&u).execute(0, &chain).is_empty());
}

#[test]
fn pass_plan_uses_record_of_lower_level() {
    let plan = pass_plan((64, 32), 2, 256);
    let pass = |kind, src_level, dst_level, offset, viewport_width, viewport_height| BlurPass {
        kind, src_level, dst_level, offset, viewport_width, viewport_height,
    };
    assert_eq!(plan, vec![
        pass(PassKind::Downsample, 0, 1, 0, 32, 16),
        pass(PassKind::Downsample, 1, 2, 256, 16, 8),
        pass(PassKind::Upsample, 2, 1, 256, 32, 16),
        pass(PassKind::Upsample, 1, 0, 0, 64, 32),
    ]);
}

#[test]
fn both_schedules_visit_the_same_levels() {
    let chain = MipChain::new((300, 7), 4);
    let u = uniforms(4, 64);
    let a = BlurCtx::new(&u).execute(4, &chain);
    let b = pass_plan((300, 7), 4, 64);
    assert_eq!(a.len(), b.len());
    for t in 0..a.len() {
        assert_eq!((a[t].kind, a[t].src_level, a[t].dst_level), (b[t].kind, b[t].src_level, b[t].dst_level));
        assert_eq!((a[t].viewport_width, a[t].viewport_height), (b[t].viewport_width, b[t].viewport_height));
    }
}

#[test]
fn pass_plan_records_stay_inside_buffer() {
    let (passes, alignment) = (6usize, 256usize);
    for p in pass_plan((1024, 1024), passes, alignment) {
        assert!(p.offset as usize + alignment <= passes * alignment);
    }
}

#[test]
fn execute_without_passes_over_empty_chain_records_nothing() {
    let chain = MipChain { levels: Vec::new() };
    let u = uniforms(0, 256);
    assert!(BlurCtx::new(&u).execute(0, &chain).is_empty());
}
