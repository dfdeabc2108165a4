use gpu_blur::extent::{level_extent, padded_width_in_bytes, qoi_output_file_len, readback_buffer_size};
use gpu_blur::mip::MipChain;

#[test]
fn level_extent_halves_per_level() {
    assert_eq!(level_extent(1920, 0), 1920);
    assert_eq!(level_extent(1920, 1), 960);
    assert_eq!(level_extent(1920, 3), 240);
    assert_eq!(level_extent(1081, 1), 540);
}

#[test]
fn level_extent_never_below_one() {
    assert_eq!(level_extent(5, 3), 1);
    assert_eq!(level_extent(1, 31), 1);
    assert_eq!(level_extent(0, 0), 1);
}

#[test]
fn padded_width_rounds_up_to_alignment() {
    assert_eq!(padded_width_in_bytes(100, 256), 512);
    assert_eq!(padded_width_in_bytes(64, 256), 256);
    assert_eq!(padded_width_in_bytes(65, 256), 512);
    assert_eq!(padded_width_in_bytes(0, 256), 0);
    assert_eq!(padded_width_in_bytes(3, 1), 12);
}

#[test]
fn buffer_sizes() {
    assert_eq!(readback_buffer_size(512, 3), 1536);
    assert_eq!(qoi_output_file_len(2, 3), 46);
}

#[test]
fn mip_chain_levels() {
    let chain = MipChain::new((1920, 1080), 3);
    let dims: Vec<(u32, u32)> = chain.levels.iter().map(|l| (l.width, l.height)).collect();
    assert_eq!(dims, vec![(1920, 1080), (960, 540), (480, 270), (240, 135)]);
}

#[test]
fn mip_chain_each_level_halves_previous() {
    let chain = MipChain::new((1000, 3), 6);
    assert_eq!(chain.levels.len(), 7);
    for i in 0..6 {
        let (a, b) = (chain.levels[i], chain.levels[i + 1]);
        assert_eq!(b.width, (a.width / 2).max(1));
        assert_eq!(b.height, (a.height / 2).max(1));
    }
    assert_eq!(chain.levels[6].height, 1);
}

#[test]
fn mip_chain_without_passes_is_the_image() {
    let chain = MipChain::new((7, 9), 0);
    assert_eq!(chain.levels.len(), 1);
    assert_eq!((chain.levels[0].width, chain.levels[0].height), (7, 9));
}

#[test]
fn padded_width_at_the_top_of_the_range() {
    assert_eq!(padded_width_in_bytes(1073741760, 256), 4294967040);
    assert_eq!(padded_width_in_bytes(1073741759, 4), 4294967036);
}
