use gpu_blur::pipeline::{BlurParams, BlurUniforms};

fn native_words(words: [u32; 4]) -> Vec<u8> {
    words.iter().flat_map(|w| w.to_ne_bytes()).collect()
}

#[test]
fn params_bytes_are_the_four_words() {
    let p = BlurParams::new([0.5f32.to_bits(), 0.25f32.to_bits()], 2.0f32.to_bits());
    assert_eq!(p.padding, 0);
    let bytes = p.to_bytes();
    assert_eq!(bytes.len(), 16);
    assert_eq!(bytes, native_words([0.5f32.to_bits(), 0.25f32.to_bits(), 2.0f32.to_bits(), 0]));
}

#[test]
fn uniform_records_padded_to_alignment() {
    let a = BlurParams::new([1, 2], 3);
    let b = BlurParams::new([4, 5], 6);
    let u = BlurUniforms::new(&vec![a, b], 32);
    assert_eq!(u.alignment, 32);
    assert_eq!(u.contents.len(), 64);
    assert_eq!(&u.contents[0..16], &native_words([1, 2, 3, 0])[..]);
    assert_eq!(&u.contents[16..32], &[0u8; 16][..]);
    assert_eq!(&u.contents[32..48], &native_words([4, 5, 6, 0])[..]);
    assert_eq!(&u.contents[48..64], &[0u8; 16][..]);
}

#[test]
fn uniform_records_cut_to_short_alignment() {
    let a = BlurParams::new([1, 2], 3);
    let b = BlurParams::new([4, 5], 6);
    let u = BlurUniforms::new(&vec![a, b], 8);
    assert_eq!(u.contents.len(), 16);
    assert_eq!(&u.contents[0..8], &native_words([1, 2, 3, 0])[0..8]);
    assert_eq!(&u.contents[8..16], &native_words([4, 5, 6, 0])[0..8]);
}

#[test]
fn uniforms_without_records_are_empty() {
    let u = BlurUniforms::new(&vec![], 256);
    assert!(u.contents.is_empty());
}

#[test]
fn offset_for_pass_is_index_times_alignment() {
    let u = BlurUniforms::new(&vec![], 256);
    assert_eq!(u.offset_for_pass(0), 0);
    assert_eq!(u.offset_for_pass(3), 768);
}

#[test]
fn offset_for_pass_truncates_to_u32() {
    let u = BlurUniforms { contents: Vec::new(), alignment: 1usize << 31 };
    assert_eq!(u.offset_for_pass(1), 1u32 << 31);
    if usize::BITS == 64 {
        assert_eq!(u.offset_for_pass(3), 1u32 << 31);
    }
}
