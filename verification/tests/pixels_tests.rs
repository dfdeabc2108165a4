use gpu_blur::pixels::{copy_rgb_rows, rgb_to_rgba, unpad_rows};

#[test]
fn rgb_widened_to_opaque_rgba() {
    let rgba = rgb_to_rgba(&[1, 2, 3, 4, 5, 6], 2, 1);
    assert_eq!(rgba, vec![1, 2, 3, 255, 4, 5, 6, 255]);
}

#[test]
fn rgb_rows_keep_their_pixels() {
    let rgb: Vec<u8> = (0..12).collect();
    let rgba = rgb_to_rgba(&rgb, 2, 2);
    assert_eq!(rgba, vec![0, 1, 2, 255, 3, 4, 5, 255, 6, 7, 8, 255, 9, 10, 11, 255]);
}

#[test]
fn rgb_short_input_leaves_zero_pixels() {
    let rgba = rgb_to_rgba(&[9, 8, 7, 6], 2, 1);
    assert_eq!(rgba, vec![9, 8, 7, 255, 0, 0, 0, 0]);
    let empty = rgb_to_rgba(&[], 1, 2);
    assert_eq!(empty, vec![0; 8]);
}

#[test]
fn unpad_strips_row_padding() {
    let mapped = vec![1, 2, 3, 4, 90, 91, 92, 93, 5, 6, 7, 8, 94, 95, 96, 97];
    assert_eq!(unpad_rows(&mapped, 1, 2, 8), vec![1, 2, 3, 4, 5, 6, 7, 8]);
}

#[test]
fn unpad_without_padding_returns_read_back() {
    let mapped = vec![1, 2, 3, 4, 5, 6, 7, 8, 9];
    assert_eq!(unpad_rows(&mapped, 1, 2, 4), mapped);
}

#[test]
fn unpad_missing_rows_are_zero() {
    let mapped = vec![1, 2, 3, 4, 0, 0, 0, 0];
    assert_eq!(unpad_rows(&mapped, 1, 3, 8), vec![1, 2, 3, 4, 0, 0, 0, 0, 0, 0, 0, 0]);
}

#[test]
fn unpad_recovers_padded_image() {
    let image: Vec<u8> = (1..=24).collect();
    let (width, height, padded) = (2u32, 3u32, 16u32);
    let mut mapped = vec![0xAAu8; (padded * height) as usize];
    for r in 0..height as usize {
        let row = 4 * width as usize;
        mapped[r * padded as usize..r * padded as usize + row].copy_from_slice(&image[r * row..(r + 1) * row]);
    }
    assert_eq!(unpad_rows(&mapped, width, height, padded), image);
}

#[test]
fn copy_rgb_rows_drops_alpha_into_existing_rows() {
    let mapped = vec![1, 2, 3, 4, 5, 6, 7, 8, 0, 0, 9, 10, 11, 12, 13, 14, 15, 16, 0, 0];
    let mut out = vec![0u8; 12];
    copy_rgb_rows(&mapped, 10, 2, &mut out);
    assert_eq!(out, vec![1, 2, 3, 5, 6, 7, 9, 10, 11, 13, 14, 15]);
}

#[test]
fn copy_rgb_rows_stops_where_out_ends() {
    let mapped = vec![1, 2, 3, 4, 5, 6, 7, 8];
    let mut out = vec![99u8; 4];
    copy_rgb_rows(&mapped, 8, 2, &mut out);
    assert_eq!(out, vec![1, 2, 3, 99]);
    let mut empty: Vec<u8> = Vec::with_capacity(6);
    copy_rgb_rows(&mapped, 8, 2, &mut empty);
    assert!(empty.is_empty());
}
