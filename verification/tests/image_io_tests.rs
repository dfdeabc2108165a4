use gpu_blur::error::BlurError;
use gpu_blur::image_io::{encode_output_image, encode_output_qoi, process_images, InputImage, Loaded, OutputImage};

fn png_bytes(width: u32, height: u32, rgba: Vec<u8>) -> Vec<u8> {
    let img = image::RgbaImage::from_raw(width, height, rgba).unwrap();
    let mut out = std::io::Cursor::new(Vec::new());
    image::DynamicImage::ImageRgba8(img).write_to(&mut out, image::ImageFormat::Png).unwrap();
    out.into_inner()
}

#[test]
fn load_decodes_png_to_rgba() {
    let pixels: Vec<u8> = vec![10, 20, 30, 255, 40, 50, 60, 128, 70, 80, 90, 0, 1, 2, 3, 4, 5, 6, 7, 8, 9, 10, 11, 12];
    let data = png_bytes(3, 2, pixels.clone());
    match InputImage::load(&data) {
        Ok(Loaded::Decoded(img)) => {
            assert_eq!((img.width, img.height), (3, 2));
            assert!(img.bytes.len() >= 4 * 3 * 2);
            assert_eq!(img.bytes, pixels);
        }
        _ => panic!("png not decoded"),
    }
}

#[test]
fn load_recognises_qoz_magic() {
    let data = b"QOZ1 anything after the magic".to_vec();
    assert!(matches!(InputImage::load(&data), Ok(Loaded::Qoz)));
}

#[test]
fn load_refuses_unknown_data() {
    assert!(matches!(InputImage::load(b"QOZ"), Err(BlurError::Image(_))));
    assert!(matches!(InputImage::load(&[0u8; 32]), Err(BlurError::Image(_))));
}

#[test]
fn from_qoz_widens_three_channels() {
    let img = InputImage::from_qoz(2, 1, 3, vec![1, 2, 3, 4, 5, 6]);
    assert_eq!(img.bytes, vec![1, 2, 3, 255, 4, 5, 6, 255]);
    assert_eq!((img.width, img.height), (2, 1));
}

#[test]
fn from_qoz_keeps_four_channels() {
    let img = InputImage::from_qoz(1, 1, 4, vec![1, 2, 3, 4]);
    assert_eq!(img.bytes, vec![1, 2, 3, 4]);
}

#[test]
fn process_images_decodes_qoi() {
    let rgb: Vec<u8> = vec![200, 100, 50, 1, 2, 3];
    let data = qoi::encode_to_vec(&rgb, 2, 1).unwrap();
    let img = process_images(&data).unwrap();
    assert_eq!((img.width, img.height), (2, 1));
    assert_eq!(img.bytes.len(), 8);
    assert_eq!(img.bytes, vec![200, 100, 50, 255, 1, 2, 3, 255]);
}

#[test]
fn process_images_keeps_four_channels() {
    let rgba: Vec<u8> = vec![1, 2, 3, 4, 5, 6, 7, 8, 9, 10, 11, 12];
    let data = qoi::encode_to_vec(&rgba, 1, 3).unwrap();
    let img = process_images(&data).unwrap();
    assert_eq!((img.width, img.height), (1, 3));
    assert_eq!(img.bytes, rgba);
}

#[test]
fn process_images_refuses_bad_header() {
    assert!(matches!(process_images(b"qoif"), Err(BlurError::Qoi(_))));
    let mut data = qoi::encode_to_vec(&[1u8, 2, 3, 4], 1, 1).unwrap();
    data[0] = b'x';
    assert!(matches!(process_images(&data), Err(BlurError::Qoi(_))));
}

#[test]
fn encode_output_png_round_trips() {
    let image: Vec<u8> = (0..16).map(|i| (i * 13) as u8).collect();
    let mut mapped = vec![0u8; 2 * 256];
    mapped[0..8].copy_from_slice(&image[0..8]);
    mapped[256..264].copy_from_slice(&image[8..16]);
    match encode_output_image(&mapped, (2, 2), 256, "blurred.png") {
        Ok(OutputImage::Encoded(bytes)) => {
            assert_ne!(bytes, image);
            let decoded = image::load_from_memory(&bytes).unwrap().into_rgba8();
            assert_eq!(decoded.into_raw(), image);
        }
        _ => panic!("png not encoded"),
    }
}

#[test]
fn encode_output_unknown_extension_goes_to_qoz() {
    let mapped: Vec<u8> = (0..8).collect();
    match encode_output_image(&mapped, (2, 1), 8, "blurred.qoz") {
        Ok(OutputImage::Qoz(px)) => assert_eq!(px, mapped),
        _ => panic!("expected QOZ pixels"),
    }
}

#[test]
fn encode_output_short_read_back_has_no_buffer() {
    let mapped: Vec<u8> = vec![1, 2, 3, 4];
    assert!(matches!(encode_output_image(&mapped, (2, 1), 8, "out.png"), Err(BlurError::ImageBuffer)));
}

#[test]
fn encode_output_qoi_refuses_and_keeps_buffer() {
    let mapped = vec![7u8; 512];
    let mut out = vec![5u8; 64];
    assert!(matches!(encode_output_qoi(&mapped, (2, 2), 256, &mut out), Err(BlurError::Qoi(_))));
    assert_eq!(out, vec![5u8; 64]);
}
