use image::{GrayImage, ImageFormat, Luma};
use skagit_flats::frame::{frame_from_image, pack_luma};
use std::io::Cursor;

fn png(img: &GrayImage) -> Vec<u8> {
    let mut bytes = Vec::new();
    img.write_to(&mut Cursor::new(&mut bytes), ImageFormat::Png).unwrap();
    bytes
}

#[test]
fn pack_luma_thresholds_at_128() {
    // 3×2 image, row-major
    let luma = vec![0u8, 127, 128, 255, 10, 200];
    let buf = pack_luma(4, 3, 3, 2, &luma);
    assert_eq!((buf.width, buf.height), (4, 3));
    assert!(buf.get_pixel(0, 0));
    assert!(buf.get_pixel(1, 0));
    assert!(!buf.get_pixel(2, 0));
    assert!(!buf.get_pixel(0, 1));
    assert!(buf.get_pixel(1, 1));
    assert!(!buf.get_pixel(2, 1));
    // off the image: white
    assert!(!buf.get_pixel(3, 0));
    assert!(!buf.get_pixel(0, 2));
}

#[test]
fn pack_luma_crops_larger_images() {
    let luma = vec![0u8; 16];
    let buf = pack_luma(2, 2, 4, 4, &luma);
    assert_eq!(buf.pixels.len(), 1);
    assert_eq!(buf.pixels[0], 0xF0);
}

#[test]
fn decodes_png_into_frame() {
    let mut img = GrayImage::from_pixel(16, 2, Luma([255u8]));
    img.put_pixel(0, 0, Luma([0u8]));
    img.put_pixel(15, 1, Luma([100u8]));
    img.put_pixel(7, 1, Luma([128u8]));
    let buf = frame_from_image(&png(&img), 16, 2).unwrap();
    assert_eq!(buf.pixels, vec![0x80, 0x00, 0x00, 0x01]);
}

#[test]
fn undecodable_bytes_give_no_frame() {
    assert!(frame_from_image(b"not an image", 800, 480).is_none());
    assert!(frame_from_image(&[], 800, 480).is_none());
}
