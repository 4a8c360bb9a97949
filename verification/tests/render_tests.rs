use skagit_flats::render::PixelBuffer;

#[test]
fn new_buffer_is_all_white() {
    let buf = PixelBuffer::new(800, 480);
    assert_eq!(buf.width, 800);
    assert_eq!(buf.height, 480);
    assert!(buf.pixels.iter().all(|&b| b == 0));
}

#[test]
fn buffer_byte_count() {
    // 800 × 480 = 384 000 pixels → 48 000 bytes
    let buf = PixelBuffer::new(800, 480);
    assert_eq!(buf.pixels.len(), 48_000);
}

#[test]
fn set_pixel_marks_byte() {
    let mut buf = PixelBuffer::new(16, 1);
    buf.set_pixel(0, 0, true);
    assert_eq!(buf.pixels[0] & 0x80, 0x80);
    buf.set_pixel(0, 0, false);
    assert_eq!(buf.pixels[0] & 0x80, 0x00);
}

#[test]
fn out_of_bounds_set_is_noop() {
    let mut buf = PixelBuffer::new(8, 8);
    buf.set_pixel(100, 100, true);
    assert!(buf.pixels.iter().all(|&b| b == 0));
}

#[test]
fn partial_last_byte_is_counted() {
    let buf = PixelBuffer::new(3, 3);
    assert_eq!(buf.pixels.len(), 2);
}

#[test]
fn set_pixel_touches_only_its_bit() {
    let mut buf = PixelBuffer::new(16, 2);
    buf.set_pixel(9, 1, true);
    // pixel index 25 → byte 3, bit 1 from the left
    assert_eq!(buf.pixels, vec![0, 0, 0, 0x40]);
    assert!(buf.get_pixel(9, 1));
    assert!(!buf.get_pixel(8, 1));
    assert!(!buf.get_pixel(9, 0));
}

#[test]
fn off_buffer_pixels_read_white() {
    let mut buf = PixelBuffer::new(4, 4);
    buf.set_pixel(3, 3, true);
    assert!(buf.get_pixel(3, 3));
    assert!(!buf.get_pixel(4, 3));
    assert!(!buf.get_pixel(3, 4));
}
