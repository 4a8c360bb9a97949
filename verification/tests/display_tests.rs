use skagit_flats::display::{DisplayDriver, NullDisplay, RefreshMode};
use skagit_flats::render::PixelBuffer;

#[test]
fn null_display_update_succeeds() {
    let mut d = NullDisplay;
    let buf = PixelBuffer::new(800, 480);
    assert!(d.update(&buf, RefreshMode::Full).is_ok());
    assert!(d.update(&buf, RefreshMode::Partial).is_ok());
}

#[test]
fn null_display_clear_succeeds() {
    let mut d = NullDisplay;
    assert!(d.clear().is_ok());
}
