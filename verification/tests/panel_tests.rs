use skagit_flats::display::{DisplayError, RefreshMode};
use skagit_flats::panel::{clear_sequence, init_sequence, reset_sequence, shutdown_sequence, update_sequence, PanelOp};
use skagit_flats::render::PixelBuffer;

fn show(ops: &[PanelOp]) -> Vec<String> {
    ops.iter()
        .map(|o| match o {
            PanelOp::Data(d) if d.len() > 16 => format!("Data[{}]", d.len()),
            other => format!("{:?}", other),
        })
        .collect()
}

#[test]
fn reset_pulse() {
    assert_eq!(
        show(&reset_sequence()),
        vec!["Reset(true)", "SleepMs(20)", "Reset(false)", "SleepMs(2)", "Reset(true)", "SleepMs(20)"]
    );
}

#[test]
fn init_ends_with_tcon_or_partial_extensions() {
    let plain = init_sequence(false);
    assert_eq!(plain.len(), 17);
    assert_eq!(show(&plain[..2]), vec!["Command(6)", "Data([23, 23, 40, 23])"]);
    assert_eq!(show(&plain[15..]), vec!["Command(96)", "Data([34])"]);
    let ext = init_sequence(true);
    assert_eq!(ext.len(), 23);
    assert_eq!(show(&ext[17..]), vec!["Command(224)", "Data([2])", "Command(229)", "Data([90])", "Command(2)", "WaitBusy"]);
}

#[test]
fn full_update_sends_inverted_old_frame_then_new() {
    let mut buf = PixelBuffer::new(800, 480);
    buf.set_pixel(0, 0, true);
    let ops = update_sequence(&buf, RefreshMode::Full, false).unwrap();
    assert_eq!(ops.len(), 7);
    match (&ops[1], &ops[3]) {
        (PanelOp::Data(old), PanelOp::Data(new)) => {
            assert_eq!(new.len(), 48_000);
            assert_eq!(new[0], 0x80);
            assert_eq!(old[0], 0x7F);
            assert_eq!(old[1], 0xFF);
        },
        other => panic!("unexpected ops {:?}", other),
    }
    assert_eq!(show(&ops[4..]), vec!["Command(18)", "SleepMs(100)", "WaitBusy"]);
}

#[test]
fn partial_update_needs_partial_refresh_enabled() {
    let buf = PixelBuffer::new(800, 480);
    assert!(matches!(update_sequence(&buf, RefreshMode::Partial, false), Err(DisplayError::Spi(_))));
    let ops = update_sequence(&buf, RefreshMode::Partial, true).unwrap();
    assert_eq!(show(&ops[..3]), vec!["Command(4)", "SleepMs(200)", "WaitBusy"]);
    assert_eq!(show(&ops[ops.len() - 2..]), vec!["Command(2)", "WaitBusy"]);
}

#[test]
fn buffer_size_mismatch_rejected() {
    let buf = PixelBuffer::new(640, 480);
    match update_sequence(&buf, RefreshMode::Full, false) {
        Err(DisplayError::Spi(msg)) => assert_eq!(msg, "buffer size 640x480 does not match panel 800x480"),
        other => panic!("expected Spi error, got {:?}", other.map(|o| o.len())),
    }
}

#[test]
fn clear_and_shutdown() {
    let ops = clear_sequence(false);
    assert_eq!(ops.len(), 17 + 7 + 2);
    assert_eq!(show(&ops[ops.len() - 2..]), vec!["Command(2)", "WaitBusy"]);
    assert_eq!(show(&shutdown_sequence()), vec!["Command(2)", "WaitBusy"]);
}

#[test]
fn partial_update_refusal_names_the_setting() {
    let buf = PixelBuffer::new(800, 480);
    match update_sequence(&buf, RefreshMode::Partial, false) {
        Err(DisplayError::Spi(msg)) => assert_eq!(msg, "partial refresh requested but partial_refresh is disabled in config"),
        _ => panic!("expected an SPI error"),
    }
}
