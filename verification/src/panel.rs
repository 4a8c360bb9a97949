//! The command sequences of the Waveshare 7.5" v2 e-ink panel. The library
//! decides what to send; a driver outside it performs each step on the SPI
//! bus and GPIO pins.
use vstd::prelude::*;
use crate::render::PixelBuffer;
use crate::display::{DisplayError, RefreshMode};

verus! {

broadcast use vstd::seq_lib::group_seq_properties;

/// Panel width in pixels.
pub const PANEL_WIDTH: u32 = 800;
/// Panel height in pixels.
pub const PANEL_HEIGHT: u32 = 480;

/// One step of talking to the panel.
#[derive(Debug, Clone)]
pub enum PanelOp {
    /// Drive the reset pin high (`true`) or low.
    Reset(bool),
    /// Send a command byte (DC low).
    Command(u8),
    /// Send data bytes (DC high).
    Data(Vec<u8>),
    /// Pause for the given number of milliseconds.
    SleepMs(u64),
    /// Wait until the BUSY pin reports the panel ready.
    WaitBusy,
}

/// Model of a [`PanelOp`].
pub enum OpModel {
    Reset(bool),
    Command(u8),
    Data(Seq<u8>),
    SleepMs(u64),
    WaitBusy,
}

impl PanelOp {
    pub open spec fn model(&self) -> OpModel {
        match self {
            PanelOp::Reset(b) => OpModel::Reset(*b),
            PanelOp::Command(c) => OpModel::Command(*c),
            PanelOp::Data(d) => OpModel::Data(d@),
            PanelOp::SleepMs(ms) => OpModel::SleepMs(*ms),
            PanelOp::WaitBusy => OpModel::WaitBusy,
        }
    }
}

/// Models of a list of operations.
pub open spec fn ops_model(ops: Seq<PanelOp>) -> Seq<OpModel> {
    ops.map_values(|o: PanelOp| o.model())
}

/// A command followed by its data bytes.
pub open spec fn cmd_data(c: u8, d: Seq<u8>) -> Seq<OpModel> {
    seq![OpModel::Command(c), OpModel::Data(d)]
}

/// Hardware reset pulse.
pub open spec fn reset_ops() -> Seq<OpModel> {
    seq![OpModel::Reset(true), OpModel::SleepMs(20), OpModel::Reset(false), OpModel::SleepMs(2), OpModel::Reset(true), OpModel::SleepMs(20)]
}

/// Panel initialisation: booster soft start, power setting, power on,
/// panel setting, 800×480 resolution, dual SPI off, VCOM interval, TCON.
pub open spec fn init_ops() -> Seq<OpModel> {
    cmd_data(0x06, seq![0x17u8, 0x17, 0x28, 0x17])
        + cmd_data(0x01, seq![0x07u8, 0x07, 0x28, 0x17])
        + seq![OpModel::Command(0x04), OpModel::SleepMs(100), OpModel::WaitBusy]
        + cmd_data(0x00, seq![0x1Fu8])
        + cmd_data(0x61, seq![0x03u8, 0x20, 0x01, 0xE0])
        + cmd_data(0x15, seq![0x00u8])
        + cmd_data(0x50, seq![0x10u8, 0x07])
        + cmd_data(0x60, seq![0x22u8])
}

/// Enabling the fast and partial waveforms of newer panels, ending powered off.
pub open spec fn partial_ext_ops() -> Seq<OpModel> {
    cmd_data(0xE0, seq![0x02u8]) + cmd_data(0xE5, seq![0x5Au8]) + seq![OpModel::Command(0x02), OpModel::WaitBusy]
}

pub open spec fn power_on_ops() -> Seq<OpModel> {
    seq![OpModel::Command(0x04), OpModel::SleepMs(200), OpModel::WaitBusy]
}

pub open spec fn power_off_ops() -> Seq<OpModel> {
    seq![OpModel::Command(0x02), OpModel::WaitBusy]
}

/// Every byte of a frame inverted: the "old frame" the full waveform wants.
pub open spec fn inverted(frame: Seq<u8>) -> Seq<u8> {
    frame.map_values(|b: u8| !b)
}

/// Full-waveform refresh of `frame`; with partial refresh enabled it is
/// wrapped in a power cycle and resets the VCOM interval first.
pub open spec fn full_frame_ops(frame: Seq<u8>, partial_enabled: bool) -> Seq<OpModel> {
    let pre = if partial_enabled { power_on_ops() + cmd_data(0x50, seq![0x10u8, 0x07]) } else { Seq::empty() };
    let post = if partial_enabled { power_off_ops() } else { Seq::empty() };
    pre + cmd_data(0x10, inverted(frame)) + cmd_data(0x13, frame) + seq![OpModel::Command(0x12), OpModel::SleepMs(100), OpModel::WaitBusy] + post
}

/// Partial-waveform refresh of `frame` over the whole panel.
pub open spec fn partial_frame_ops(frame: Seq<u8>) -> Seq<OpModel> {
    power_on_ops()
        + cmd_data(0x50, seq![0xA9u8, 0x07])
        + cmd_data(0xE5, seq![0x6Eu8])
        + seq![OpModel::Command(0x91)]
        + cmd_data(0x90, seq![0x00u8, 0x00, 0x03, 0x1F, 0x00, 0x00, 0x01, 0xDF, 0x01])
        + cmd_data(0x13, frame)
        + seq![OpModel::Command(0x12), OpModel::SleepMs(100), OpModel::WaitBusy]
        + power_off_ops()
}

fn push_op(ops: &mut Vec<PanelOp>, op: PanelOp)
    ensures
        ops_model(final(ops)@) == ops_model(old(ops)@).push(op.model()),
{
    let ghost m0 = ops_model(ops@);
    let ghost om = op.model();
    ops.push(op);
    assert(ops_model(ops@) =~= m0.push(om));
}

fn add_cmd_data(ops: &mut Vec<PanelOp>, c: u8, d: Vec<u8>)
    ensures
        ops_model(final(ops)@) == ops_model(old(ops)@) + cmd_data(c, d@),
{
    let ghost m0 = ops_model(ops@);
    let ghost dv = d@;
    push_op(ops, PanelOp::Command(c));
    push_op(ops, PanelOp::Data(d));
    assert(ops_model(ops@) =~= m0 + cmd_data(c, dv));
}

fn add_cmd_wait(ops: &mut Vec<PanelOp>, c: u8, sleep_ms: u64)
    ensures
        ops_model(final(ops)@) == ops_model(old(ops)@) + if sleep_ms > 0 {
            seq![OpModel::Command(c), OpModel::SleepMs(sleep_ms), OpModel::WaitBusy]
        } else {
            seq![OpModel::Command(c), OpModel::WaitBusy]
        },
{
    let ghost m0 = ops_model(ops@);
    push_op(ops, PanelOp::Command(c));
    if sleep_ms > 0 {
        push_op(ops, PanelOp::SleepMs(sleep_ms));
    }
    push_op(ops, PanelOp::WaitBusy);
    if sleep_ms > 0 {
        assert(ops_model(ops@) =~= m0 + seq![OpModel::Command(c), OpModel::SleepMs(sleep_ms), OpModel::WaitBusy]);
    } else {
        assert(ops_model(ops@) =~= m0 + seq![OpModel::Command(c), OpModel::WaitBusy]);
    }
}

fn add_init(ops: &mut Vec<PanelOp>)
    ensures
        ops_model(final(ops)@) == ops_model(old(ops)@) + init_ops(),
{
    let ghost m0 = ops_model(ops@);
    let d = vec![0x17u8, 0x17, 0x28, 0x17];
    assert(d@ =~= seq![0x17u8, 0x17, 0x28, 0x17]);
    add_cmd_data(ops, 0x06, d);
    let d = vec![0x07u8, 0x07, 0x28, 0x17];
    assert(d@ =~= seq![0x07u8, 0x07, 0x28, 0x17]);
    add_cmd_data(ops, 0x01, d);
    add_cmd_wait(ops, 0x04, 100);
    let d = vec![0x1Fu8];
    assert(d@ =~= seq![0x1Fu8]);
    add_cmd_data(ops, 0x00, d);
    let d = vec![0x03u8, 0x20, 0x01, 0xE0];
    assert(d@ =~= seq![0x03u8, 0x20, 0x01, 0xE0]);
    add_cmd_data(ops, 0x61, d);
    let d = vec![0x00u8];
    assert(d@ =~= seq![0x00u8]);
    add_cmd_data(ops, 0x15, d);
    let d = vec![0x10u8, 0x07];
    assert(d@ =~= seq![0x10u8, 0x07]);
    add_cmd_data(ops, 0x50, d);
    let d = vec![0x22u8];
    assert(d@ =~= seq![0x22u8]);
    add_cmd_data(ops, 0x60, d);
    assert(ops_model(ops@) =~= m0 + init_ops());
}

fn add_partial_ext(ops: &mut Vec<PanelOp>)
    ensures
        ops_model(final(ops)@) == ops_model(old(ops)@) + partial_ext_ops(),
{
    let ghost m0 = ops_model(ops@);
    let d = vec![0x02u8];
    assert(d@ =~= seq![0x02u8]);
    add_cmd_data(ops, 0xE0, d);
    let ghost m1 = ops_model(ops@);
    let d = vec![0x5Au8];
    assert(d@ =~= seq![0x5Au8]);
    add_cmd_data(ops, 0xE5, d);
    add_cmd_wait(ops, 0x02, 0);
    assert(ops_model(ops@) =~= m0 + partial_ext_ops());
}

fn add_power_on(ops: &mut Vec<PanelOp>)
    ensures
        ops_model(final(ops)@) == ops_model(old(ops)@) + power_on_ops(),
{
    add_cmd_wait(ops, 0x04, 200);
}

fn add_power_off(ops: &mut Vec<PanelOp>)
    ensures
        ops_model(final(ops)@) == ops_model(old(ops)@) + power_off_ops(),
{
    add_cmd_wait(ops, 0x02, 0);
}

/// Every byte of the frame inverted.
fn invert_bytes(frame: &Vec<u8>) -> (r: Vec<u8>)
    ensures
        r@ == inverted(frame@),
{
    let mut r: Vec<u8> = Vec::new();
    let mut i: usize = 0;
    while i < frame.len()
        invariant
            i <= frame@.len(),
            r@ == inverted(frame@.take(i as int)),
        decreases frame.len() - i,
    {
        r.push(!frame[i]);
        assert(r@ =~= inverted(frame@.take(i + 1)));
        i = i + 1;
    }
    assert(frame@.take(frame@.len() as int) =~= frame@);
    r
}

fn add_full_frame(ops: &mut Vec<PanelOp>, frame: &Vec<u8>, partial_enabled: bool)
    ensures
        ops_model(final(ops)@) == ops_model(old(ops)@) + full_frame_ops(frame@, partial_enabled),
{
    let ghost m0 = ops_model(ops@);
    if partial_enabled {
        add_power_on(ops);
        let d = vec![0x10u8, 0x07];
        assert(d@ =~= seq![0x10u8, 0x07]);
        add_cmd_data(ops, 0x50, d);
    }
    let ghost m1 = ops_model(ops@);
    add_cmd_data(ops, 0x10, invert_bytes(frame));
    add_cmd_data(ops, 0x13, frame.clone());
    add_cmd_wait(ops, 0x12, 100);
    let ghost m2 = ops_model(ops@);
    if partial_enabled {
        add_power_off(ops);
    }
    assert(ops_model(ops@) =~= m0 + full_frame_ops(frame@, partial_enabled));
}

fn add_partial_frame(ops: &mut Vec<PanelOp>, frame: &Vec<u8>)
    ensures
        ops_model(final(ops)@) == ops_model(old(ops)@) + partial_frame_ops(frame@),
{
    let ghost m0 = ops_model(ops@);
    add_power_on(ops);
    let d = vec![0xA9u8, 0x07];
    assert(d@ =~= seq![0xA9u8, 0x07]);
    add_cmd_data(ops, 0x50, d);
    let d = vec![0x6Eu8];
    assert(d@ =~= seq![0x6Eu8]);
    add_cmd_data(ops, 0xE5, d);
    push_op(ops, PanelOp::Command(0x91));
    let d = vec![0x00u8, 0x00, 0x03, 0x1F, 0x00, 0x00, 0x01, 0xDF, 0x01];
    assert(d@ =~= seq![0x00u8, 0x00, 0x03, 0x1F, 0x00, 0x00, 0x01, 0xDF, 0x01]);
    add_cmd_data(ops, 0x90, d);
    add_cmd_data(ops, 0x13, frame.clone());
    add_cmd_wait(ops, 0x12, 100);
    add_power_off(ops);
    assert(ops_model(ops@) =~= m0 + partial_frame_ops(frame@));
}

/// The hardware reset pulse.
pub fn reset_sequence() -> (ops: Vec<PanelOp>)
    ensures
        ops_model(ops@) == reset_ops(),
{
    let mut ops: Vec<PanelOp> = Vec::new();
    push_op(&mut ops, PanelOp::Reset(true));
    push_op(&mut ops, PanelOp::SleepMs(20));
    push_op(&mut ops, PanelOp::Reset(false));
    push_op(&mut ops, PanelOp::SleepMs(2));
    push_op(&mut ops, PanelOp::Reset(true));
    push_op(&mut ops, PanelOp::SleepMs(20));
    assert(ops_model(ops@) =~= reset_ops());
    ops
}

/// What bringing the panel up sends after the reset pulse: the
/// initialisation, then the partial-refresh extensions when enabled.
pub fn init_sequence(partial_enabled: bool) -> (ops: Vec<PanelOp>)
    ensures
        ops_model(ops@) == init_ops() + if partial_enabled { partial_ext_ops() } else { Seq::empty() },
{
    let mut ops: Vec<PanelOp> = Vec::new();
    assert(ops_model(ops@) =~= Seq::<OpModel>::empty());
    add_init(&mut ops);
    if partial_enabled {
        add_partial_ext(&mut ops);
    } else {
        assert(ops_model(ops@) =~= init_ops() + Seq::<OpModel>::empty());
    }
    ops
}

/// The error message for a buffer of `w` × `h` pixels.
pub open spec fn size_mismatch_message(w: u32, h: u32) -> Seq<char> {
    "buffer size "@ + crate::text::decimal(w as nat) + "x"@ + crate::text::decimal(h as nat)
        + " does not match panel 800x480"@
}

/// The operations that show a pixel buffer: a full refresh, or a partial
/// one when enabled. A buffer of another size than the panel is refused, as
/// is a partial refresh when partial refresh is disabled.
pub fn update_sequence(buffer: &PixelBuffer, mode: RefreshMode, partial_enabled: bool) -> (r: Result<Vec<PanelOp>, DisplayError>)
    ensures
        (buffer.width != PANEL_WIDTH || buffer.height != PANEL_HEIGHT)
            ==> (r matches Err(DisplayError::Spi(m)) && m@ == size_mismatch_message(buffer.width, buffer.height)),
        (buffer.width == PANEL_WIDTH && buffer.height == PANEL_HEIGHT && mode == RefreshMode::Partial && !partial_enabled)
            ==> (r matches Err(DisplayError::Spi(m))
                && m@ == "partial refresh requested but partial_refresh is disabled in config"@),
        (buffer.width == PANEL_WIDTH && buffer.height == PANEL_HEIGHT && mode == RefreshMode::Full)
            ==> (r matches Ok(ops) && ops_model(ops@) == full_frame_ops(buffer.pixels@, partial_enabled)),
        (buffer.width == PANEL_WIDTH && buffer.height == PANEL_HEIGHT && mode == RefreshMode::Partial && partial_enabled)
            ==> (r matches Ok(ops) && ops_model(ops@) == partial_frame_ops(buffer.pixels@)),
{
    if buffer.width != PANEL_WIDTH || buffer.height != PANEL_HEIGHT {
        let mut msg = crate::text::chars_of("buffer size ");
        crate::text::append_chars(&mut msg, crate::text::u64_to_decimal(buffer.width as u64).as_slice());
        msg.push('x');
        crate::text::append_chars(&mut msg, crate::text::u64_to_decimal(buffer.height as u64).as_slice());
        crate::text::append_str(&mut msg, " does not match panel 800x480");
        proof {
            reveal_strlit("x");
        }
        assert(msg@ =~= size_mismatch_message(buffer.width, buffer.height));
        return Err(DisplayError::Spi(crate::text::string_from_chars(msg.as_slice())));
    }
    let mut ops: Vec<PanelOp> = Vec::new();
    assert(ops_model(ops@) =~= Seq::<OpModel>::empty());
    match mode {
        RefreshMode::Full => {
            add_full_frame(&mut ops, &buffer.pixels, partial_enabled);
            assert(ops_model(ops@) =~= full_frame_ops(buffer.pixels@, partial_enabled));
        },
        RefreshMode::Partial => {
            if !partial_enabled {
                return Err(DisplayError::Spi("partial refresh requested but partial_refresh is disabled in config".to_string()));
            }
            add_partial_frame(&mut ops, &buffer.pixels);
            assert(ops_model(ops@) =~= partial_frame_ops(buffer.pixels@));
        },
    }
    Ok(ops)
}

/// Clearing the panel to white: initialise, show an all-white frame, and
/// power off when the full refresh did not already.
pub fn clear_sequence(partial_enabled: bool) -> (ops: Vec<PanelOp>)
    ensures
        ops_model(ops@) == init_ops() + full_frame_ops(Seq::new(48_000, |i: int| 0u8), partial_enabled)
            + if partial_enabled { Seq::empty() } else { power_off_ops() },
{
    let mut ops: Vec<PanelOp> = Vec::new();
    assert(ops_model(ops@) =~= Seq::<OpModel>::empty());
    add_init(&mut ops);
    let white: Vec<u8> = vec![0x00u8; (PANEL_WIDTH * PANEL_HEIGHT / 8) as usize];
    assert(white@ =~= Seq::new(48_000, |i: int| 0u8));
    add_full_frame(&mut ops, &white, partial_enabled);
    let ghost m = ops_model(ops@);
    if !partial_enabled {
        add_power_off(&mut ops);
    } else {
        assert(ops_model(ops@) =~= m + Seq::<OpModel>::empty());
    }
    ops
}

/// What shutting the panel down sends before the pins are released.
pub fn shutdown_sequence() -> (ops: Vec<PanelOp>)
    ensures
        ops_model(ops@) == power_off_ops(),
{
    let mut ops: Vec<PanelOp> = Vec::new();
    assert(ops_model(ops@) =~= Seq::<OpModel>::empty());
    add_power_off(&mut ops);
    ops
}

} // verus!
