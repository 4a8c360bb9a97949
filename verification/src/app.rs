//! Runtime options of the device program and the decisions of its display
//! loop.
use vstd::prelude::*;
use crate::text::{str_eq, string_from_chars, chars_of};

verus! {

/// Top-level runtime options parsed from CLI flags or the environment.
#[derive(Debug, Clone)]
pub struct AppOptions {
    /// Disable the SPI display driver; use the no-op display instead.
    pub no_hardware: bool,
    /// Path to config.toml.
    pub config_path: String,
}

/// The options after reading `args[i..]`, starting from `no_hw` and `path`:
/// "--no-hardware" sets the flag, "--config" takes the next argument as the
/// path, anything else is ignored.
pub open spec fn scan_args(args: Seq<Seq<char>>, i: int, no_hw: bool, path: Seq<char>) -> (bool, Seq<char>)
    decreases args.len() - i,
{
    if i < 0 || i >= args.len() {
        (no_hw, path)
    } else if args[i] == "--no-hardware"@ {
        scan_args(args, i + 1, true, path)
    } else if args[i] == "--config"@ {
        if i + 1 < args.len() {
            scan_args(args, i + 2, no_hw, args[i + 1])
        } else {
            (no_hw, path)
        }
    } else {
        scan_args(args, i + 1, no_hw, path)
    }
}

impl AppOptions {
    /// The options before any flag is read: hardware disabled exactly when the
    /// environment asks for it (`no_hardware_env`), config.toml as the path.
    pub fn from_env(no_hardware_env: bool) -> (o: Self)
        ensures
            o.no_hardware == no_hardware_env,
            o.config_path@ == "config.toml"@,
    {
        AppOptions { no_hardware: no_hardware_env, config_path: "config.toml".to_string() }
    }

    /// Parse CLI arguments (the program name first) into options.
    ///
    /// Supported flags: `--no-hardware` disables the SPI display driver;
    /// `--config <path>` sets the path to config.toml. Other arguments are
    /// ignored.
    pub fn from_args(args: Vec<String>, no_hardware_env: bool) -> (o: Self)
        ensures
            (o.no_hardware, o.config_path@) == scan_args(args.deep_view(), 1, no_hardware_env, "config.toml"@),
    {
        let mut opts = Self::from_env(no_hardware_env);
        let ghost av = args.deep_view();
        let mut i: usize = 1;
        while i < args.len()
            invariant
                av == args.deep_view(),
                1 <= i,
                scan_args(av, i as int, opts.no_hardware, opts.config_path@) == scan_args(av, 1, no_hardware_env, "config.toml"@),
            decreases args.len() - i,
        {
            assert(args@[i as int]@ == av[i as int]);
            if str_eq(args[i].as_str(), "--no-hardware") {
                opts.no_hardware = true;
                i = i + 1;
            } else if str_eq(args[i].as_str(), "--config") {
                if i + 1 < args.len() {
                    assert(args@[i + 1]@ == av[i + 1]);
                    opts.config_path = string_from_chars(chars_of(args[i + 1].as_str()).as_slice());
                    i = i + 2;
                } else {
                    assert(scan_args(av, i as int, opts.no_hardware, opts.config_path@) == (opts.no_hardware, opts.config_path@));
                    i = args.len();
                }
            } else {
                i = i + 1;
            }
        }
        opts
    }
}

impl Default for AppOptions {
    /// Hardware enabled and config.toml as the path; the environment is not
    /// consulted (see [`AppOptions::from_env`]).
    fn default() -> (o: Self)
        ensures
            !o.no_hardware,
            o.config_path@ == "config.toml"@,
    {
        Self::from_env(false)
    }
}

/// Whether a fetched frame must be pushed to the panel: it differs from the
/// last frame pushed successfully (or nothing has been pushed yet). Pushing
/// an identical frame would only flash the panel.
pub fn frame_changed(last_pushed: &Option<Vec<u8>>, pixels: &Vec<u8>) -> (r: bool)
    ensures
        r == !(last_pushed matches Some(l) && l@ == pixels@),
{
    match last_pushed {
        None => true,
        Some(l) => {
            if l.len() != pixels.len() {
                assert(l@.len() != pixels@.len());
                return true;
            }
            let mut i: usize = 0;
            while i < l.len()
                invariant
                    *last_pushed == Some(*l),
                    l@.len() == pixels@.len(),
                    i <= l@.len(),
                    forall|k: int| 0 <= k < i ==> l@[k] == pixels@[k],
                decreases l.len() - i,
            {
                if l[i] != pixels[i] {
                    assert(l@[i as int] != pixels@[i as int]);
                    return true;
                }
                i = i + 1;
            }
            assert(l@ =~= pixels@);
            false
        },
    }
}

/// What the display loop does with the outcome of one image fetch.
#[derive(Debug, Clone, Copy, PartialEq, Eq, Structural)]
pub enum FrameAction {
    /// Push the fetched frame to the panel.
    Push,
    /// The fetched frame is what the panel shows: leave the panel alone.
    Unchanged,
    /// Nothing usable was fetched: the panel keeps showing its last frame.
    KeepLast,
}

/// The bytes of an optional frame.
pub open spec fn frame_bytes(f: Option<Vec<u8>>) -> Option<Seq<u8>> {
    match f {
        Some(v) => Some(v@),
        None => None,
    }
}

/// The action for one fetch, given the frame last pushed and the frame
/// fetched (nothing when the fetch or its decoding failed).
pub open spec fn frame_action(last: Option<Seq<u8>>, fetched: Option<Seq<u8>>) -> FrameAction {
    match fetched {
        None => FrameAction::KeepLast,
        Some(p) => if last == Some(p) { FrameAction::Unchanged } else { FrameAction::Push },
    }
}

/// The frame on record after one loop step: the fetched frame when it was
/// pushed and the push succeeded, else the frame on record before.
pub open spec fn frame_after_step(last: Option<Seq<u8>>, fetched: Option<Seq<u8>>, pushed_ok: bool) -> Option<Seq<u8>> {
    if frame_action(last, fetched) == FrameAction::Push && pushed_ok { fetched } else { last }
}

/// The action for one fetch: a failed fetch never touches the panel, so it
/// keeps showing the last good frame; a frame equal to the one last pushed
/// is not pushed again.
pub fn next_frame_action(last_pushed: &Option<Vec<u8>>, fetched: &Option<Vec<u8>>) -> (a: FrameAction)
    ensures
        a == frame_action(frame_bytes(*last_pushed), frame_bytes(*fetched)),
{
    match fetched {
        None => FrameAction::KeepLast,
        Some(p) => if frame_changed(last_pushed, p) { FrameAction::Push } else { FrameAction::Unchanged },
    }
}

/// Records the outcome of a push: after a successful push the pushed frame
/// is the last one; after a failed push the panel still shows the previous
/// frame, and the record is kept.
pub fn record_push(last_pushed: &mut Option<Vec<u8>>, pixels: Vec<u8>, pushed_ok: bool)
    ensures
        frame_bytes(*final(last_pushed)) == if pushed_ok { Some(pixels@) } else { frame_bytes(*old(last_pushed)) },
{
    if pushed_ok {
        *last_pushed = Some(pixels);
    }
}

/// The display keeps showing the last good frame: over one loop step, a
/// failed fetch or a failed push leaves the frame on record as it was, and
/// when it changes it becomes the fetched frame, which differed from it.
pub proof fn law_keeps_last_good_frame(last: Option<Seq<u8>>, fetched: Option<Seq<u8>>, pushed_ok: bool)
    ensures
        fetched is None ==> frame_after_step(last, fetched, pushed_ok) == last,
        !pushed_ok ==> frame_after_step(last, fetched, pushed_ok) == last,
        frame_after_step(last, fetched, pushed_ok) != last ==> frame_after_step(last, fetched, pushed_ok) == fetched
            && frame_action(last, fetched) == FrameAction::Push,
{
}

} // verus!
