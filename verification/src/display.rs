//! The display driver interface and the no-op driver.
use vstd::prelude::*;
use crate::render::PixelBuffer;

verus! {

/// How much of the display to refresh.
#[derive(Debug, Clone, Copy, PartialEq, Eq, Structural)]
pub enum RefreshMode {
    /// Full refresh: clears ghosting, about 2 seconds.
    Full,
    /// Partial refresh: repaints without the flash, about 0.3 seconds.
    Partial,
}

/// Why a display operation failed.
#[derive(Debug, Clone)]
pub enum DisplayError {
    Spi(String),
    Unavailable(String),
}

/// Abstraction over the physical e-ink display, so that the device loop does
/// not depend on the hardware.
pub trait DisplayDriver {
    /// Push a pixel buffer to the display using the given refresh mode.
    fn update(&mut self, buffer: &PixelBuffer, mode: RefreshMode) -> Result<(), DisplayError>;

    /// Clear the display to all-white.
    fn clear(&mut self) -> Result<(), DisplayError>;
}

/// A display driver that touches no hardware: every operation succeeds.
pub struct NullDisplay;

impl DisplayDriver for NullDisplay {
    fn update(&mut self, buffer: &PixelBuffer, mode: RefreshMode) -> (r: Result<(), DisplayError>)
        ensures
            r is Ok,
    {
        Ok(())
    }

    fn clear(&mut self) -> (r: Result<(), DisplayError>)
        ensures
            r is Ok,
    {
        Ok(())
    }
}

} // verus!
