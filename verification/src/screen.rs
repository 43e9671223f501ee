//! Data model of screen capture: what can be captured, how sources are
//! described to the user, and the shape of a captured frame. The capture
//! calls themselves (enumerating monitors and windows, grabbing pixels)
//! are platform I/O and live outside.

use vstd::prelude::*;

verus! {

/// Why a screen-capture operation failed.
#[derive(Debug)]
pub enum ScreenCaptureError {
    /// Monitors could not be enumerated.
    MonitorEnumeration(String),
    /// Windows could not be enumerated.
    WindowEnumeration(String),
    /// Grabbing pixels failed.
    CaptureError(String),
    /// No source has been selected yet.
    NoSourceSelected,
    /// The selected source no longer exists.
    SourceNotFound(String),
    /// The platform denied screen recording.
    PermissionDenied,
}

impl ScreenCaptureError {
    /// Human-readable error text.
    pub fn message(&self) -> String {
        match self {
            ScreenCaptureError::MonitorEnumeration(d) => d.clone(),
            ScreenCaptureError::WindowEnumeration(d) => d.clone(),
            ScreenCaptureError::CaptureError(d) => d.clone(),
            ScreenCaptureError::NoSourceSelected => "no source selected".to_string(),
            ScreenCaptureError::SourceNotFound(d) => d.clone(),
            ScreenCaptureError::PermissionDenied => "screen recording permission required".to_string(),
        }
    }
}

/// A window that can be captured.
#[derive(Debug)]
pub struct WindowInfo {
    /// Platform window id.
    pub id: u32,
    /// Window title.
    pub title: String,
    /// Name of the owning application.
    pub app_name: String,
    /// Left edge in screen coordinates.
    pub x: i32,
    /// Top edge in screen coordinates.
    pub y: i32,
    /// Width in pixels.
    pub width: u32,
    /// Height in pixels.
    pub height: u32,
    /// Whether the window is minimized (and so not capturable).
    pub is_minimized: bool,
}

/// What to capture.
#[derive(Debug)]
pub enum CaptureSource {
    /// A whole monitor, by id.
    Monitor {
        /// Platform monitor id.
        id: u32,
    },
    /// A single window, by id.
    Window {
        /// Platform window id.
        id: u32,
    },
}

/// One captured frame of raw pixels.
#[derive(Debug)]
pub struct CapturedFrame {
    /// Width in pixels.
    pub width: u32,
    /// Height in pixels.
    pub height: u32,
    /// RGBA pixel bytes, row-major.
    pub data: Vec<u8>,
}

} // verus!
