//! Platform workspace pickers. Picking or restoring a workspace directory
//! talks to the host environment, so the picker interface and its behavior
//! live with the embedding application; the picker types themselves are
//! stateless markers, one per supported platform.

use vstd::prelude::*;

verus! {

/// Workspace picker for Linux hosts.
pub struct LinuxPicker;

impl LinuxPicker {
    pub fn new() -> (r: LinuxPicker) {
        LinuxPicker
    }
}

/// Workspace picker for Windows hosts.
pub struct WindowsPicker;

impl WindowsPicker {
    pub fn new() -> (r: WindowsPicker) {
        WindowsPicker
    }
}

/// Workspace picker for macOS hosts.
pub struct MacPicker;

impl MacPicker {
    pub fn new() -> (r: MacPicker) {
        MacPicker
    }
}

/// Workspace picker for any other host.
pub struct FallbackPicker;

impl FallbackPicker {
    pub fn new() -> (r: FallbackPicker) {
        FallbackPicker
    }
}

} // verus!
