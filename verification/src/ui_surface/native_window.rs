//! What the native window host reports back to the editor.

use vstd::prelude::*;

verus! {

/// Result of a window command that has to cross from the UI into the native
/// event loop instead of being executed directly on the window.
#[derive(Debug, Clone, Copy, PartialEq, Eq, Structural)]
pub enum NativeWindowCommandResult {
    Applied,
    RequestClose,
    ShowSystemMenu,
}

/// Backend-neutral presentation mode reported to editor diagnostics.
#[derive(Debug, Clone, Copy, PartialEq, Eq, Structural)]
pub enum NativePresentMode {
    Vsync,
    Immediate,
    Mailbox,
    Other,
}

impl NativePresentMode {
    pub open spec fn label_spec(self) -> Seq<char> {
        match self {
            NativePresentMode::Vsync => "VSync"@,
            NativePresentMode::Immediate => "Immediate"@,
            NativePresentMode::Mailbox => "Mailbox"@,
            NativePresentMode::Other => "Present"@,
        }
    }

    /// Label shown in diagnostics.
    pub fn label(self) -> (label: &'static str)
        ensures
            label@ == self.label_spec(),
    {
        match self {
            NativePresentMode::Vsync => "VSync",
            NativePresentMode::Immediate => "Immediate",
            NativePresentMode::Mailbox => "Mailbox",
            NativePresentMode::Other => "Present",
        }
    }
}

} // verus!
