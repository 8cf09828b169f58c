//! The commands the program accepts, as plain values.
use vstd::prelude::*;

verus! {

/// A parsed command line: the command, or none to open the window.
#[derive(Debug)]
pub struct Cli {
    pub command: Option<Commands>,
}

/// The commands.
#[derive(Debug)]
pub enum Commands {
    /// Pack files into a document.
    Pack { paths: Vec<String>, output: String, exclude: Option<String> },
    /// Unpack a document into files.
    Unpack { input: String, output: Option<String> },
    /// Install the context menu.
    Install,
    /// Uninstall the context menu.
    Uninstall,
    /// Pack from the context menu, in a window.
    GuiPack { paths: Vec<String> },
    /// Unpack from the context menu, in a window.
    GuiUnpack { paths: Vec<String> },
}

} // verus!
