use vstd::prelude::*;

verus! {

/// Command-line options of the interpreter: the source file to run, and
/// whether to print its disassembly instead of running it.
pub struct Cli {
    /// Path of the source file.
    pub bfpath: String,
    /// Print the disassembly and exit without running.
    pub disassembly: bool,
}

} // verus!
