use vstd::prelude::*;

verus! {

/// The interactive shell's handle. Reading lines and printing tokens is done
/// by the program around the library; the shell keeps no state of its own.
pub struct Repl;

impl Repl {
    pub fn new() -> (r: Repl) {
        Repl
    }
}

} // verus!
