//! The print leaf effect: a message printed when its effect entity receives
//! a go-off (the printing itself is output, done by the caller).

use vstd::prelude::*;

verus! {

/// Prints a message when its effect entity receives a go-off.
pub struct PrintLn {
    pub message: String,
}

impl PrintLn {
    /// A print effect with `message`.
    pub fn new(message: &str) -> (p: Self)
        ensures
            p.message@ == message@,
    {
        PrintLn { message: message.to_owned() }
    }
}

} // verus!
