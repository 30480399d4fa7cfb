//! The embedder-facing exception error: an uncaught guest exception surfaces from a call as a
//! [`ThrownException`]; the exception object itself stays with the store.
use vstd::prelude::*;

verus! {

/// An uncaught WebAssembly exception (a unit error: the payload is kept elsewhere).
#[derive(Copy, Clone, PartialEq, Eq, Structural, Debug)]
pub struct ThrownException;

pub open spec fn thrown_exception_message() -> Seq<char> {
    seq!['w', 'a', 's', 'm', ' ', 'e', 'x', 'c', 'e', 'p', 't', 'i', 'o', 'n', ' ', 't', 'h', 'r', 'o', 'w', 'n']
}

impl ThrownException {
    /// The error message (what `Display` prints in the embedder API).
    pub fn message(&self) -> (s: String)
        ensures
            s@ == thrown_exception_message(),
    {
        let s = "wasm exception thrown".to_owned();
        proof { reveal_strlit("wasm exception thrown"); }
        s
    }
}

} // verus!
