//! The trap codes a running guest can raise, mirroring `wasmtime::Trap`.
use vstd::prelude::*;

verus! {

/// Why wasm execution stopped abnormally.
#[derive(Clone, Copy, PartialEq, Eq, Structural, Debug)]
pub enum Trap {
    StackOverflow,
    MemoryOutOfBounds,
    TableOutOfBounds,
    IndirectCallToNull,
    BadSignature,
    IntegerOverflow,
    IntegerDivisionByZero,
    BadConversionToInteger,
    UnreachableCodeReached,
    Interrupt,
    OutOfFuel,
    NullReference,
    ArrayOutOfBounds,
    AllocationTooLarge,
    CastFailure,
    NullStructReference,
    NullArrayReference,
    NullI31Reference,
}

impl Trap {
    /// The human-readable trap message (what `Display` prints in the embedder API).
    pub fn message(&self) -> (s: String)
        ensures
            s@ == trap_message(*self),
    {
        match self {
            Trap::StackOverflow => "call stack exhausted".to_owned(),
            Trap::MemoryOutOfBounds => "out of bounds memory access".to_owned(),
            Trap::TableOutOfBounds => "undefined element: out of bounds table access".to_owned(),
            Trap::IndirectCallToNull => "uninitialized element".to_owned(),
            Trap::BadSignature => "indirect call type mismatch".to_owned(),
            Trap::IntegerOverflow => "integer overflow".to_owned(),
            Trap::IntegerDivisionByZero => "integer divide by zero".to_owned(),
            Trap::BadConversionToInteger => "invalid conversion to integer".to_owned(),
            Trap::UnreachableCodeReached => "wasm `unreachable` instruction executed".to_owned(),
            Trap::Interrupt => "interrupt".to_owned(),
            Trap::OutOfFuel => "all fuel consumed by WebAssembly".to_owned(),
            Trap::NullReference => "null reference".to_owned(),
            Trap::ArrayOutOfBounds => "out of bounds array access".to_owned(),
            Trap::AllocationTooLarge => "allocation size too large".to_owned(),
            Trap::CastFailure => "cast failure".to_owned(),
            Trap::NullStructReference => "null structure reference".to_owned(),
            Trap::NullArrayReference => "null array reference".to_owned(),
            Trap::NullI31Reference => "null i31 reference".to_owned(),
        }
    }
}

/// The message text of each trap.
pub open spec fn trap_message(t: Trap) -> Seq<char> {
    match t {
        Trap::StackOverflow => "call stack exhausted"@,
        Trap::MemoryOutOfBounds => "out of bounds memory access"@,
        Trap::TableOutOfBounds => "undefined element: out of bounds table access"@,
        Trap::IndirectCallToNull => "uninitialized element"@,
        Trap::BadSignature => "indirect call type mismatch"@,
        Trap::IntegerOverflow => "integer overflow"@,
        Trap::IntegerDivisionByZero => "integer divide by zero"@,
        Trap::BadConversionToInteger => "invalid conversion to integer"@,
        Trap::UnreachableCodeReached => "wasm `unreachable` instruction executed"@,
        Trap::Interrupt => "interrupt"@,
        Trap::OutOfFuel => "all fuel consumed by WebAssembly"@,
        Trap::NullReference => "null reference"@,
        Trap::ArrayOutOfBounds => "out of bounds array access"@,
        Trap::AllocationTooLarge => "allocation size too large"@,
        Trap::CastFailure => "cast failure"@,
        Trap::NullStructReference => "null structure reference"@,
        Trap::NullArrayReference => "null array reference"@,
        Trap::NullI31Reference => "null i31 reference"@,
    }
}

} // verus!
