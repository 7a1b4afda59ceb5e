use vstd::prelude::*;

verus! {

/// Why a binary module could not be turned into code.
#[derive(Clone, Copy, Debug, PartialEq, Eq, Structural)]
pub enum TranslateError {
    /// Section framing or lengths are inconsistent.
    MalformedInput,
    /// A type or section kind outside the supported surface.
    UnsupportedFeature,
    /// An instruction byte outside the supported set.
    UnsupportedOpcode,
    /// An instruction needs more operands than the stack holds.
    StackUnderflow,
}

} // verus!
