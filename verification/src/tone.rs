//! How what is said is to be taken; it decides the colour.
use vstd::prelude::*;

verus! {

#[derive(Debug, Clone, Copy, PartialEq, Eq, Structural)]
pub enum Tone {
    /// An aside.
    Muted,
    /// Nothing special.
    Secondary,
    /// Something is under way.
    Accent,
    Success,
    Warning,
    Error,
}

} // verus!
