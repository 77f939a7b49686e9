//! Ahead-of-time lowering of a closed JavaScript subset to C++ source text.
//!
//! The crate provides the value model (tags and coercion rules the emitted
//! code must implement), the property-slot manifest generator (fixed-layout
//! storage and deterministic name-to-slot lookup), the global bindings
//! registry, and the transpiler core that lowers one parsed module.

use vstd::prelude::*;

pub mod ast;
pub mod globals;
pub mod manifest;
pub mod transpiler;
pub mod value;

verus! {

/// Relies on `String::push` of std: appends exactly the one character to
/// the end of the string. vstd specifies `append`/`concat` but not `push`.
pub assume_specification[ String::push ](s: &mut String, c: char)
    ensures
        final(s)@ == old(s)@.push(c),
;

/// The error kinds a lowering run or a manifest run can report. The
/// `String` payloads carry the offending construct for diagnostics.
#[derive(Clone, PartialEq, Eq, Debug)]
pub enum CompileError {
    /// A syntactic form outside the supported subset.
    UnsupportedConstruct(String),
    /// An identifier with no scope entry and no global binding.
    UnresolvedIdentifier(String),
    /// A `let`/`const` referenced before its textual declaration.
    TemporalOrderViolation(String),
    /// A property name absent from the paired manifest.
    UnknownProperty(String),
    /// A registry already holds a binding under this name.
    DuplicateBindingName,
    /// The manifest input is not a well-formed property description.
    ManifestMalformed,
}

} // verus!
