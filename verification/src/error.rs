//! The ways in which reading a container fails.

use vstd::prelude::*;

verus! {

/// Why a container could not be read. Every error ends the whole read: no
/// partial document is handed out.
#[derive(Clone, Copy, Debug, PartialEq, Eq, Structural)]
pub enum ParseError {
    /// A read reached past the end of the data.
    IOFailure,
    /// The first four bytes are not the container's magic tag.
    BadMagic,
    /// The version field holds the given value, which is not the supported one.
    UnsupportedVersion(u32),
    /// The section table holds no header section.
    MissingHeaderSection,
    /// The data ends before the bytes of a coefficient do, so that no field
    /// element can be decoded from them.
    FieldDecodeFailure,
    /// A section's declared length reaches past the end of the data.
    TruncatedSection,
    /// The header declares constraints, the section table holds no constraints
    /// section, and the read was a strict one.
    MissingConstraintsSection,
}

} // verus!
