//! Failure kinds shared by the codec and the pack/unpack engine.

use vstd::prelude::*;

verus! {

/// Everything that can go wrong while decoding, encoding, packing or
/// unpacking an archive. Unknown platform/game/content-kind codes are *not*
/// errors: they decode into the fallback variant of their tag type.
#[derive(Clone, Copy, Debug, PartialEq, Eq, Structural)]
pub enum KtslError {
    /// A fixed magic value (archive header or section tag) did not match.
    BadMagic,
    /// A declared length reaches past the end of the available bytes.
    Truncated,
    /// A `section_size` smaller than the variant's fixed header size; the
    /// trailing opaque length would underflow.
    SizeUnderflow,
    /// Section scanning overran `decomp_size` instead of landing exactly
    /// on it.
    InconsistentTermination,
    /// A companion-linked pack found no audio file for a link id.
    MissingLinkedFile,
    /// A directory-mode pack met a file whose name stem is not a
    /// hexadecimal link id: a format error, never a crash.
    BadFileName,
    /// An operation on the file system failed (reported by callers that
    /// perform I/O; the codec itself never raises it).
    IoFailure,
}

} // verus!
