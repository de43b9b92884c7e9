use vstd::prelude::*;

verus! {

/// The error taxonomy of the archive library.
///
/// `NoPayload` is deliberately not a variant: a container whose trailing
/// bytes carry no magic marker is a recognized, successful state and is
/// modelled as `Option::None` at the call sites that probe for a payload.
#[derive(Clone, Copy, PartialEq, Eq, Structural, Debug)]
pub enum SfxError {
    /// The packer was handed a path that is missing or not a regular
    /// file or directory.
    InvalidInput,
    /// The compression level lies outside the accepted range.
    InvalidOption,
    /// A read, write or stream operation failed.
    Io,
    /// A footer is present but its size arithmetic is inconsistent, or the
    /// embedded stream fails to decode.
    CorruptArchive,
}

} // verus!
