//! The failures the pipeline can report.
use vstd::prelude::*;

verus! {

/// The way in which a buffer failed to be a well-formed GLB asset.
#[derive(Clone, Copy, Debug, PartialEq, Eq, Structural)]
pub enum Malformed {
    /// Fewer bytes than the header or a chunk announces.
    Truncated,
    /// The first four bytes are not `glTF`.
    BadMagic,
    /// The container version is not 2.
    BadVersion,
    /// The length in the header differs from the length of the buffer.
    LengthMismatch,
    /// The first chunk is not a JSON chunk.
    MissingJson,
    /// The JSON chunk is not a JSON text.
    BadJson,
    /// The JSON text does not describe a glTF 2.0 scene graph.
    BadSchema,
    /// The binary chunk does not hold what the JSON text says of it.
    BadBinary,
}

/// A failure of one stage of the pipeline.
#[derive(Debug, PartialEq, Eq)]
pub enum Error {
    /// The input is not a well-formed GLB asset.
    MalformedAsset(Malformed),
    /// The asset requires the named extension and nothing is registered for it.
    UnsupportedExtension(Vec<u8>),
    /// Something is already registered under the name.
    DuplicateExtension(Vec<u8>),
    /// An entity was to be removed while another still refers to it.
    DanglingReference,
    /// A metadata property cannot be stored in a packet.
    InvalidMetadata,
    /// An outside codec failed; the bytes are its message.
    Codec(Vec<u8>),
    /// The output would be larger than a GLB container can address.
    EncodingOverflow,
    /// A transform still waits for the work of an outside codec.
    Unfinished,
}

/// The mathematical value of an [`Error`].
pub enum ErrorView {
    MalformedAsset(Malformed),
    UnsupportedExtension(Seq<u8>),
    DuplicateExtension(Seq<u8>),
    DanglingReference,
    InvalidMetadata,
    Codec(Seq<u8>),
    EncodingOverflow,
    Unfinished,
}

impl View for Error {
    type V = ErrorView;

    open spec fn view(&self) -> ErrorView {
        match self {
            Error::MalformedAsset(m) => ErrorView::MalformedAsset(*m),
            Error::UnsupportedExtension(n) => ErrorView::UnsupportedExtension(n@),
            Error::DuplicateExtension(n) => ErrorView::DuplicateExtension(n@),
            Error::DanglingReference => ErrorView::DanglingReference,
            Error::InvalidMetadata => ErrorView::InvalidMetadata,
            Error::Codec(m) => ErrorView::Codec(m@),
            Error::EncodingOverflow => ErrorView::EncodingOverflow,
            Error::Unfinished => ErrorView::Unfinished,
        }
    }
}

} // verus!
