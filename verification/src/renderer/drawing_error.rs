//! What can go wrong while a primitive is drawn.
use vstd::prelude::*;

verus! {

/// The reason why a primitive could not be drawn.
#[derive(Debug)]
pub enum DrawingError {
    /// The image at the given path could not be decoded.
    ImageError(String, png::DecodingError),
    /// The file at the given path could not be had; the second field says why.
    ResourceError(String, String),
    /// A coordinate or a size leaves the range that can be drawn.
    OutOfRange,
    /// A progress bar asks for a modulo of zero.
    ZeroModulo,
}

/// A reason why a primitive could not be drawn, as a value: what an error
/// says, without the cause that an outside decoder gave.
pub enum Failure {
    ImageError(Seq<char>),
    ResourceError(Seq<char>, Seq<char>),
    OutOfRange,
    ZeroModulo,
}

impl View for DrawingError {
    type V = Failure;

    open spec fn view(&self) -> Failure {
        match self {
            DrawingError::ImageError(path, _) => Failure::ImageError(path@),
            DrawingError::ResourceError(path, reason) => Failure::ResourceError(path@, reason@),
            DrawingError::OutOfRange => Failure::OutOfRange,
            DrawingError::ZeroModulo => Failure::ZeroModulo,
        }
    }
}

/// The error of the PNG decoder, carried along as it came.
#[verifier::external_type_specification]
#[verifier::external_body]
pub struct ExDecodingError(png::DecodingError);

} // verus!
