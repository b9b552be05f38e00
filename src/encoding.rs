//! The encodings and traversal methods a caller chooses from, and the interface
//! of a container that hides a payload.
use vstd::prelude::*;
use crate::geometry::StegoError;
use crate::traversal::TraversalStrategy;

verus! {

/// How payload bits are hidden in pixel data.
#[derive(Clone, Copy, Debug, PartialEq, Eq, Structural)]
pub enum FileEncoding {
    /// One payload bit in the least-significant bit of each visited channel.
    Lsb,
    /// Pixel-value differencing; not implemented.
    PixelValueDifferencing,
    /// Hamming matrix encoding; not implemented.
    HammingMatrix,
}

/// The traversal a caller names.
#[derive(Clone, Copy, Debug, PartialEq, Eq, Structural)]
pub enum FileEncodingMethod {
    LeftToRight,
    TopToBottom,
    SinWave,
    CosWave,
    PolynomialFunction,
    FractalFunction,
}

/// Where the key-based envelope takes its key from; the envelope is applied
/// outside this library.
#[derive(Clone, Copy, Debug, PartialEq, Eq, Structural)]
pub enum FileEncodingFunctionDerivation {
    KeyBased,
}

/// What a run of the tool does.
#[derive(Clone, Copy, Debug, PartialEq, Eq, Structural)]
pub enum Operation {
    Embed,
    Extract,
}

impl FileEncodingMethod {
    /// The traversal strategy of a method, where one is implemented:
    /// left to right, top to bottom, and the sine wave, whose column for each
    /// row the caller samples into `sine_columns`.
    pub fn strategy(&self, sine_columns: Vec<usize>) -> (s: Option<TraversalStrategy>)
        ensures
            *self == FileEncodingMethod::LeftToRight <==> s matches Some(
                TraversalStrategy::LeftToRight,
            ),
            *self == FileEncodingMethod::TopToBottom <==> s matches Some(
                TraversalStrategy::TopToBottom,
            ),
            *self == FileEncodingMethod::SinWave <==> s matches Some(
                TraversalStrategy::Sinusoidal(c),
            ),
            *self == FileEncodingMethod::SinWave ==> (s matches Some(
                TraversalStrategy::Sinusoidal(c),
            ) && c@ == sine_columns@),
            s is None <==> (*self != FileEncodingMethod::LeftToRight && *self
                != FileEncodingMethod::TopToBottom && *self != FileEncodingMethod::SinWave),
    {
        match self {
            FileEncodingMethod::LeftToRight => Some(TraversalStrategy::LeftToRight),
            FileEncodingMethod::TopToBottom => Some(TraversalStrategy::TopToBottom),
            FileEncodingMethod::SinWave => Some(TraversalStrategy::Sinusoidal(sine_columns)),
            _ => None,
        }
    }
}

/// A container format that can hide a payload in a file held in memory.
pub trait FileEncodingSupport: Sized {
    /// Whether a file was parsed.
    spec fn parsed(&self) -> bool;

    /// The bytes of the file.
    spec fn contents(&self) -> Seq<u8>;

    /// A container with no file parsed yet.
    fn new() -> (c: Self)
        ensures
            !c.parsed(),
    ;

    /// Parses the bytes of a file; on failure nothing changes.
    fn parse_file(&mut self, file_data: Vec<u8>) -> (r: Result<(), StegoError>)
        ensures
            r is Ok ==> final(self).parsed() && final(self).contents() == file_data@,
            r is Err ==> *final(self) == *old(self),
    ;

    /// Hides `data` in the parsed file; on failure nothing changes.
    fn embed_data(
        &mut self,
        data: &[u8],
        encoding: FileEncoding,
        strategy: &TraversalStrategy,
    ) -> (r: Result<(), StegoError>)
        ensures
            !old(self).parsed() ==> r is Err,
            r is Err ==> final(self).contents() == old(self).contents(),
            final(self).parsed() == old(self).parsed(),
            final(self).contents().len() == old(self).contents().len(),
    ;

    /// Recovers `bit_count` hidden bits from the parsed file.
    fn retrieve_data(
        &self,
        bit_count: usize,
        encoding: FileEncoding,
        strategy: &TraversalStrategy,
    ) -> (r: Result<Vec<u8>, StegoError>)
        ensures
            !self.parsed() ==> r is Err,
    ;
}

} // verus!
