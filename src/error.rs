use vstd::prelude::*;

verus! {

/// The ways building a mosaic can fail.
#[derive(Clone, Copy, Debug, PartialEq, Eq, Structural)]
pub enum MosaicError {
    /// A requested column or row count exceeds the dimension it divides.
    InvalidGridRequest,
    /// No candidate tile is available.
    EmptyCandidatePool,
    /// Clustering a cell's pixels produced no centroid.
    EmptyClusterResult,
}

impl MosaicError {
    /// A short description of the error.
    pub fn message(&self) -> (r: String) {
        match self {
            MosaicError::InvalidGridRequest => String::from_str(
                "grid value should not exceed the image dimension",
            ),
            MosaicError::EmptyCandidatePool => String::from_str("no candidate images were found"),
            MosaicError::EmptyClusterResult => String::from_str(
                "clustering produced no dominant color",
            ),
        }
    }
}

} // verus!
