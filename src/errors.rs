//! Why a conversion can fail.

use vstd::prelude::*;

verus! {

/// A conversion either succeeds whole or fails with one of these.
#[derive(Debug, Clone, PartialEq)]
pub enum ConversionError {
    /// The lists of scores and of instruments differ in length.
    MmlInstCountMismatch { mml_count: usize, inst_count: usize },
    /// A score does not have the shape `MML@part,part,part;`; it holds that score.
    MmlParseFailed(String),
    /// A score gave no tracks.
    EmptyTrackList,
    /// An event gave no bytes.
    EventConversionFailed(String),
}

} // verus!
