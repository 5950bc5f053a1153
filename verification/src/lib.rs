pub mod codec;
pub mod opts;
pub mod pipeline;
pub mod merge;
pub mod value;

use vstd::prelude::*;

verus! {

/// Everything that can abort a run, by the stage that raised it.
#[derive(Debug)]
pub enum Error {
    /// The options as given make no sense together.
    Usage,
    /// The input bytes are not well formed in the declared source format,
    /// or a merge directive cannot be resolved.
    Parse(String),
    /// The query processor's output cannot be re-encoded in the requested
    /// target format.
    Encode(String),
}

} // verus!
