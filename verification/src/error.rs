//! The pipeline's failure taxonomy.

use vstd::prelude::*;

verus! {

/// Why a pipeline run failed. The three kinds cover every stage: transport or
/// a non-success status on either outbound call, a search reply whose body is
/// not a usable record list, and image bytes that do not decode.
#[derive(Clone, Copy, Debug, PartialEq, Eq, Structural)]
pub enum PipelineError {
    /// Network failure or non-2xx status from an outbound call.
    Upstream,
    /// The search reply body is malformed, lists no image, or carries an
    /// unusable URL.
    Parse,
    /// The fetched bytes are not a decodable image.
    Decode,
}

impl PipelineError {
    /// A short diagnostic line for the operator's log. The HTTP client never
    /// sees this text.
    pub fn message(&self) -> (r: &'static str)
        ensures
            r@ == self.spec_message(),
    {
        match self {
            PipelineError::Upstream => "upstream request failed",
            PipelineError::Parse => "search reply could not be parsed",
            PipelineError::Decode => "image bytes could not be decoded",
        }
    }

    pub open spec fn spec_message(self) -> Seq<char> {
        match self {
            PipelineError::Upstream => "upstream request failed"@,
            PipelineError::Parse => "search reply could not be parsed"@,
            PipelineError::Decode => "image bytes could not be decoded"@,
        }
    }
}

} // verus!
