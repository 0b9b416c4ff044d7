use vstd::prelude::*;

verus! {

/// The mood a query is recalled in.
#[derive(Clone, Copy, Debug, PartialEq, Eq, Structural)]
pub enum EmotionalMode {
    /// Just the facts.
    Neutral,
    /// Boost positive memories.
    Happy,
    /// Precision over emotion.
    Focused,
    /// Unfiltered truth.
    Raw,
    /// Favor older memories.
    Nostalgic,
    /// Favor unusual connections.
    Creative,
}

} // verus!
