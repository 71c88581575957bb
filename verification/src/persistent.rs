//! The persisted state of a Tendermint voter.
use vstd::prelude::*;

verus! {

/// The version of the schema of the persisted data.
pub const CURRENT_VERSION: u32 = 3;

/// What to do with persisted data of a given schema version.
#[derive(Debug, Clone, Copy, PartialEq, Eq, Structural)]
pub enum SchemaDecision {
    /// Load the stored data (or start from genesis when there is none).
    Load,
    /// The stored data has a schema version that is not supported.
    Unsupported(u32),
}

/// What to do with persisted data of schema version `version` (`None` when
/// no version is stored): the current version, or none, is loaded; any other
/// is refused.
pub fn schema_decision(version: Option<u32>) -> (r: SchemaDecision)
    ensures
        (version is None || version == Some(CURRENT_VERSION)) ==> r == SchemaDecision::Load,
        (version matches Some(v) && v != CURRENT_VERSION) ==> r == SchemaDecision::Unsupported(version->Some_0),
{
    match version {
        None => SchemaDecision::Load,
        Some(v) => {
            if v == CURRENT_VERSION {
                SchemaDecision::Load
            } else {
                SchemaDecision::Unsupported(v)
            }
        },
    }
}

/// State of the round.
pub struct State<H, N> {
    /// The finalized block.
    pub finalized: Option<(H, N)>,
    /// Whether the view is completable.
    pub completable: bool,
}

impl<H, N> State<H, N> {
    /// The genesis state: the genesis block is finalized and the view is
    /// completable.
    pub fn genesis(genesis: (H, N)) -> (r: Self)
        ensures
            r.finalized == Some(genesis),
            r.completable,
    {
        State { finalized: Some(genesis), completable: true }
    }
}

} // verus!
