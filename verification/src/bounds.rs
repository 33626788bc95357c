//! Explicit resource and text bounds of schema v1 and v2. Text bounds count
//! Unicode scalar values; identifier and digest bounds count ASCII characters.
use vstd::prelude::*;

verus! {

pub const ID_CHARS: usize = 96;
pub const OBJECTIVE_CHARS: usize = 4000;
pub const DESCRIPTION_CHARS: usize = 4000;
pub const BLOCKER_CHARS: usize = 2000;
pub const NEXT_ACTION_CHARS: usize = 2000;
pub const PROVENANCE_CHARS: usize = 2000;
pub const CRITERION_CHARS: usize = 2000;
pub const REQUIREMENT_CHARS: usize = 1000;
pub const ARTIFACT_REF_CHARS: usize = 2000;
pub const MAX_ITEMS: usize = 512;
pub const MAX_DEPENDENCIES: usize = 64;
pub const MAX_CRITERIA: usize = 128;
pub const MAX_REQUIREMENTS: usize = 32;
pub const MAX_ARTIFACT_REFS: usize = 64;
pub const MAX_EXTENSION_ENTRIES: usize = 32;
pub const MAX_EXTENSION_VALUE_CHARS: usize = 2000;
pub const INVOCATION_REF_CHARS: usize = 2000;
pub const MAX_OBSERVATION_METADATA: usize = 32;
pub const OBSERVATION_METADATA_VALUE_CHARS: usize = 2000;
pub const MAX_OBSERVATIONS_PER_PLAN: usize = 10000;

} // verus!
