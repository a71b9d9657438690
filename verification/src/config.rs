//! Settings that the observability kernel is built from.
use vstd::prelude::*;

verus! {

/// Whether observability reports are produced, and how many entries each
/// top-k list in them keeps.
#[derive(Debug, Clone, Copy, PartialEq, Eq, Structural)]
pub struct ObservabilityConfig {
    pub enabled: bool,
    pub report_top_k: usize,
}

/// The deployment this process runs as (its profile name appears in reports).
#[derive(Debug)]
pub struct DeploymentConfig {
    pub profile: String,
}

impl DeploymentConfig {
    pub fn new(profile: String) -> (r: Self)
        ensures
            r.profile@ == profile@,
    {
        DeploymentConfig { profile }
    }

    pub fn duplicate(&self) -> (r: Self)
        ensures
            r.profile@ == self.profile@,
    {
        DeploymentConfig { profile: self.profile.clone() }
    }
}

/// Which memory sources are loaded into a prompt's context.
#[derive(Debug, Clone, Copy, PartialEq, Eq, Structural)]
pub struct MemoryConfig {
    pub load_identity: bool,
    pub load_memory_md: bool,
    pub load_history_md: bool,
}

/// Settings of the learning loop: whether it runs, whether the vector sidecar
/// is kept, the embedding width and how many items a retrieval returns.
#[derive(Debug, Clone, Copy, PartialEq, Eq, Structural)]
pub struct LearningConfig {
    pub enabled: bool,
    pub sidecar_enabled: bool,
    pub embedding_dimensions: usize,
    pub top_k: usize,
}

} // verus!
