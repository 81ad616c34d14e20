//! The policy consulted before an extension changes anything outside its
//! sandbox.
use vstd::prelude::*;

verus! {

/// A refusal by the policy.
#[derive(Debug, Clone)]
pub enum CapabilityGrantError {
    Inner(String),
}

impl CapabilityGrantError {
    /// The text shown for this refusal.
    pub fn message(&self) -> (r: String)
        ensures
            match self {
                CapabilityGrantError::Inner(e) => r@ == e@,
            },
    {
        match self {
            CapabilityGrantError::Inner(e) => e.clone(),
        }
    }
}

/// A policy that the embedder supplies: it allows or refuses running a
/// command, downloading a file and installing a package.
pub trait CapabilityGranter {
    fn grant_exec(&self, desired_command: String, desired_args: Vec<String>) -> Result<
        (),
        CapabilityGrantError,
    >;

    fn grant_download_file(&self, desired_url: String) -> Result<(), CapabilityGrantError>;

    fn grant_npm_install_package(&self, package_name: String) -> Result<(), CapabilityGrantError>;
}

} // verus!
