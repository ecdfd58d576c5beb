//! The CI providers that the manager works with.
use vstd::prelude::*;

pub mod github;
pub mod util;

verus! {

/// Which CI provider is being used, determined from the environment.
#[derive(Debug, Clone, Copy, PartialEq, Eq, Structural)]
pub enum CIProvider {
    GitHub,
}

/// Why no CI provider could be determined.
#[derive(Debug, Clone, Copy, PartialEq, Eq, Structural)]
pub enum ProviderError {
    /// Could not determine CI provider from environment
    UnknownEnvironment,
}

impl CIProvider {
    /// The CI provider of an environment: GitHub where the environment sets `GITHUB_ENV`
    /// (`github_env_set`), none otherwise.
    pub fn from_enviroment(github_env_set: bool) -> (r: Result<Self, ProviderError>)
        ensures
            github_env_set ==> r == Ok::<Self, ProviderError>(CIProvider::GitHub),
            !github_env_set ==> r == Err::<Self, ProviderError>(ProviderError::UnknownEnvironment),
    {
        if github_env_set {
            Ok(Self::GitHub)
        } else {
            Err(ProviderError::UnknownEnvironment)
        }
    }

    /// The name of the provider, as it is displayed.
    pub fn as_str(&self) -> (s: &'static str)
        ensures
            s@ == "GitHub"@,
    {
        match self {
            CIProvider::GitHub => "GitHub",
        }
    }
}

} // verus!
