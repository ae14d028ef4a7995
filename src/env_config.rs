//! Credentials from the user's settings and the environment.
use vstd::prelude::*;

verus! {

/// The box credentials that the settings file or the environment give.
#[derive(Debug, Clone)]
pub struct EnvConfig {
    pub user: Option<String>,
    pub password: Option<String>,
}

} // verus!
