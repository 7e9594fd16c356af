//! The CLI config file: an [`XraySpec`] wrapper.
//!
//! The config is a document with a top-level `spec` table; loading it
//! validates the spec, so a malformed config is rejected at load time rather
//! than mid-build.

use vstd::prelude::*;

use crate::error::Result;
use crate::spec::{reports, XraySpec};

verus! {

/// A parsed config file.
#[derive(Clone, Debug, PartialEq, Eq)]
pub struct Config {
    /// The X-Ray spec to run.
    pub spec: XraySpec,
}

impl Config {
    /// Accepts a parsed config whose spec passes validation, and rejects it
    /// with the validation error otherwise.
    pub fn validated(config: Config) -> (r: Result<Config>)
        ensures
            reports(match r { Ok(_) => Ok(()), Err(e) => Err(e) }, config.spec@.error()),
            r matches Ok(c) ==> c.spec@ == config.spec@,
    {
        match config.spec.validate() {
            Ok(()) => Ok(config),
            Err(e) => Err(e),
        }
    }
}

} // verus!
