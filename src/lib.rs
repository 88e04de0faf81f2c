//! Derives local override manifests for a multi-repository checkout: each
//! remote's connection parameters are resolved from a per-user config file and
//! command-line overrides, parameterised by `${name}` placeholders.

use vstd::prelude::*;

pub mod subst;
pub mod manifest;
pub mod config;
pub mod resolve;
pub mod bulk;

verus! {

/// The ways in which resolving a remote or rendering a template can fail.
#[derive(Debug, Clone, Copy, PartialEq, Eq, Structural)]
pub enum OverlayError {
    /// A template names a variable that is not defined, has an unclosed
    /// placeholder, or a variable holds `$`, `{` or `}`.
    Substitution,
    /// A config-file line has no `=`.
    ConfigFileFormat,
    /// A remote resolves without a non-empty `fetch_url`.
    FetchRequired,
    /// A `review_protocol` value names no known protocol.
    ReviewProtocol,
}

} // verus!
