//! The server's certificate files.

use std::path::PathBuf;
use vstd::prelude::*;

verus! {

#[verifier::external_type_specification]
#[verifier::external_body]
pub struct ExPathBuf(PathBuf);

/// The bandwidth a server connection has unless it is configured otherwise.
pub const DEFAULT_BANDWIDTH: usize = 1024 * 1024 * 16;

/// Where the server's certificate chain and private key are, in PEM form.
pub struct Pem {
    pub cert: PathBuf,
    pub key: PathBuf,
}

} // verus!
