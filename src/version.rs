use vstd::prelude::*;
use vstd::string::*;

use crate::error::Error;
use crate::text::str_eq;

verus! {

/// The protocol versions this server understands.
#[derive(Debug, Clone, Copy, PartialEq, Eq, Structural)]
pub enum Version {
    Http1_1,
}

/// The version that the status-line token `tok` names.
pub open spec fn version_spec(tok: Seq<u8>) -> Result<Version, Error> {
    if tok == "HTTP/1.1".spec_bytes() {
        Ok(Version::Http1_1)
    } else {
        Err(Error::HttpUnsupportedVersion)
    }
}

impl Version {
    /// Reads a version token: only `HTTP/1.1`.
    pub fn try_from(tok: &str) -> (r: Result<Version, Error>)
        ensures
            r == version_spec(tok.spec_bytes()),
    {
        if str_eq(tok, "HTTP/1.1") {
            Ok(Version::Http1_1)
        } else {
            Err(Error::HttpUnsupportedVersion)
        }
    }
}

} // verus!
