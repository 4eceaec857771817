use vstd::prelude::*;
use vstd::string::*;

use crate::error::Error;
use crate::text::str_eq;

verus! {

/// The request methods this server understands.
#[derive(Debug, Clone, Copy, PartialEq, Eq, Structural)]
pub enum Method {
    Get,
    Post,
}

/// The method that the status-line token `tok` names.
pub open spec fn method_spec(tok: Seq<u8>) -> Result<Method, Error> {
    if tok == "GET".spec_bytes() {
        Ok(Method::Get)
    } else if tok == "POST".spec_bytes() {
        Ok(Method::Post)
    } else {
        Err(Error::HttpUnsupportedMethod)
    }
}

impl Method {
    /// Reads a method token: `GET` or `POST`, case-sensitive.
    pub fn try_from(tok: &str) -> (r: Result<Method, Error>)
        ensures
            r == method_spec(tok.spec_bytes()),
    {
        if str_eq(tok, "GET") {
            Ok(Method::Get)
        } else if str_eq(tok, "POST") {
            Ok(Method::Post)
        } else {
            Err(Error::HttpUnsupportedMethod)
        }
    }
}

} // verus!
