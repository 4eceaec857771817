use vstd::prelude::*;
use vstd::string::*;

use crate::error::Error;

verus! {

/// A request path: a view of the path token of the status line.
#[derive(Debug, Clone, Copy)]
pub struct Path<'a> {
    path: &'a str,
}

/// True when `tok` can be a request path: it is not empty and begins with `/`.
pub open spec fn path_ok(tok: Seq<u8>) -> bool {
    tok.len() > 0 && tok[0] == '/' as u8
}

impl<'a> View for Path<'a> {
    type V = Seq<u8>;

    closed spec fn view(&self) -> Seq<u8> {
        self.path.spec_bytes()
    }
}

impl<'a> Path<'a> {
    /// Reads a path token; it must be non-empty and begin with `/`.
    pub fn try_from(value: &'a str) -> (r: Result<Path<'a>, Error>)
        ensures
            path_ok(value.spec_bytes()) ==> (r matches Ok(p) && p@ == value.spec_bytes()),
            !path_ok(value.spec_bytes()) ==> r == Err::<Path<'a>, Error>(Error::HttpPathParsing),
    {
        let b = value.as_bytes();
        if b.len() == 0 || b[0] != '/' as u8 {
            return Err(Error::HttpPathParsing);
        }
        Ok(Path { path: value })
    }

    /// The path text.
    pub fn as_str(&self) -> (r: &'a str)
        ensures
            r.spec_bytes() == self@,
    {
        self.path
    }
}

} // verus!
