use vstd::prelude::*;
use vstd::string::*;

use crate::error::Error;
use crate::identifiers::Identifiers;
use crate::method::Method;
use crate::request::Request;

verus! {

broadcast use vstd::utf8::encode_utf8_valid_utf8;

/// The decimal digits of `n`, most significant first, without leading zeros.
pub open spec fn decimal_spec(n: nat) -> Seq<u8>
    decreases n,
{
    if n < 10 {
        seq![('0' as nat + n) as u8]
    } else {
        decimal_spec(n / 10).push(('0' as nat + n % 10) as u8)
    }
}

/// The response that carries `body` as plain text.
pub open spec fn text_response_spec(body: Seq<u8>) -> Seq<u8> {
    "HTTP/1.1 200 OK\r\nContent-Type: text/plain\r\nContent-Length: ".spec_bytes() + decimal_spec(
        body.len(),
    ) + "\r\n\r\n".spec_bytes() + body + "\r\n".spec_bytes()
}

/// The response that carries `data` as the bytes of a file.
pub open spec fn file_response_spec(data: Seq<u8>) -> Seq<u8> {
    "HTTP/1.1 200 OK\r\nContent-Type: application/octet-stream\r\nContent-Length: ".spec_bytes()
        + decimal_spec(data.len()) + "\r\n\r\n".spec_bytes() + data + "\r\n".spec_bytes()
}

/// The response to a request served without content.
pub open spec fn ok_response_spec() -> Seq<u8> {
    "HTTP/1.1 200 OK\r\n\r\n".spec_bytes()
}

/// The response to a request that stored what it sent.
pub open spec fn created_response_spec() -> Seq<u8> {
    "HTTP/1.1 201 Created\r\n\r\n".spec_bytes()
}

/// The response to a request that nothing serves.
pub open spec fn not_found_response_spec() -> Seq<u8> {
    "HTTP/1.1 404 Not Found\r\n\r\n".spec_bytes()
}

/// Appends `s` to `v`.
fn append(v: &mut Vec<u8>, s: &[u8])
    ensures
        final(v)@ == old(v)@ + s@,
{
    let mut i: usize = 0;
    while i < s.len()
        invariant
            0 <= i <= s@.len(),
            v@ == old(v)@ + s@.subrange(0, i as int),
        decreases s@.len() - i,
    {
        v.push(s[i]);
        i += 1;
        assert(v@ =~= old(v)@ + s@.subrange(0, i as int));
    }
    assert(s@.subrange(0, i as int) =~= s@);
}

/// Appends the decimal digits of `n` to `v`.
fn append_decimal(v: &mut Vec<u8>, n: usize)
    ensures
        final(v)@ == old(v)@ + decimal_spec(n as nat),
    decreases n,
{
    if n >= 10 {
        append_decimal(v, n / 10);
    }
    v.push(('0' as u8) + (n % 10) as u8);
    proof {
        if n >= 10 {
            assert(v@ =~= old(v)@ + decimal_spec(n as nat));
        } else {
            assert(v@ =~= old(v)@ + decimal_spec(n as nat));
        }
    }
}

/// `head`, then the decimal length of `body`, then a blank line, `body` and a
/// line end.
fn framed(head: &str, body: &[u8]) -> (r: Vec<u8>)
    ensures
        r@ == head.spec_bytes() + decimal_spec(body@.len()) + "\r\n\r\n".spec_bytes() + body@
            + "\r\n".spec_bytes(),
{
    let mut v: Vec<u8> = Vec::new();
    append(&mut v, head.as_bytes());
    append_decimal(&mut v, body.len());
    append(&mut v, "\r\n\r\n".as_bytes());
    append(&mut v, body);
    append(&mut v, "\r\n".as_bytes());
    proof {
        assert(v@ =~= head.spec_bytes() + decimal_spec(body@.len()) + "\r\n\r\n".spec_bytes()
            + body@ + "\r\n".spec_bytes());
    }
    v
}

/// The response that carries `body` as plain text.
pub fn text_response(body: &str) -> (r: Vec<u8>)
    ensures
        r@ == text_response_spec(body.spec_bytes()),
{
    framed("HTTP/1.1 200 OK\r\nContent-Type: text/plain\r\nContent-Length: ", body.as_bytes())
}

/// The response that carries `data` as the bytes of a file.
pub fn file_response(data: &[u8]) -> (r: Vec<u8>)
    ensures
        r@ == file_response_spec(data@),
{
    framed("HTTP/1.1 200 OK\r\nContent-Type: application/octet-stream\r\nContent-Length: ", data)
}

/// The response to a request served without content.
pub fn ok_response() -> (r: Vec<u8>)
    ensures
        r@ == ok_response_spec(),
{
    let mut v: Vec<u8> = Vec::new();
    append(&mut v, "HTTP/1.1 200 OK\r\n\r\n".as_bytes());
    v
}

/// The response to a request that stored what it sent.
pub fn created_response() -> (r: Vec<u8>)
    ensures
        r@ == created_response_spec(),
{
    let mut v: Vec<u8> = Vec::new();
    append(&mut v, "HTTP/1.1 201 Created\r\n\r\n".as_bytes());
    v
}

/// The response to a request that nothing serves.
pub fn not_found_response() -> (r: Vec<u8>)
    ensures
        r@ == not_found_response_spec(),
{
    let mut v: Vec<u8> = Vec::new();
    append(&mut v, "HTTP/1.1 404 Not Found\r\n\r\n".as_bytes());
    v
}

/// The base directory was not given as an absolute path.
#[derive(Debug, Clone, Copy, PartialEq, Eq)]
pub struct BaseDirectoryNotFound;

/// Relies on `std::path::Path::is_absolute`. What counts as absolute differs
/// between platforms, so nothing is assumed of the answer.
#[verifier::external_body]
fn path_is_absolute(p: &str) -> (r: bool) {
    std::path::Path::new(p).is_absolute()
}

/// Relies on `std::path::Path::join`: `name` under the directory `base`. The
/// separator, and what an absolute `name` does, differ between platforms, so
/// nothing is assumed of the result.
#[verifier::external_body]
fn join_path(base: &str, name: &str) -> (r: String) {
    std::path::Path::new(base).join(name).to_string_lossy().into_owned()
}

/// Where the server keeps the files it serves.
#[derive(Debug)]
pub struct FileHandler {
    base_dir: String,
}

impl FileHandler {
    /// The directory that holds the files.
    pub closed spec fn base_dir_spec(&self) -> Seq<char> {
        self.base_dir@
    }

    /// Files under the directory `path`, which must be absolute.
    pub fn new(path: String) -> (r: Result<FileHandler, BaseDirectoryNotFound>)
        ensures
            r matches Ok(h) ==> h.base_dir_spec() == path@,
    {
        if !path_is_absolute(path.as_str()) {
            return Err(BaseDirectoryNotFound);
        }
        Ok(FileHandler { base_dir: path })
    }

    /// Files under the directory `path`, which must be absolute.
    pub fn from(path: &str) -> (r: Result<FileHandler, BaseDirectoryNotFound>)
        ensures
            r matches Ok(h) ==> h.base_dir_spec() == path@,
    {
        FileHandler::new(path.to_owned())
    }

    /// The directory that holds the files.
    pub fn base_dir(&self) -> (r: &str)
        ensures
            r@ == self.base_dir_spec(),
    {
        self.base_dir.as_str()
    }

    /// Where the file `name` is kept.
    pub fn get_path(&self, name: &str) -> String {
        join_path(self.base_dir.as_str(), name)
    }
}

/// What the handlers of the server share.
#[derive(Debug)]
pub struct ServerContext {
    pub file_handler: FileHandler,
}

/// Answers `GET /`.
pub fn index(req: &Request, _path_vals: &Identifiers, _ctx: &ServerContext) -> (r: Result<
    Vec<u8>,
    Error,
>)
    ensures
        req.method == Method::Get ==> (r matches Ok(v) && v@ == ok_response_spec()),
        req.method != Method::Get ==> r == Err::<Vec<u8>, Error>(Error::HandlerUnsupportedMethod),
{
    match req.method {
        Method::Get => Ok(ok_response()),
        _ => Err(Error::HandlerUnsupportedMethod),
    }
}

/// What a handler that sends back `value` as text answers: the text response
/// where there is a value, else an error.
pub open spec fn text_of(value: Option<Seq<u8>>, r: Result<Vec<u8>, Error>) -> bool {
    match value {
        Some(v) => r matches Ok(resp) && resp@ == text_response_spec(v),
        None => r == Err::<Vec<u8>, Error>(Error::HandlerMissingValue),
    }
}

/// The value of `key` in `m`, where it has one.
pub open spec fn lookup_spec(m: Map<Seq<u8>, Seq<u8>>, key: Seq<u8>) -> Option<Seq<u8>> {
    if m.contains_key(key) {
        Some(m[key])
    } else {
        None
    }
}

/// Answers `GET /echo/{msg}` with the captured message.
pub fn echo(req: &Request, path_vals: &Identifiers, ctx: &ServerContext) -> (r: Result<
    Vec<u8>,
    Error,
>)
    ensures
        req.method == Method::Get ==> text_of(lookup_spec(path_vals@, "msg".spec_bytes()), r),
        req.method != Method::Get ==> r == Err::<Vec<u8>, Error>(Error::HandlerUnsupportedMethod),
{
    match req.method {
        Method::Get => echo_get(req, path_vals, ctx),
        _ => Err(Error::HandlerUnsupportedMethod),
    }
}

/// Sends back the message captured under `msg` as text.
pub fn echo_get(_req: &Request, path_vals: &Identifiers, _ctx: &ServerContext) -> (r: Result<
    Vec<u8>,
    Error,
>)
    ensures
        text_of(lookup_spec(path_vals@, "msg".spec_bytes()), r),
{
    match path_vals.get("msg") {
        None => Err(Error::HandlerMissingValue),
        Some(msg) => Ok(text_response(msg)),
    }
}

/// Answers `GET /user-agent` with the request's `User-Agent` header.
pub fn user_agent(req: &Request, path_vals: &Identifiers, ctx: &ServerContext) -> (r: Result<
    Vec<u8>,
    Error,
>)
    ensures
        req.method == Method::Get ==> text_of(
            lookup_spec(req.headers@, "User-Agent".spec_bytes()),
            r,
        ),
        req.method != Method::Get ==> r == Err::<Vec<u8>, Error>(Error::HandlerUnsupportedMethod),
{
    match req.method {
        Method::Get => user_agent_get(req, path_vals, ctx),
        _ => Err(Error::HandlerUnsupportedMethod),
    }
}

/// Sends back the request's `User-Agent` header as text.
pub fn user_agent_get(req: &Request, _path_vals: &Identifiers, _ctx: &ServerContext) -> (r:
    Result<Vec<u8>, Error>)
    ensures
        text_of(lookup_spec(req.headers@, "User-Agent".spec_bytes()), r),
{
    match req.headers.get("User-Agent") {
        None => Err(Error::HandlerMissingValue),
        Some(agent) => Ok(text_response(agent)),
    }
}

} // verus!
