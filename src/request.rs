use vstd::prelude::*;
use vstd::string::*;
use vstd::utf8::{is_char_boundary, valid_utf8};


use crate::error::Error;
use crate::headers::{headers_spec, Headers};
use crate::method::{method_spec, Method};
use crate::path::{path_ok, Path};
use crate::text::{occurs_at, split_from, parse_usize, pieces_bytes, split_spec, split_str, unsigned_spec};
use crate::version::{version_spec, Version};

verus! {

broadcast use vstd::utf8::encode_utf8_valid_utf8;

/// What a parsed request holds, as bytes of the buffer.
pub struct RequestView {
    pub method: Method,
    pub path: Seq<u8>,
    pub version: Version,
    pub headers: Map<Seq<u8>, Seq<u8>>,
    pub body: Option<Seq<u8>>,
}

/// The line terminator.
pub open spec fn crlf() -> Seq<u8> {
    seq!['\r' as u8, '\n' as u8]
}

/// The separator of the status-line tokens.
pub open spec fn space() -> Seq<u8> {
    seq![' ' as u8]
}

/// The header that gives the length of the body.
pub open spec fn content_length_key() -> Seq<u8> {
    "Content-Length".spec_bytes()
}

/// The index of the first empty line at or after line `i`.
pub open spec fn first_blank_from(lines: Seq<Seq<u8>>, i: int) -> Option<int>
    decreases lines.len() - i,
{
    if i < 0 || i >= lines.len() {
        None
    } else if lines[i].len() == 0 {
        Some(i)
    } else {
        first_blank_from(lines, i + 1)
    }
}

/// The body of a request with headers `headers`, whose empty line is line `blank`:
/// none without `Content-Length`, else that many bytes of the line after the empty one.
pub open spec fn body_spec(headers: Map<Seq<u8>, Seq<u8>>, lines: Seq<Seq<u8>>, blank: int) -> Result<
    Option<Seq<u8>>,
    Error,
> {
    if !headers.contains_key(content_length_key()) {
        Ok(None)
    } else {
        match unsigned_spec(headers[content_length_key()]) {
            None => Err(Error::HttpContentLengthParsing),
            Some(n) => if blank + 1 >= lines.len() || n > lines[blank + 1].len() {
                Err(Error::HttpBodyTooShort)
            } else if !is_char_boundary(lines[blank + 1], n as int) {
                Err(Error::HttpBodySplitsCharacter)
            } else {
                Ok(Some(lines[blank + 1].subrange(0, n as int)))
            },
        }
    }
}

/// The request that the buffer `buf` holds, or the first reason it is not one.
pub open spec fn parse_spec(buf: Seq<u8>) -> Result<RequestView, Error> {
    let lines = split_spec(buf, crlf());
    if !valid_utf8(buf) {
        Err(Error::HttpUnableToParse)
    } else if lines.len() < 2 {
        Err(Error::HttpMalformedRequest)
    } else {
        let toks = split_spec(lines[0], space());
        if toks.len() != 3 {
            Err(Error::HttpMalformedRequest)
        } else {
            match method_spec(toks[0]) {
                Err(e) => Err(e),
                Ok(method) => if !path_ok(toks[1]) {
                    Err(Error::HttpPathParsing)
                } else {
                    match version_spec(toks[2]) {
                        Err(e) => Err(e),
                        Ok(version) => match first_blank_from(lines, 1) {
                            None => Ok(
                                RequestView {
                                    method,
                                    path: toks[1],
                                    version,
                                    headers: Map::empty(),
                                    body: None,
                                },
                            ),
                            Some(blank) => match headers_spec(lines.subrange(1, blank)) {
                                Err(e) => Err(e),
                                Ok(headers) => match body_spec(headers, lines, blank) {
                                    Err(e) => Err(e),
                                    Ok(body) => Ok(
                                        RequestView { method, path: toks[1], version, headers, body },
                                    ),
                                },
                            },
                        },
                    }
                },
            }
        }
    }
}

/// The request made of the status line `METHOD PATH HTTP/1.1` and an empty line.
pub open spec fn status_only_request(method: Seq<u8>, path: Seq<u8>) -> Seq<u8> {
    method + space() + path + space() + "HTTP/1.1".spec_bytes() + crlf() + crlf()
}

/// Bytes of ASCII text.
proof fn lemma_ascii_literal(s: &str)
    requires
        is_ascii(s),
    ensures
        s.spec_bytes() == Seq::new(s@.len(), |i: int| s@[i] as u8),
        forall|i: int| 0 <= i < s@.len() ==> #[trigger] s.spec_bytes()[i] == s@[i] as u8,
{
    vstd::string::is_ascii_spec_bytes(s);
}

/// A buffer that is not valid UTF-8 is never a request: parsing it reports an
/// encoding error.
pub proof fn lemma_invalid_utf8_rejected(buf: Seq<u8>)
    requires
        !valid_utf8(buf),
    ensures
        parse_spec(buf) == Err::<RequestView, Error>(Error::HttpUnableToParse),
{
}

/// A request of a status line alone, `METHOD PATH HTTP/1.1` and an empty line, with
/// a method this server knows and a path without spaces or carriage returns,
/// parses and gives back its method, path and version, with no headers and no body.
pub proof fn lemma_status_line_round_trip(method: Seq<u8>, path: Seq<u8>)
    requires
        method_spec(method) is Ok,
        path_ok(path),
        valid_utf8(path),
        forall|k: int| 0 <= k < path.len() ==> #[trigger] path[k] != ' ' as u8 && path[k] != '\r' as u8,
    ensures
        parse_spec(status_only_request(method, path)) == Ok::<RequestView, Error>(
            RequestView {
                method: method_spec(method)->Ok_0,
                path,
                version: Version::Http1_1,
                headers: Map::empty(),
                body: None,
            },
        ),
{
    broadcast use vstd::utf8::valid_utf8_concat;

    reveal_strlit("GET");
    reveal_strlit("POST");
    reveal_strlit("HTTP/1.1");
    reveal_strlit(" ");
    reveal_strlit("\r\n");
    lemma_ascii_literal("GET");
    lemma_ascii_literal("POST");
    lemma_ascii_literal("HTTP/1.1");
    lemma_ascii_literal(" ");
    lemma_ascii_literal("\r\n");
    let v = "HTTP/1.1".spec_bytes();
    assert(" ".spec_bytes() =~= space());
    assert("\r\n".spec_bytes() =~= crlf());
    assert(method == "GET".spec_bytes() || method == "POST".spec_bytes());
    assert(forall|k: int| 0 <= k < method.len() ==> #[trigger] method[k] != ' ' as u8 && method[k] != '\r' as u8);
    assert(forall|k: int| 0 <= k < v.len() ==> #[trigger] v[k] != ' ' as u8 && v[k] != '\r' as u8);
    let line = method + space() + path + space() + v;
    let buf = status_only_request(method, path);
    assert(buf =~= line + crlf() + crlf());
    assert(valid_utf8(method));
    assert(valid_utf8(space()));
    assert(valid_utf8(v));
    assert(valid_utf8(crlf()));
    assert(valid_utf8(method + space()));
    assert(valid_utf8(method + space() + path));
    assert(valid_utf8(method + space() + path + space()));
    assert(valid_utf8(line));
    assert(valid_utf8(line + crlf()));
    assert(valid_utf8(buf));
    let n = line.len() as int;
    // the lines: the status line and two empty ones
    assert forall|k: int| 0 <= k < n implies #[trigger] buf[k] != crlf()[0] by {
        assert(buf[k] == line[k]);
        let ml = method.len() as int;
        let pl = path.len() as int;
        if k < ml {
            assert(line[k] == method[k]);
        } else if k == ml {
        } else if k < ml + 1 + pl {
            assert(line[k] == path[k - ml - 1]);
        } else if k == ml + 1 + pl {
        } else {
            assert(line[k] == v[k - ml - 2 - pl]);
        }
    }
    crate::text::lemma_split_skip(buf, crlf(), 0, 0, n);
    assert(buf.subrange(n, n + 2) =~= crlf());
    assert(buf.subrange(n + 2, n + 4) =~= crlf());
    assert(buf.subrange(0, n) =~= line);
    let lines = split_spec(buf, crlf());
    assert(buf.len() == n + 4);
    assert(occurs_at(buf, crlf(), n));
    assert(occurs_at(buf, crlf(), n + 2));
    let e = Seq::<u8>::empty();
    assert(split_from(buf, crlf(), n + 4, n + 4) == seq![buf.subrange(n + 4, n + 4)]);
    assert(buf.subrange(n + 4, n + 4) =~= e);
    assert(buf.subrange(n + 2, n + 2) =~= e);
    assert(split_from(buf, crlf(), n + 2, n + 2) =~= seq![e, e]);
    assert(split_from(buf, crlf(), 0, n) =~= seq![line, e, e]);
    assert(lines =~= seq![line, e, e]);
    // the tokens of the status line
    let ml = method.len() as int;
    let pl = path.len() as int;
    assert forall|k: int| 0 <= k < ml implies #[trigger] line[k] != space()[0] by {
        assert(line[k] == method[k]);
    }
    crate::text::lemma_split_skip(line, space(), 0, 0, ml);
    assert(line.subrange(ml, ml + 1) =~= space());
    assert forall|k: int| ml + 1 <= k < ml + 1 + pl implies #[trigger] line[k] != space()[0] by {
        assert(line[k] == path[k - ml - 1]);
    }
    crate::text::lemma_split_skip(line, space(), ml + 1, ml + 1, ml + 1 + pl);
    assert(line.subrange(ml + 1 + pl, ml + 2 + pl) =~= space());
    assert forall|k: int| ml + 2 + pl <= k < n implies #[trigger] line[k] != space()[0] by {
        assert(line[k] == v[k - ml - 2 - pl]);
    }
    crate::text::lemma_split_skip(line, space(), ml + 2 + pl, ml + 2 + pl, n);
    let toks = split_spec(line, space());
    assert(toks =~= seq![method, path, v]) by {
        assert(line.subrange(0, ml) =~= method);
        assert(line.subrange(ml + 1, ml + 1 + pl) =~= path);
        assert(line.subrange(ml + 2 + pl, n) =~= v);
    }
    assert(first_blank_from(lines, 1) == Some(1int));
    assert(lines.subrange(1, 1) =~= Seq::<Seq<u8>>::empty());
    assert(headers_spec(lines.subrange(1, 1)) == Ok::<Map<Seq<u8>, Seq<u8>>, Error>(Map::empty()));
}

/// Relies on `std::str::from_utf8`: it succeeds exactly on valid UTF-8, and then
/// the text it returns has the same bytes.
#[verifier::external_body]
fn decode_utf8<'a>(b: &'a [u8]) -> (r: Option<&'a str>)
    ensures
        r is Some <==> valid_utf8(b@),
        r matches Some(s) ==> s.spec_bytes() == b@,
{
    std::str::from_utf8(b).ok()
}

/// The index of the first empty line after the status line, or the number of
/// lines where there is none.
fn first_blank(lines: &Vec<&str>) -> (r: usize)
    requires
        lines@.len() >= 1,
    ensures
        1 <= r <= lines@.len(),
        r == lines@.len() ==> first_blank_from(pieces_bytes(lines@), 1) is None,
        r < lines@.len() ==> first_blank_from(pieces_bytes(lines@), 1) == Some(r as int),
{
    let ghost ls = pieces_bytes(lines@);
    let mut i: usize = 1;
    while i < lines.len()
        invariant
            ls == pieces_bytes(lines@),
            1 <= i <= lines@.len(),
            first_blank_from(ls, 1) == first_blank_from(ls, i as int),
        decreases lines@.len() - i,
    {
        assert(ls[i as int] == lines@[i as int].spec_bytes());
        if lines[i].as_bytes().len() == 0 {
            return i;
        }
        i += 1;
    }
    i
}

/// A parsed request; its parts borrow from the buffer that was read.
#[derive(Debug)]
pub struct Request<'a> {
    pub method: Method,
    pub path: Path<'a>,
    pub version: Version,
    pub headers: Headers<'a>,
    pub body: Option<&'a str>,
}

impl<'a> View for Request<'a> {
    type V = RequestView;

    open spec fn view(&self) -> RequestView {
        RequestView {
            method: self.method,
            path: self.path@,
            version: self.version,
            headers: self.headers@,
            body: match self.body {
                Some(b) => Some(b.spec_bytes()),
                None => None,
            },
        }
    }
}

impl<'a> Request<'a> {
    /// Parses a request from the bytes read off a connection.
    pub fn from(buf: &'a [u8]) -> (r: Result<Request<'a>, Error>)
        ensures
            match r {
                Ok(req) => parse_spec(buf@) == Ok::<RequestView, Error>(req@),
                Err(e) => parse_spec(buf@) == Err::<RequestView, Error>(e),
            },
    {
        let text = match decode_utf8(buf) {
            None => return Err(Error::HttpUnableToParse),
            Some(t) => t,
        };
        let crlf_bytes = "\r\n".as_bytes();
        let space_bytes = " ".as_bytes();
        proof {
            reveal_strlit("\r\n");
            reveal_strlit(" ");
            vstd::string::is_ascii_spec_bytes("\r\n");
            vstd::string::is_ascii_spec_bytes(" ");
            assert(crlf_bytes@ =~= crlf());
            assert(space_bytes@ =~= space());
        }
        let lines = split_str(text, crlf_bytes);
        let ghost ls = pieces_bytes(lines@);
        if lines.len() < 2 {
            return Err(Error::HttpMalformedRequest);
        }
        proof {
            assert(ls[0] == lines@[0].spec_bytes());
        }
        let toks = split_str(lines[0], space_bytes);
        let ghost ts = pieces_bytes(toks@);
        if toks.len() != 3 {
            return Err(Error::HttpMalformedRequest);
        }
        proof {
            assert(ts[0] == toks@[0].spec_bytes());
            assert(ts[1] == toks@[1].spec_bytes());
            assert(ts[2] == toks@[2].spec_bytes());
        }
        let method = match Method::try_from(toks[0]) {
            Err(e) => return Err(e),
            Ok(m) => m,
        };
        let path = match Path::try_from(toks[1]) {
            Err(e) => return Err(e),
            Ok(p) => p,
        };
        let version = match Version::try_from(toks[2]) {
            Err(e) => return Err(e),
            Ok(v) => v,
        };
        let blank = first_blank(&lines);
        if blank == lines.len() {
            return Ok(Request { method, path, version, headers: Headers::new(), body: None });
        }
        proof {
            assert(split_spec(buf@, crlf()) == ls);
            assert(split_spec(ls[0], space()) == ts);
        }
        let header_lines = &lines.as_slice()[1..blank];
        proof {
            assert(pieces_bytes(header_lines@) =~= ls.subrange(1, blank as int));
        }
        let headers = match Headers::try_from(header_lines) {
            Err(e) => return Err(e),
            Ok(h) => h,
        };
        let body = match headers.get("Content-Length") {
            None => None,
            Some(v) => {
                let n = match parse_usize(v) {
                    None => return Err(Error::HttpContentLengthParsing),
                    Some(n) => n,
                };
                if blank + 1 >= lines.len() {
                    return Err(Error::HttpBodyTooShort);
                }
                let line = lines[blank + 1];
                proof {
                    assert(ls[blank + 1] == line.spec_bytes());
                }
                if n > line.as_bytes().len() {
                    return Err(Error::HttpBodyTooShort);
                }
                if !line.is_char_boundary(n) {
                    return Err(Error::HttpBodySplitsCharacter);
                }
                let (b, _) = line.split_at(n);
                Some(b)
            },
        };
        Ok(Request { method, path, version, headers, body })
    }
}

} // verus!
