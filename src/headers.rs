use vstd::prelude::*;
use vstd::string::*;

use crate::error::Error;
use crate::pairs::{lookup, pairs_bytes, pairs_is_empty, pairs_map};
use crate::text::{lemma_ascii_boundary, lemma_ascii_prefix_boundary, pieces_bytes, slice_str};

verus! {

broadcast use vstd::utf8::encode_utf8_valid_utf8;

/// The first offset at or after `i` where `s` holds the byte `b`.
pub open spec fn find_from(s: Seq<u8>, b: u8, i: int) -> Option<int>
    decreases s.len() - i,
{
    if i < 0 || i >= s.len() {
        None
    } else if s[i] == b {
        Some(i)
    } else {
        find_from(s, b, i + 1)
    }
}

/// Whether `b` is a space or a horizontal tab.
pub open spec fn is_blank(b: u8) -> bool {
    b == ' ' as u8 || b == '\t' as u8
}

/// `v` without one leading and one trailing space, where it has them.
pub open spec fn trim_one_space(v: Seq<u8>) -> Seq<u8> {
    let lo: int = if v.len() > 0 && v[0] == ' ' as u8 {
        1
    } else {
        0
    };
    let hi: int = if v.len() > lo && v[v.len() - 1] == ' ' as u8 {
        v.len() - 1
    } else {
        v.len() as int
    };
    v.subrange(lo, hi)
}

/// The key and value of the header line `line`, or why it is malformed.
pub open spec fn header_line_spec(line: Seq<u8>) -> Result<(Seq<u8>, Seq<u8>), Error> {
    match find_from(line, ':' as u8, 0) {
        None => Err(Error::HttpBadHeaders),
        Some(c) => if c == 0 {
            Err(Error::HttpHeaderNoKey)
        } else if is_blank(line[c - 1]) {
            Err(Error::HttpBadHeaders)
        } else {
            let value = trim_one_space(line.subrange(c + 1, line.len() as int));
            if value.len() == 0 {
                Err(Error::HttpHeaderNoValue)
            } else {
                Ok((line.subrange(0, c), value))
            }
        },
    }
}

/// The headers that the lines `lines[i..]` add to `acc`, or the error of the first
/// malformed one.
pub open spec fn headers_from(lines: Seq<Seq<u8>>, i: int, acc: Map<Seq<u8>, Seq<u8>>) -> Result<
    Map<Seq<u8>, Seq<u8>>,
    Error,
>
    decreases lines.len() - i,
{
    if i < 0 || i >= lines.len() {
        Ok(acc)
    } else {
        match header_line_spec(lines[i]) {
            Err(e) => Err(e),
            Ok(kv) => headers_from(lines, i + 1, acc.insert(kv.0, kv.1)),
        }
    }
}

/// The headers of the header lines `lines`: last write wins.
pub open spec fn headers_spec(lines: Seq<Seq<u8>>) -> Result<Map<Seq<u8>, Seq<u8>>, Error> {
    headers_from(lines, 0, Map::empty())
}

/// The header fields of a request, keyed by name (case-sensitive).
#[derive(Debug)]
pub struct Headers<'a> {
    kv: Vec<(&'a str, &'a str)>,
}

impl<'a> View for Headers<'a> {
    type V = Map<Seq<u8>, Seq<u8>>;

    closed spec fn view(&self) -> Map<Seq<u8>, Seq<u8>> {
        pairs_map(pairs_bytes(self.kv@))
    }
}

/// The first `:` of `line`.
fn find_colon(line: &[u8]) -> (r: Option<usize>)
    ensures
        match r {
            None => find_from(line@, ':' as u8, 0) is None,
            Some(c) => find_from(line@, ':' as u8, 0) == Some(c as int) && c < line@.len()
                && line@[c as int] == ':' as u8,
        },
{
    let mut i: usize = 0;
    while i < line.len()
        invariant
            0 <= i <= line@.len(),
            find_from(line@, ':' as u8, 0) == find_from(line@, ':' as u8, i as int),
        decreases line@.len() - i,
    {
        if line[i] == ':' as u8 {
            return Some(i);
        }
        i += 1;
    }
    None
}

/// Reads one header line into its key and value.
fn parse_header_line<'a>(line: &'a str) -> (r: Result<(&'a str, &'a str), Error>)
    ensures
        match r {
            Ok(kv) => header_line_spec(line.spec_bytes()) == Ok::<(Seq<u8>, Seq<u8>), Error>(
                (kv.0.spec_bytes(), kv.1.spec_bytes()),
            ),
            Err(e) => header_line_spec(line.spec_bytes()) == Err::<(Seq<u8>, Seq<u8>), Error>(e),
        },
{
    let b = line.as_bytes();
    let c = match find_colon(b) {
        None => return Err(Error::HttpBadHeaders),
        Some(c) => c,
    };
    if c == 0 {
        return Err(Error::HttpHeaderNoKey);
    }
    if b[c - 1] == ' ' as u8 || b[c - 1] == '\t' as u8 {
        return Err(Error::HttpBadHeaders);
    }
    let n = b.len();
    let lo: usize = if c + 1 < n && b[c + 1] == ' ' as u8 {
        c + 2
    } else {
        c + 1
    };
    let hi: usize = if n > lo && b[n - 1] == ' ' as u8 {
        n - 1
    } else {
        n
    };
    proof {
        let v = b@.subrange(c + 1, n as int);
        assert(trim_one_space(v) =~= b@.subrange(lo as int, hi as int));
    }
    if lo >= hi {
        return Err(Error::HttpHeaderNoValue);
    }
    proof {
        lemma_ascii_boundary(b@, 0);
        lemma_ascii_boundary(b@, c as int);
    }
    let key = slice_str(line, 0, c);
    let after = slice_str(line, c, n);
    proof {
        let ab = after.spec_bytes();
        assert forall|k: int| 0 <= k < lo - c implies #[trigger] ab[k] < 0x80 by {
            assert(ab[k] == b@[c + k]);
        }
        lemma_ascii_prefix_boundary(ab, lo - c);
        if hi < n {
            assert(ab[hi - c] == b@[hi as int]);
        }
    }
    let value = slice_str(after, lo - c, hi - c);
    proof {
        assert(value.spec_bytes() =~= b@.subrange(lo as int, hi as int));
    }
    Ok((key, value))
}

impl<'a> Headers<'a> {
    /// No headers.
    pub fn new() -> (r: Headers<'a>)
        ensures
            r@ == Map::<Seq<u8>, Seq<u8>>::empty(),
    {
        Headers { kv: Vec::new() }
    }

    /// The value of header `key`, if the request has it.
    pub fn get(&self, key: &str) -> (r: Option<&'a str>)
        ensures
            r is Some <==> self@.contains_key(key.spec_bytes()),
            r matches Some(v) ==> v.spec_bytes() == self@[key.spec_bytes()],
    {
        lookup(&self.kv, key)
    }

    /// Whether the request has no headers.
    pub fn is_empty(&self) -> (r: bool)
        ensures
            r == (self@.dom().len() == 0),
    {
        pairs_is_empty(&self.kv)
    }

    /// Reads the header lines `lines`, in order; the first malformed line ends the
    /// reading with its error. A later line with the same key replaces the value.
    pub fn try_from(lines: &[&'a str]) -> (r: Result<Headers<'a>, Error>)
        ensures
            match r {
                Ok(h) => headers_spec(pieces_bytes(lines@)) == Ok::<Map<Seq<u8>, Seq<u8>>, Error>(
                    h@,
                ),
                Err(e) => headers_spec(pieces_bytes(lines@)) == Err::<Map<Seq<u8>, Seq<u8>>, Error>(
                    e,
                ),
            },
    {
        let ghost ls = pieces_bytes(lines@);
        let mut kv: Vec<(&'a str, &'a str)> = Vec::new();
        let mut i: usize = 0;
        while i < lines.len()
            invariant
                ls == pieces_bytes(lines@),
                0 <= i <= lines@.len(),
                headers_spec(ls) == headers_from(ls, i as int, pairs_map(pairs_bytes(kv@))),
            decreases lines@.len() - i,
        {
            match parse_header_line(lines[i]) {
                Err(e) => {
                    return Err(e);
                },
                Ok(pair) => {
                    proof {
                        assert(pairs_bytes(kv@.push(pair)).drop_last() =~= pairs_bytes(kv@));
                    }
                    kv.push(pair);
                },
            }
            i += 1;
        }
        Ok(Headers { kv })
    }
}

} // verus!
