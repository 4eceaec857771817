use vstd::prelude::*;
use vstd::string::*;
use vstd::utf8::*;

verus! {

broadcast use vstd::utf8::encode_utf8_valid_utf8;

/// The bytes of each piece of text in `v`.
pub open spec fn pieces_bytes(v: Seq<&str>) -> Seq<Seq<u8>> {
    v.map_values(|p: &str| p.spec_bytes())
}

/// True when every byte of `p` is ASCII.
pub open spec fn all_ascii(p: Seq<u8>) -> bool {
    forall|k: int| 0 <= k < p.len() ==> #[trigger] p[k] < 0x80
}

/// True when `pat` occurs in `s` at byte offset `i`.
pub open spec fn occurs_at(s: Seq<u8>, pat: Seq<u8>, i: int) -> bool {
    0 <= i && i + pat.len() <= s.len() && s.subrange(i, i + pat.len()) == pat
}

/// The pieces of `s[start..]`, scanning for `pat` from offset `i` on: each leftmost
/// occurrence of `pat` ends a piece, and the scan goes on after it.
pub open spec fn split_from(s: Seq<u8>, pat: Seq<u8>, start: int, i: int) -> Seq<Seq<u8>>
    decreases s.len() - i,
{
    if i + pat.len() > s.len() || pat.len() == 0 {
        seq![s.subrange(start, s.len() as int)]
    } else if occurs_at(s, pat, i) {
        seq![s.subrange(start, i)] + split_from(s, pat, i + pat.len(), i + pat.len())
    } else {
        split_from(s, pat, start, i + 1)
    }
}

/// The pieces of `s` between the non-overlapping occurrences of `pat`, found from the left.
pub open spec fn split_spec(s: Seq<u8>, pat: Seq<u8>) -> Seq<Seq<u8>> {
    split_from(s, pat, 0, 0)
}

/// The scan passes over positions where `pat` cannot start.
pub proof fn lemma_split_skip(s: Seq<u8>, pat: Seq<u8>, start: int, i: int, j: int)
    requires
        pat.len() > 0,
        0 <= i <= j,
        j + pat.len() <= s.len() + 1,
        forall|k: int| i <= k < j ==> #[trigger] s[k] != pat[0],
    ensures
        split_from(s, pat, start, i) == split_from(s, pat, start, j),
    decreases j - i,
{
    if i < j {
        assert(s[i] != pat[0]);
        if occurs_at(s, pat, i) {
            assert(s.subrange(i, i + pat.len())[0] == s[i]);
        }
        lemma_split_skip(s, pat, start, i + 1, j);
    }
}

/// A position after a leading ASCII byte is a character boundary of the
/// whole text exactly when it is one of the text after that byte.
proof fn lemma_boundary_shift(bytes: Seq<u8>, k: int)
    requires
        valid_utf8(bytes),
        bytes.len() >= 1,
        bytes[0] < 0x80,
        1 <= k,
    ensures
        valid_utf8(bytes.subrange(1, bytes.len() as int)),
        is_char_boundary(bytes, k) == is_char_boundary(bytes.subrange(1, bytes.len() as int), k - 1),
{
    assert(length_of_first_scalar(bytes) == 1);
    assert(pop_first_scalar(bytes) == bytes.subrange(1, bytes.len() as int));
}

/// After a run of ASCII bytes at its start, valid UTF-8 text has a character boundary.
pub proof fn lemma_ascii_prefix_boundary(bytes: Seq<u8>, n: int)
    requires
        valid_utf8(bytes),
        0 <= n <= bytes.len(),
        forall|k: int| 0 <= k < n ==> #[trigger] bytes[k] < 0x80,
    ensures
        is_char_boundary(bytes, n),
    decreases n,
{
    if n > 0 {
        let tail = bytes.subrange(1, bytes.len() as int);
        lemma_boundary_shift(bytes, n);
        assert forall|k: int| 0 <= k < n - 1 implies #[trigger] tail[k] < 0x80 by {
            assert(tail[k] == bytes[k + 1]);
        }
        lemma_ascii_prefix_boundary(tail, n - 1);
    }
}

/// Valid UTF-8 text has a character boundary at its start, before each ASCII byte and at its end.
pub proof fn lemma_ascii_boundary(bytes: Seq<u8>, i: int)
    requires
        valid_utf8(bytes),
        0 <= i <= bytes.len(),
        i == 0 || i == bytes.len() || bytes[i] < 0x80,
    ensures
        is_char_boundary(bytes, i),
{
    is_char_boundary_start_end_of_seq(bytes);
    if i < bytes.len() {
        is_char_boundary_iff_not_is_continuation_byte(bytes, i);
    }
}

/// Whether `pat` occurs in `s` at byte offset `i`.
pub fn occurs_at_exec(s: &[u8], pat: &[u8], i: usize) -> (r: bool)
    ensures
        r == occurs_at(s@, pat@, i as int),
{
    if pat.len() > s.len() || i > s.len() - pat.len() {
        return false;
    }
    let mut k: usize = 0;
    while k < pat.len()
        invariant
            i + pat@.len() <= s@.len(),
            0 <= k <= pat@.len(),
            forall|m: int| 0 <= m < k ==> s@[i + m] == pat@[m],
        decreases pat.len() - k,
    {
        assert(i + k < s.len());
        if s[i + k] != pat[k] {
            assert(s@.subrange(i as int, i + pat@.len())[k as int] != pat@[k as int]);
            return false;
        }
        k += 1;
    }
    assert(s@.subrange(i as int, i + pat@.len()) =~= pat@);
    true
}

/// Whether two byte strings are equal.
pub fn bytes_eq(a: &[u8], b: &[u8]) -> (r: bool)
    ensures
        r == (a@ == b@),
{
    if a.len() != b.len() {
        return false;
    }
    let r = occurs_at_exec(a, b, 0);
    proof {
        if r {
            assert(a@ =~= a@.subrange(0, b@.len() as int));
        } else {
            assert(a@.subrange(0, b@.len() as int) =~= a@);
        }
    }
    r
}

/// Whether two strings hold the same text.
pub fn str_eq(a: &str, b: &str) -> (r: bool)
    ensures
        r == (a.spec_bytes() == b.spec_bytes()),
        r == (a@ == b@),
{
    proof {
        vstd::utf8::encode_utf8_decode_utf8(a@);
        vstd::utf8::encode_utf8_decode_utf8(b@);
    }
    bytes_eq(a.as_bytes(), b.as_bytes())
}

/// The text of `s` from byte offset `i` to byte offset `j`, where `i` is a character
/// boundary and `j` is the end of `s` or the offset of an ASCII byte.
pub fn slice_str<'a>(s: &'a str, i: usize, j: usize) -> (r: &'a str)
    requires
        i <= j <= s.spec_bytes().len(),
        is_char_boundary(s.spec_bytes(), i as int),
        j == s.spec_bytes().len() || s.spec_bytes()[j as int] < 0x80,
    ensures
        r.spec_bytes() == s.spec_bytes().subrange(i as int, j as int),
{
    let (_, rest) = s.split_at(i);
    proof {
        let b = rest.spec_bytes();
        assert(b.len() == s.spec_bytes().len() - i);
        if j < s.spec_bytes().len() {
            assert(b[j - i] == s.spec_bytes()[j as int]);
        }
        lemma_ascii_boundary(b, j - i);
    }
    let (r, _) = rest.split_at(j - i);
    proof {
        assert(r.spec_bytes() =~= s.spec_bytes().subrange(i as int, j as int));
    }
    r
}

/// Splits `s` at each leftmost occurrence of the ASCII pattern `pat`, as `str::split` does.
pub fn split_str<'a>(s: &'a str, pat: &[u8]) -> (r: Vec<&'a str>)
    requires
        pat@.len() > 0,
        all_ascii(pat@),
    ensures
        pieces_bytes(r@) == split_spec(s.spec_bytes(), pat@),
        r@.len() >= 1,
{
    let bytes = s.as_bytes();
    let n = pat.len();
    let mut pieces: Vec<&'a str> = Vec::new();
    let mut rest: &'a str = s;
    let mut start: usize = 0;
    let mut i: usize = 0;
    while n <= bytes.len() && i <= bytes.len() - n
        invariant
            bytes@ == s.spec_bytes(),
            n == pat@.len(),
            n > 0,
            all_ascii(pat@),
            0 <= start <= i <= bytes@.len(),
            rest.spec_bytes() == bytes@.subrange(start as int, bytes@.len() as int),
            pieces_bytes(pieces@) + split_from(bytes@, pat@, start as int, i as int) == split_spec(
                bytes@,
                pat@,
            ),
        decreases bytes@.len() - i,
    {
        if occurs_at_exec(bytes, pat, i) {
            let ghost rb = rest.spec_bytes();
            proof {
                assert(rb[i - start] == pat@[0]);
                lemma_ascii_boundary(rb, i - start);
            }
            let (piece, tail) = rest.split_at(i - start);
            proof {
                let tb = tail.spec_bytes();
                assert forall|k: int| 0 <= k < n implies #[trigger] tb[k] < 0x80 by {
                    assert(tb[k] == bytes@.subrange(i as int, i + n)[k]);
                }
                lemma_ascii_prefix_boundary(tb, n as int);
            }
            let (_, after) = tail.split_at(n);
            proof {
                assert(piece.spec_bytes() =~= bytes@.subrange(start as int, i as int));
                assert(after.spec_bytes() =~= bytes@.subrange(i + n, bytes@.len() as int));
                assert(pieces_bytes(pieces@.push(piece)) =~= pieces_bytes(pieces@).push(
                    piece.spec_bytes(),
                ));
                assert(pieces_bytes(pieces@) + split_from(bytes@, pat@, start as int, i as int)
                    =~= pieces_bytes(pieces@.push(piece)) + split_from(
                    bytes@,
                    pat@,
                    i + n,
                    i + n,
                ));
            }
            pieces.push(piece);
            rest = after;
            start = i + n;
            i = i + n;
        } else {
            i += 1;
        }
    }
    proof {
        assert(pieces_bytes(pieces@.push(rest)) =~= pieces_bytes(pieces@).push(rest.spec_bytes()));
        assert(pieces_bytes(pieces@) + split_from(bytes@, pat@, start as int, i as int)
            =~= pieces_bytes(pieces@.push(rest)));
    }
    pieces.push(rest);
    pieces
}

/// Whether `b` is an ASCII decimal digit.
pub open spec fn is_digit(b: u8) -> bool {
    '0' as u8 <= b <= '9' as u8
}

/// The number that the decimal digits `s` write.
pub open spec fn digits_value(s: Seq<u8>) -> nat
    decreases s.len(),
{
    if s.len() == 0 {
        0
    } else {
        digits_value(s.drop_last()) * 10 + (s.last() - '0' as u8) as nat
    }
}

/// `s` without a leading `+`, where it has one.
pub open spec fn without_plus(s: Seq<u8>) -> Seq<u8> {
    if s.len() > 0 && s[0] == '+' as u8 {
        s.subrange(1, s.len() as int)
    } else {
        s
    }
}

/// Whether every byte of `d` is a decimal digit.
pub open spec fn all_digits(d: Seq<u8>) -> bool {
    forall|k: int| 0 <= k < d.len() ==> is_digit(#[trigger] d[k])
}

/// The `usize` that `s` writes: an optional `+`, then one or more decimal digits,
/// with a value that fits in `usize`. This is what `usize::from_str` accepts.
pub open spec fn unsigned_spec(s: Seq<u8>) -> Option<nat> {
    let d = without_plus(s);
    if d.len() > 0 && all_digits(d) && digits_value(d) <= usize::MAX {
        Some(digits_value(d))
    } else {
        None
    }
}

/// More digits never write a smaller number.
proof fn lemma_digits_value_prefix(d: Seq<u8>, j: int)
    requires
        0 <= j <= d.len(),
        forall|k: int| 0 <= k < d.len() ==> is_digit(#[trigger] d[k]),
    ensures
        digits_value(d) >= digits_value(d.subrange(0, j)),
    decreases d.len(),
{
    if j < d.len() {
        let t = d.drop_last();
        assert forall|k: int| 0 <= k < t.len() implies is_digit(#[trigger] t[k]) by {
            assert(t[k] == d[k]);
        }
        lemma_digits_value_prefix(t, j);
        assert(t.subrange(0, j) =~= d.subrange(0, j));
    } else {
        assert(d.subrange(0, j) =~= d);
    }
}

/// Reads an unsigned decimal number as `usize::from_str` does.
pub fn parse_usize(s: &str) -> (r: Option<usize>)
    ensures
        match r {
            Some(n) => unsigned_spec(s.spec_bytes()) == Some(n as nat),
            None => unsigned_spec(s.spec_bytes()) is None,
        },
{
    let b = s.as_bytes();
    let start: usize = if b.len() > 0 && b[0] == '+' as u8 {
        1
    } else {
        0
    };
    let ghost d = without_plus(b@);
    proof {
        assert(d =~= b@.subrange(start as int, b@.len() as int));
    }
    if start >= b.len() {
        return None;
    }
    let mut acc: usize = 0;
    let mut i: usize = start;
    while i < b.len()
        invariant
            d == b@.subrange(start as int, b@.len() as int),
            d == without_plus(b@),
            b@ == s.spec_bytes(),
            start <= i <= b@.len(),
            acc == digits_value(d.subrange(0, i - start)),
            forall|k: int| 0 <= k < i - start ==> is_digit(#[trigger] d[k]),
        decreases b@.len() - i,
    {
        let c = b[i];
        if c < '0' as u8 || c > '9' as u8 {
            assert(!is_digit(d[i - start]));
            assert(!all_digits(d));
            return None;
        }
        let dgt = (c - '0' as u8) as usize;
        let ghost next = d.subrange(0, i - start + 1);
        proof {
            assert(next.drop_last() =~= d.subrange(0, i - start));
            assert(next.last() == c);
        }
        if acc > (usize::MAX - dgt) / 10 {
            proof {
                assert(acc * 10 + dgt > usize::MAX) by (nonlinear_arith)
                    requires
                        acc > (usize::MAX - dgt) / 10,
                        dgt <= 9,
                ;
                if all_digits(d) {
                    lemma_digits_value_prefix(d, i - start + 1);
                }
            }
            return None;
        }
        acc = acc * 10 + dgt;
        i += 1;
    }
    proof {
        assert(d.subrange(0, i - start) =~= d);
    }
    Some(acc)
}

} // verus!
