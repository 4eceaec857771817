use vstd::prelude::*;
use vstd::string::*;

use crate::headers::find_from;
use crate::text::{lemma_ascii_boundary, slice_str};

verus! {

broadcast use vstd::utf8::encode_utf8_valid_utf8;

/// The offset of the first space of `s`, or its length where it has none.
pub open spec fn first_space(s: Seq<u8>) -> int {
    match find_from(s, ' ' as u8, 0) {
        Some(i) => i,
        None => s.len() as int,
    }
}

/// The offset of the first space of `s`, or its length where it has none.
fn find_space(s: &str) -> (r: usize)
    ensures
        r == first_space(s.spec_bytes()),
        r <= s.spec_bytes().len(),
        r < s.spec_bytes().len() ==> s.spec_bytes()[r as int] == ' ' as u8,
{
    let b = s.as_bytes();
    let mut i: usize = 0;
    while i < b.len()
        invariant
            b@ == s.spec_bytes(),
            0 <= i <= b@.len(),
            find_from(b@, ' ' as u8, 0) == find_from(b@, ' ' as u8, i as int),
        decreases b@.len() - i,
    {
        if b[i] == ' ' as u8 {
            return i;
        }
        i += 1;
    }
    i
}

/// The text of `sentence` before its first space; all of it where it has none.
pub fn first_word(sentence: &str) -> (r: &str)
    ensures
        r.spec_bytes() == sentence.spec_bytes().subrange(0, first_space(sentence.spec_bytes())),
{
    let i = find_space(sentence);
    proof {
        lemma_ascii_boundary(sentence.spec_bytes(), 0);
    }
    slice_str(sentence, 0, i)
}

/// The text of `sentence` from its first space on; nothing where it has none.
pub fn exclude_first_word(sentence: &str) -> (r: &str)
    ensures
        r.spec_bytes() == sentence.spec_bytes().subrange(
            first_space(sentence.spec_bytes()),
            sentence.spec_bytes().len() as int,
        ),
{
    let i = find_space(sentence);
    let n = sentence.as_bytes().len();
    proof {
        lemma_ascii_boundary(sentence.spec_bytes(), i as int);
    }
    slice_str(sentence, i, n)
}

} // verus!
