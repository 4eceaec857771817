use vstd::prelude::*;
use vstd::string::*;

use crate::text::str_eq;

verus! {

/// The map that results from inserting the pairs of `s` in order: a later pair
/// overrides an earlier one with the same key.
pub open spec fn pairs_map(s: Seq<(Seq<u8>, Seq<u8>)>) -> Map<Seq<u8>, Seq<u8>>
    decreases s.len(),
{
    if s.len() == 0 {
        Map::empty()
    } else {
        pairs_map(s.drop_last()).insert(s.last().0, s.last().1)
    }
}

/// The bytes of the pairs of text in `v`.
pub open spec fn pairs_bytes(v: Seq<(&str, &str)>) -> Seq<(Seq<u8>, Seq<u8>)> {
    v.map_values(|p: (&str, &str)| (p.0.spec_bytes(), p.1.spec_bytes()))
}

proof fn lemma_pairs_map_last(s: Seq<(Seq<u8>, Seq<u8>)>, k: Seq<u8>, j: int)
    requires
        0 <= j < s.len(),
        s[j].0 == k,
        forall|m: int| j < m < s.len() ==> #[trigger] s[m].0 != k,
    ensures
        pairs_map(s).contains_key(k),
        pairs_map(s)[k] == s[j].1,
    decreases s.len(),
{
    if j < s.len() - 1 {
        let t = s.drop_last();
        assert forall|m: int| j < m < t.len() implies #[trigger] t[m].0 != k by {
            assert(t[m] == s[m]);
        }
        lemma_pairs_map_last(t, k, j);
        assert(s.last().0 != k);
    }
}

proof fn lemma_pairs_map_absent(s: Seq<(Seq<u8>, Seq<u8>)>, k: Seq<u8>)
    requires
        forall|m: int| 0 <= m < s.len() ==> #[trigger] s[m].0 != k,
    ensures
        !pairs_map(s).contains_key(k),
    decreases s.len(),
{
    if s.len() > 0 {
        let t = s.drop_last();
        assert forall|m: int| 0 <= m < t.len() implies #[trigger] t[m].0 != k by {
            assert(t[m] == s[m]);
        }
        lemma_pairs_map_absent(t, k);
        assert(s.last().0 != k);
    }
}

proof fn lemma_pairs_map_finite(s: Seq<(Seq<u8>, Seq<u8>)>)
    ensures
        pairs_map(s).dom().finite(),
    decreases s.len(),
{
    if s.len() > 0 {
        lemma_pairs_map_finite(s.drop_last());
    }
}

/// The value of the last pair of `kv` whose key is `key`.
pub fn lookup<'k, 'v>(kv: &Vec<(&'k str, &'v str)>, key: &str) -> (r: Option<&'v str>)
    ensures
        r is Some <==> pairs_map(pairs_bytes(kv@)).contains_key(key.spec_bytes()),
        r matches Some(v) ==> v.spec_bytes() == pairs_map(pairs_bytes(kv@))[key.spec_bytes()],
{
    let ghost s = pairs_bytes(kv@);
    let mut i: usize = kv.len();
    while i > 0
        invariant
            s == pairs_bytes(kv@),
            0 <= i <= kv@.len(),
            forall|m: int| i <= m < s.len() ==> #[trigger] s[m].0 != key.spec_bytes(),
        decreases i,
    {
        let (k, v) = kv[i - 1];
        if str_eq(k, key) {
            proof {
                lemma_pairs_map_last(s, key.spec_bytes(), i - 1);
            }
            return Some(v);
        }
        i -= 1;
    }
    proof {
        lemma_pairs_map_absent(s, key.spec_bytes());
    }
    None
}

/// Whether `kv` has no pairs, that is, whether its map is empty.
pub fn pairs_is_empty<'k, 'v>(kv: &Vec<(&'k str, &'v str)>) -> (r: bool)
    ensures
        r == (pairs_map(pairs_bytes(kv@)).dom().len() == 0),
{
    proof {
        let s = pairs_bytes(kv@);
        lemma_pairs_map_finite(s);
        if s.len() > 0 {
            assert(pairs_map(s).contains_key(s.last().0));
            vstd::set_lib::lemma_set_empty_equivalency_len(pairs_map(s).dom());
        } else {
            assert(pairs_map(s).dom() =~= Set::empty());
        }
    }
    kv.len() == 0
}

} // verus!
