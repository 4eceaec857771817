use vstd::prelude::*;
use vstd::string::*;

use crate::pairs::{lookup, pairs_bytes, pairs_is_empty, pairs_map};

verus! {

/// The values that a request path gave the captures of the route it matched,
/// keyed by capture name.
#[derive(Debug)]
pub struct Identifiers<'a> {
    path_values: Vec<(&'static str, &'a str)>,
}

impl<'a> View for Identifiers<'a> {
    type V = Map<Seq<u8>, Seq<u8>>;

    closed spec fn view(&self) -> Map<Seq<u8>, Seq<u8>> {
        pairs_map(pairs_bytes(self.path_values@))
    }
}

impl<'a> Identifiers<'a> {
    /// No captured values.
    pub fn new() -> (r: Identifiers<'a>)
        ensures
            r@ == Map::<Seq<u8>, Seq<u8>>::empty(),
    {
        Identifiers { path_values: Vec::new() }
    }

    /// Records that capture `key` took the value `value`.
    pub fn insert(&mut self, key: &'static str, value: &'a str)
        ensures
            final(self)@ == old(self)@.insert(key.spec_bytes(), value.spec_bytes()),
    {
        proof {
            assert(pairs_bytes(self.path_values@.push((key, value))).drop_last() =~= pairs_bytes(
                self.path_values@,
            ));
        }
        self.path_values.push((key, value));
    }

    /// The value of capture `key`, if the route has that capture.
    pub fn get(&self, key: &str) -> (r: Option<&'a str>)
        ensures
            r is Some <==> self@.contains_key(key.spec_bytes()),
            r matches Some(v) ==> v.spec_bytes() == self@[key.spec_bytes()],
    {
        lookup(&self.path_values, key)
    }

    /// Whether nothing was captured.
    pub fn is_empty(&self) -> (r: bool)
        ensures
            r == (self@.dom().len() == 0),
    {
        pairs_is_empty(&self.path_values)
    }
}

} // verus!
