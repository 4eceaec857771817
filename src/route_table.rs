use vstd::prelude::*;
use vstd::string::*;

use crate::error::Error;
use crate::identifiers::Identifiers;
use crate::routing::{
    captures, captures_upto, route_matches, route_spec, same_segment, same_skeleton, segments_view, slash,
    Route, SegmentView, Segments,
};
use crate::text::split_spec;

verus! {

/// Whether two segments are of the same kind: both literal or both capturing.
pub open spec fn same_kind(a: SegmentView, b: SegmentView) -> bool {
    a is Literal == b is Literal
}

/// `a` goes before `b` when matching: at the first position where their kinds
/// differ, `a` has a literal and `b` a capture.
pub open spec fn precedes(a: Seq<SegmentView>, b: Seq<SegmentView>) -> bool {
    exists|k: int|
        0 <= k < a.len() && k < b.len() && (#[trigger] a[k]) is Literal && (#[trigger] b[k]) is Capture
            && forall|m: int| 0 <= m < k ==> same_kind(#[trigger] a[m], b[m])
}

/// No two routes of `rs` share a skeleton.
pub open spec fn skeletons_distinct<H>(rs: Seq<Route<H>>) -> bool {
    forall|i: int, j: int| 0 <= i < rs.len() && 0 <= j < rs.len() && i != j ==> !same_skeleton(#[trigger] rs[i]@, #[trigger] rs[j]@)
}

/// Some route of `rs` has the skeleton `segs`.
pub open spec fn has_skeleton<H>(rs: Seq<Route<H>>, segs: Seq<SegmentView>) -> bool {
    exists|j: int| 0 <= j < rs.len() && same_skeleton(#[trigger] rs[j]@, segs)
}

/// Route `k` of `rs` is the one that serves the path components `comps`: it
/// accepts them and goes before every other route that does.
pub open spec fn is_best<H>(rs: Seq<Route<H>>, comps: Seq<Seq<u8>>, k: int) -> bool {
    &&& 0 <= k < rs.len()
    &&& route_matches(rs[k]@, comps)
    &&& forall|j: int|
        0 <= j < rs.len() && j != k && route_matches(#[trigger] rs[j]@, comps) ==> precedes(rs[k]@, rs[j]@)
}

/// Going before is transitive.
pub proof fn lemma_precedes_transitive(a: Seq<SegmentView>, b: Seq<SegmentView>, c: Seq<SegmentView>)
    requires
        precedes(a, b),
        precedes(b, c),
    ensures
        precedes(a, c),
{
    let k1 = choose|k: int|
        0 <= k < a.len() && k < b.len() && (#[trigger] a[k]) is Literal && (#[trigger] b[k]) is Capture
            && forall|m: int| 0 <= m < k ==> same_kind(#[trigger] a[m], b[m]);
    let k2 = choose|k: int|
        0 <= k < b.len() && k < c.len() && (#[trigger] b[k]) is Literal && (#[trigger] c[k]) is Capture
            && forall|m: int| 0 <= m < k ==> same_kind(#[trigger] b[m], c[m]);
    if k1 < k2 {
        assert(same_kind(b[k1], c[k1]));
        assert forall|m: int| 0 <= m < k1 implies same_kind(#[trigger] a[m], c[m]) by {
            assert(same_kind(a[m], b[m]) && same_kind(b[m], c[m]));
        }
        assert(a[k1] is Literal && c[k1] is Capture);
    } else {
        assert(k2 < k1);
        assert(same_kind(a[k2], b[k2]));
        assert forall|m: int| 0 <= m < k2 implies same_kind(#[trigger] a[m], c[m]) by {
            assert(same_kind(a[m], b[m]) && same_kind(b[m], c[m]));
        }
        assert(a[k2] is Literal && c[k2] is Capture);
    }
}

/// Going before is asymmetric.
pub proof fn lemma_precedes_asymmetric(a: Seq<SegmentView>, b: Seq<SegmentView>)
    requires
        precedes(a, b),
    ensures
        !precedes(b, a),
{
    let k1 = choose|k: int|
        0 <= k < a.len() && k < b.len() && (#[trigger] a[k]) is Literal && (#[trigger] b[k]) is Capture
            && forall|m: int| 0 <= m < k ==> same_kind(#[trigger] a[m], b[m]);
    if precedes(b, a) {
        let k2 = choose|k: int|
            0 <= k < b.len() && k < a.len() && (#[trigger] b[k]) is Literal && (#[trigger] a[k]) is Capture
                && forall|m: int| 0 <= m < k ==> same_kind(#[trigger] b[m], a[m]);
        if k1 < k2 {
            assert(same_kind(b[k1], a[k1]));
        } else if k2 < k1 {
            assert(same_kind(a[k2], b[k2]));
        }
    }
}

/// At most one route serves given path components.
pub proof fn lemma_best_unique<H>(rs: Seq<Route<H>>, comps: Seq<Seq<u8>>, k1: int, k2: int)
    requires
        is_best(rs, comps, k1),
        is_best(rs, comps, k2),
    ensures
        k1 == k2,
{
    if k1 != k2 {
        assert(route_matches(rs[k2]@, comps));
        assert(precedes(rs[k1]@, rs[k2]@));
        assert(route_matches(rs[k1]@, comps));
        assert(precedes(rs[k2]@, rs[k1]@));
        lemma_precedes_asymmetric(rs[k1]@, rs[k2]@);
    }
}

/// Every segment of `segs` is literal text.
pub open spec fn all_literal(segs: Seq<SegmentView>) -> bool {
    forall|i: int| 0 <= i < segs.len() ==> (#[trigger] segs[i]) is Literal
}

/// The first capture of `segs` at or after position `i`.
proof fn lemma_first_capture(segs: Seq<SegmentView>, i: int) -> (k: int)
    requires
        0 <= i <= segs.len(),
        exists|x: int| i <= x < segs.len() && (#[trigger] segs[x]) is Capture,
    ensures
        i <= k < segs.len(),
        segs[k] is Capture,
        forall|m: int| i <= m < k ==> (#[trigger] segs[m]) is Literal,
    decreases segs.len() - i,
{
    if segs[i] is Capture {
        i
    } else {
        let x = choose|x: int| i <= x < segs.len() && (#[trigger] segs[x]) is Capture;
        assert(i + 1 <= x);
        lemma_first_capture(segs, i + 1)
    }
}

/// A route without captures takes nothing from the path.
proof fn lemma_literal_captures_nothing(segs: Seq<SegmentView>, comps: Seq<Seq<u8>>, n: int)
    requires
        all_literal(segs),
        n <= segs.len(),
    ensures
        captures_upto(segs, comps, n) == Map::<Seq<u8>, Seq<u8>>::empty(),
    decreases n,
{
    if n > 0 {
        assert(segs[n - 1] is Literal);
        lemma_literal_captures_nothing(segs, comps, n - 1);
    }
}

/// A route made only of literals serves every path it accepts, with no captured
/// values, whatever other routes the table holds and in whatever order they
/// were registered.
pub proof fn lemma_literal_route_wins<H>(rs: Seq<Route<H>>, comps: Seq<Seq<u8>>, k: int)
    requires
        skeletons_distinct(rs),
        0 <= k < rs.len(),
        all_literal(rs[k]@),
        route_matches(rs[k]@, comps),
    ensures
        is_best(rs, comps, k),
        forall|k2: int| is_best(rs, comps, k2) ==> k2 == k,
        captures(rs[k]@, comps) == Map::<Seq<u8>, Seq<u8>>::empty(),
{
    let a = rs[k]@;
    assert forall|j: int|
        0 <= j < rs.len() && j != k && route_matches(#[trigger] rs[j]@, comps) implies precedes(a, rs[j]@) by {
        let b = rs[j]@;
        assert(!same_skeleton(a, b));
        if !exists|x: int| 0 <= x < b.len() && (#[trigger] b[x]) is Capture {
            assert forall|i: int| 0 <= i < a.len() implies same_segment(#[trigger] a[i], b[i]) by {
                assert(b[i] is Literal);
                assert(crate::routing::segment_matches(a[i], comps[i]));
                assert(crate::routing::segment_matches(b[i], comps[i]));
            }
        }
        let m = lemma_first_capture(b, 0);
        assert(a[m] is Literal);
        assert forall|x: int| 0 <= x < m implies same_kind(#[trigger] a[x], b[x]) by {
            assert(a[x] is Literal && b[x] is Literal);
        }
    }
    assert forall|k2: int| is_best(rs, comps, k2) implies k2 == k by {
        lemma_best_unique(rs, comps, k, k2);
    }
    lemma_literal_captures_nothing(a, comps, a.len() as int);
}

/// Registering a route and then registering the same route text again fails
/// the second time: the table then has a route of that skeleton.
pub proof fn lemma_register_twice<H>(rs: Seq<Route<H>>, added: Route<H>, path: Seq<u8>)
    requires
        route_spec(path) is Ok,
        added@ == route_spec(path)->Ok_0,
    ensures
        has_skeleton(rs.push(added), route_spec(path)->Ok_0),
{
    let segs = added@;
    assert(rs.push(added)[rs.len() as int] == added);
    assert(same_skeleton(segs, segs));
}

/// Two routes that accept the same components and agree in kind everywhere have
/// the same skeleton.
proof fn lemma_same_kinds_same_skeleton(a: Seq<SegmentView>, b: Seq<SegmentView>, comps: Seq<Seq<u8>>)
    requires
        route_matches(a, comps),
        route_matches(b, comps),
        forall|m: int| 0 <= m < a.len() ==> same_kind(#[trigger] a[m], b[m]),
    ensures
        same_skeleton(a, b),
{
    assert forall|i: int| 0 <= i < a.len() implies same_segment(#[trigger] a[i], b[i]) by {
        assert(same_kind(a[i], b[i]));
        assert(crate::routing::segment_matches(a[i], comps[i]));
        assert(crate::routing::segment_matches(b[i], comps[i]));
    }
}

/// Which of `a` and `b` goes before the other: `Some(true)` for `a`, `Some(false)`
/// for `b`, `None` where their kinds agree on every common position.
fn compare_kinds(a: &Vec<Segments>, b: &Vec<Segments>) -> (r: Option<bool>)
    ensures
        r == Some(true) ==> precedes(segments_view(a@), segments_view(b@)),
        r == Some(false) ==> precedes(segments_view(b@), segments_view(a@)),
        r is None ==> forall|m: int|
            0 <= m < a@.len() && m < b@.len() ==> same_kind(
                #[trigger] segments_view(a@)[m],
                segments_view(b@)[m],
            ),
{
    let ghost sa = segments_view(a@);
    let ghost sb = segments_view(b@);
    let mut i: usize = 0;
    while i < a.len() && i < b.len()
        invariant
            sa == segments_view(a@),
            sb == segments_view(b@),
            0 <= i <= a@.len(),
            i <= b@.len(),
            forall|m: int| 0 <= m < i ==> same_kind(#[trigger] sa[m], sb[m]),
        decreases a@.len() - i,
    {
        assert(sa[i as int] == a@[i as int]@ && sb[i as int] == b@[i as int]@);
        match (&a[i], &b[i]) {
            (Segments::Literal(_), Segments::Capture(_)) => {
                assert(sa[i as int] is Literal && sb[i as int] is Capture);
                return Some(true);
            },
            (Segments::Capture(_), Segments::Literal(_)) => {
                assert(sb[i as int] is Literal && sa[i as int] is Capture);
                assert forall|m: int| 0 <= m < i implies same_kind(#[trigger] sb[m], sa[m]) by {
                    assert(same_kind(sa[m], sb[m]));
                }
                return Some(false);
            },
            _ => {},
        }
        i += 1;
    }
    None
}

/// The registered routes of a server, each with its handler.
#[derive(Debug)]
pub struct RouteTable<H> {
    routes: Vec<Route<H>>,
}

impl<H> RouteTable<H> {
    /// The routes, in the order they were registered.
    pub closed spec fn routes(&self) -> Seq<Route<H>> {
        self.routes@
    }

    /// No two routes share a skeleton.
    pub open spec fn wf(&self) -> bool {
        skeletons_distinct(self.routes())
    }

    /// A table with no routes.
    pub fn new() -> (r: RouteTable<H>)
        ensures
            r.wf(),
            r.routes().len() == 0,
    {
        RouteTable { routes: Vec::new() }
    }

    /// The number of routes.
    pub fn len(&self) -> (r: usize)
        ensures
            r == self.routes().len(),
    {
        self.routes.len()
    }

    /// Registers `path`, served by `handler`. It fails where `path` is not a
    /// route, or where a route with its skeleton is already registered; the
    /// table is then unchanged.
    pub fn add_route(&mut self, path: &'static str, handler: H) -> (r: Result<(), Error>)
        requires
            old(self).wf(),
        ensures
            final(self).wf(),
            match route_spec(path.spec_bytes()) {
                Err(e) => r == Err::<(), Error>(e) && final(self).routes() == old(self).routes(),
                Ok(segs) => if has_skeleton(old(self).routes(), segs) {
                    r == Err::<(), Error>(Error::DuplicateRoute) && final(self).routes() == old(
                        self,
                    ).routes()
                } else {
                    &&& r is Ok
                    &&& final(self).routes().len() == old(self).routes().len() + 1
                    &&& final(self).routes().drop_last() == old(self).routes()
                    &&& final(self).routes().last()@ == segs
                    &&& final(self).routes().last().handler_spec() == handler
                },
            },
    {
        let route = match Route::new(path, handler) {
            Err(e) => return Err(e),
            Ok(route) => route,
        };
        let mut j: usize = 0;
        while j < self.routes.len()
            invariant
                self.routes@ == old(self).routes@,
                skeletons_distinct(self.routes@),
                route_spec(path.spec_bytes()) == Ok::<Seq<SegmentView>, Error>(route@),
                route.handler_spec() == handler,
                0 <= j <= self.routes@.len(),
                forall|m: int| 0 <= m < j ==> !same_skeleton(#[trigger] self.routes@[m]@, route@),
            decreases self.routes@.len() - j,
        {
            if self.routes[j] == route {
                assert(same_skeleton(self.routes@[j as int]@, route@));
                assert(has_skeleton(old(self).routes(), route@));
                return Err(Error::DuplicateRoute);
            }
            j += 1;
        }
        proof {
            assert forall|m: int| 0 <= m < self.routes@.len() implies !same_skeleton(
                #[trigger] self.routes@[m]@,
                route@,
            ) by {}
        }
        let ghost before = self.routes@;
        self.routes.push(route);
        proof {
            assert(self.routes@.drop_last() =~= before);
            assert forall|i: int, k: int|
                0 <= i < self.routes@.len() && 0 <= k < self.routes@.len() && i != k implies !same_skeleton(
                #[trigger] self.routes@[i]@,
                #[trigger] self.routes@[k]@,
            ) by {
                if i == before.len() as int {
                    assert(self.routes@[k] == before[k]);
                    assert(!same_skeleton(before[k]@, route@));
                    if same_skeleton(route@, before[k]@) {
                        assert(same_skeleton(before[k]@, route@)) by {
                            assert forall|x: int| 0 <= x < route@.len() implies same_segment(
                                #[trigger] before[k]@[x],
                                route@[x],
                            ) by {
                                assert(same_segment(route@[x], before[k]@[x]));
                            }
                        }
                    }
                } else if k == before.len() as int {
                    assert(self.routes@[i] == before[i]);
                } else {
                    assert(self.routes@[i] == before[i] && self.routes@[k] == before[k]);
                }
            }
        }
        Ok(())
    }

    /// The handler of the route that serves `path`, with what its captures take
    /// from `path`. Among the routes that accept `path`, the one that goes first
    /// (literals before captures, position by position) serves it.
    pub fn match_route<'b>(&self, path: &'b str) -> (r: Option<(&H, Identifiers<'b>)>)
        requires
            self.wf(),
        ensures
            r is None <==> forall|j: int|
                0 <= j < self.routes().len() ==> !route_matches(
                    #[trigger] self.routes()[j]@,
                    split_spec(path.spec_bytes(), slash()),
                ),
            r matches Some(found) ==> exists|k: int|
                is_best(self.routes(), split_spec(path.spec_bytes(), slash()), k)
                    && *found.0 == self.routes()[k].handler_spec() && found.1@ == captures(
                    #[trigger] self.routes()[k]@,
                    split_spec(path.spec_bytes(), slash()),
                ),
    {
        let ghost comps = split_spec(path.spec_bytes(), slash());
        let ghost rs = self.routes@;
        let mut best: Option<usize> = None;
        let mut i: usize = 0;
        while i < self.routes.len()
            invariant
                rs == self.routes@,
                comps == split_spec(path.spec_bytes(), slash()),
                skeletons_distinct(rs),
                0 <= i <= rs.len(),
                best is None ==> forall|j: int| 0 <= j < i ==> !route_matches(#[trigger] rs[j]@, comps),
                best matches Some(b) ==> b < i && route_matches(rs[b as int]@, comps) && forall|j: int|
                    0 <= j < i && j != b && route_matches(#[trigger] rs[j]@, comps) ==> precedes(
                        rs[b as int]@,
                        rs[j]@,
                    ),
            decreases rs.len() - i,
        {
            let cand = self.routes[i].matches(path);
            if cand.is_some() {
                match best {
                    None => {
                        best = Some(i);
                    },
                    Some(b) => {
                        let ord = compare_kinds(
                            self.routes[i].segments(),
                            self.routes[b].segments(),
                        );
                        match ord {
                            Some(true) => {
                                proof {
                                    assert forall|j: int|
                                        0 <= j < i + 1 && j != i && route_matches(#[trigger] rs[j]@, comps)
                                            implies precedes(rs[i as int]@, rs[j]@) by {
                                        if j != b {
                                            lemma_precedes_transitive(rs[i as int]@, rs[b as int]@, rs[j]@);
                                        }
                                    }
                                }
                                best = Some(i);
                            },
                            Some(false) => {},
                            None => {
                                proof {
                                    lemma_same_kinds_same_skeleton(rs[i as int]@, rs[b as int]@, comps);
                                    assert(!same_skeleton(rs[i as int]@, rs[b as int]@));
                                }
                            },
                        }
                    },
                }
            }
            i += 1;
        }
        match best {
            None => None,
            Some(b) => {
                let route = &self.routes[b];
                let ids = match route.matches(path) {
                    Some(ids) => ids,
                    None => Identifiers::new(),
                };
                Some((route.handler(), ids))
            },
        }
    }
}

} // verus!
