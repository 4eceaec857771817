use vstd::prelude::*;
use vstd::string::*;

use crate::error::Error;
use crate::identifiers::Identifiers;
use crate::text::{
    lemma_ascii_boundary, lemma_ascii_prefix_boundary, pieces_bytes, slice_str, split_spec,
    split_str, str_eq,
};

verus! {

broadcast use vstd::utf8::encode_utf8_valid_utf8;

/// One `/`-separated piece of a route, as text.
pub enum SegmentView {
    Literal(Seq<u8>),
    Capture(Seq<u8>),
}

/// The separator of path components.
pub open spec fn slash() -> Seq<u8> {
    seq!['/' as u8]
}

/// The segment that the route token `tok` stands for: `{name}` captures under
/// `name`, `{}` is an error, and anything else is literal text.
pub open spec fn segment_spec(tok: Seq<u8>) -> Result<SegmentView, Error> {
    if tok.len() < 2 {
        Ok(SegmentView::Literal(tok))
    } else if tok[0] == '{' as u8 && tok[tok.len() - 1] == '}' as u8 {
        if tok.len() == 2 {
            Err(Error::CaptureKeyMissing)
        } else {
            Ok(SegmentView::Capture(tok.subrange(1, tok.len() - 1)))
        }
    } else {
        Ok(SegmentView::Literal(tok))
    }
}

/// Two segments are the same where both capture, whatever their names, or both
/// are the same literal text.
pub open spec fn same_segment(a: SegmentView, b: SegmentView) -> bool {
    match (a, b) {
        (SegmentView::Capture(_), SegmentView::Capture(_)) => true,
        (SegmentView::Literal(x), SegmentView::Literal(y)) => x == y,
        _ => false,
    }
}

/// Two routes have the same skeleton: the same segments, position by position.
pub open spec fn same_skeleton(a: Seq<SegmentView>, b: Seq<SegmentView>) -> bool {
    a.len() == b.len() && forall|i: int| 0 <= i < a.len() ==> same_segment(#[trigger] a[i], b[i])
}

/// Every token of `toks` reads as a segment.
pub open spec fn all_segments_ok(toks: Seq<Seq<u8>>) -> bool {
    forall|i: int| 0 <= i < toks.len() ==> (#[trigger] segment_spec(toks[i])) is Ok
}

/// The segments that the tokens `toks` stand for.
pub open spec fn segments_of(toks: Seq<Seq<u8>>) -> Seq<SegmentView> {
    toks.map_values(|t: Seq<u8>| segment_spec(t)->Ok_0)
}

/// No two captures of `segs` share a name.
pub open spec fn keys_unique(segs: Seq<SegmentView>) -> bool {
    forall|i: int, j: int|
        0 <= i < j < segs.len() ==> match (#[trigger] segs[i], #[trigger] segs[j]) {
            (SegmentView::Capture(a), SegmentView::Capture(b)) => a != b,
            _ => true,
        }
}

/// The segments of the route `path`, or why it cannot be a route.
pub open spec fn route_spec(path: Seq<u8>) -> Result<Seq<SegmentView>, Error> {
    let toks = split_spec(path, slash());
    if !all_segments_ok(toks) {
        Err(Error::CaptureKeyMissing)
    } else if !keys_unique(segments_of(toks)) {
        Err(Error::DuplicateCaptureKey)
    } else {
        Ok(segments_of(toks))
    }
}

/// Whether the segment `seg` accepts the path component `comp`.
pub open spec fn segment_matches(seg: SegmentView, comp: Seq<u8>) -> bool {
    match seg {
        SegmentView::Literal(l) => l == comp,
        SegmentView::Capture(_) => true,
    }
}

/// Whether a route of segments `segs` accepts the path components `comps`: as many
/// components as segments, and each literal equal to its component.
pub open spec fn route_matches(segs: Seq<SegmentView>, comps: Seq<Seq<u8>>) -> bool {
    segs.len() == comps.len() && forall|i: int|
        0 <= i < segs.len() ==> segment_matches(#[trigger] segs[i], comps[i])
}

/// What the captures among the first `n` segments take from `comps`.
pub open spec fn captures_upto(segs: Seq<SegmentView>, comps: Seq<Seq<u8>>, n: int) -> Map<
    Seq<u8>,
    Seq<u8>,
>
    decreases n,
{
    if n <= 0 {
        Map::empty()
    } else {
        let m = captures_upto(segs, comps, n - 1);
        match segs[n - 1] {
            SegmentView::Capture(k) => m.insert(k, comps[n - 1]),
            SegmentView::Literal(_) => m,
        }
    }
}

/// What each capture of `segs` takes from the component at its position.
pub open spec fn captures(segs: Seq<SegmentView>, comps: Seq<Seq<u8>>) -> Map<Seq<u8>, Seq<u8>> {
    captures_upto(segs, comps, segs.len() as int)
}

/// One segment of a route.
#[derive(Debug, Clone, Copy)]
pub enum Segments {
    Literal(&'static str),
    Capture(&'static str),
}

impl View for Segments {
    type V = SegmentView;

    open spec fn view(&self) -> SegmentView {
        match self {
            Segments::Literal(s) => SegmentView::Literal(s.spec_bytes()),
            Segments::Capture(s) => SegmentView::Capture(s.spec_bytes()),
        }
    }
}

impl PartialEq for Segments {
    fn eq(&self, other: &Segments) -> (r: bool) {
        match (self, other) {
            (Segments::Capture(_), Segments::Capture(_)) => true,
            (Segments::Literal(a), Segments::Literal(b)) => str_eq(a, b),
            _ => false,
        }
    }
}

impl vstd::std_specs::cmp::PartialEqSpecImpl for Segments {
    open spec fn obeys_eq_spec() -> bool {
        true
    }

    open spec fn eq_spec(&self, other: &Segments) -> bool {
        same_segment(self@, other@)
    }
}

impl Segments {
    /// Reads one route token: `{name}` captures under `name`; `{}` names no key.
    pub fn new(seg: &'static str) -> (r: Result<Segments, Error>)
        ensures
            match r {
                Ok(s) => segment_spec(seg.spec_bytes()) == Ok::<SegmentView, Error>(s@),
                Err(e) => segment_spec(seg.spec_bytes()) == Err::<SegmentView, Error>(e),
            },
    {
        let b = seg.as_bytes();
        let n = b.len();
        if n < 2 {
            return Ok(Segments::Literal(seg));
        }
        if b[0] == '{' as u8 && b[n - 1] == '}' as u8 {
            if n == 2 {
                return Err(Error::CaptureKeyMissing);
            }
            proof {
                lemma_ascii_prefix_boundary(b@, 1);
            }
            let key = slice_str(seg, 1, n - 1);
            return Ok(Segments::Capture(key));
        }
        Ok(Segments::Literal(seg))
    }
}

/// The segments of each route in `v`.
pub open spec fn segments_view(v: Seq<Segments>) -> Seq<SegmentView> {
    v.map_values(|s: Segments| s@)
}

/// Whether the capture of `a` and the capture of `b` share a name.
fn same_capture_key(a: &Segments, b: &Segments) -> (r: bool)
    ensures
        r == match (a@, b@) {
            (SegmentView::Capture(x), SegmentView::Capture(y)) => x == y,
            _ => false,
        },
{
    match (a, b) {
        (Segments::Capture(x), Segments::Capture(y)) => str_eq(x, y),
        _ => false,
    }
}

/// The segments of the route `path`.
pub fn make_segments(path: &'static str) -> (r: Result<Vec<Segments>, Error>)
    ensures
        match r {
            Ok(v) => route_spec(path.spec_bytes()) == Ok::<Seq<SegmentView>, Error>(
                segments_view(v@),
            ),
            Err(e) => route_spec(path.spec_bytes()) == Err::<Seq<SegmentView>, Error>(e),
        },
{
    let slash_bytes = "/".as_bytes();
    proof {
        reveal_strlit("/");
        vstd::string::is_ascii_spec_bytes("/");
        assert(slash_bytes@ =~= slash());
    }
    let toks = split_str(path, slash_bytes);
    let ghost ts = pieces_bytes(toks@);
    let mut segs: Vec<Segments> = Vec::new();
    let mut i: usize = 0;
    while i < toks.len()
        invariant
            ts == pieces_bytes(toks@),
            ts == split_spec(path.spec_bytes(), slash()),
            0 <= i <= toks@.len(),
            segs@.len() == i,
            forall|m: int| 0 <= m < i ==> (#[trigger] segment_spec(ts[m])) is Ok,
            forall|m: int| 0 <= m < i ==> segment_spec(ts[m]) == Ok::<SegmentView, Error>(#[trigger] segs@[m]@),
        decreases toks@.len() - i,
    {
        assert(ts[i as int] == toks@[i as int].spec_bytes());
        match Segments::new(toks[i]) {
            Err(e) => {
                assert(!all_segments_ok(ts));
                return Err(e);
            },
            Ok(s) => {
                segs.push(s);
            },
        }
        i += 1;
    }
    let ghost sv = segments_view(segs@);
    assert(sv =~= segments_of(ts)) by {
        assert forall|m: int| 0 <= m < sv.len() implies sv[m] == segments_of(ts)[m] by {
            assert(segment_spec(ts[m]) == Ok::<SegmentView, Error>(segs@[m]@));
        }
    }
    let mut a: usize = 0;
    while a < segs.len()
        invariant
            sv == segments_view(segs@),
            sv == segments_of(ts),
            all_segments_ok(ts),
            ts == split_spec(path.spec_bytes(), slash()),
            0 <= a <= segs@.len(),
            forall|x: int, y: int|
                0 <= x < a && x < y < sv.len() ==> match (#[trigger] sv[x], #[trigger] sv[y]) {
                    (SegmentView::Capture(p), SegmentView::Capture(q)) => p != q,
                    _ => true,
                },
        decreases segs@.len() - a,
    {
        let mut b: usize = a + 1;
        while b < segs.len()
            invariant
                sv == segments_view(segs@),
                sv == segments_of(ts),
                all_segments_ok(ts),
                ts == split_spec(path.spec_bytes(), slash()),
                0 <= a < segs@.len(),
                a < b <= segs@.len(),
                forall|x: int, y: int|
                    0 <= x < a && x < y < sv.len() ==> match (#[trigger] sv[x], #[trigger] sv[y]) {
                        (SegmentView::Capture(p), SegmentView::Capture(q)) => p != q,
                        _ => true,
                    },
                forall|y: int|
                    a < y < b ==> match (sv[a as int], #[trigger] sv[y]) {
                        (SegmentView::Capture(p), SegmentView::Capture(q)) => p != q,
                        _ => true,
                    },
            decreases segs@.len() - b,
        {
            assert(sv[a as int] == segs@[a as int]@);
            assert(sv[b as int] == segs@[b as int]@);
            if same_capture_key(&segs[a], &segs[b]) {
                assert(!keys_unique(sv));
                return Err(Error::DuplicateCaptureKey);
            }
            b += 1;
        }
        a += 1;
    }
    Ok(segs)
}

/// A registered route: its segments and the handler that serves it.
#[derive(Debug)]
pub struct Route<H> {
    path_segments: Vec<Segments>,
    handler: H,
}

impl<H> View for Route<H> {
    type V = Seq<SegmentView>;

    closed spec fn view(&self) -> Seq<SegmentView> {
        segments_view(self.path_segments@)
    }
}

impl<H> Route<H> {
    /// The handler that serves the route.
    pub closed spec fn handler_spec(&self) -> H {
        self.handler
    }

    /// The handler that serves the route.
    pub fn handler(&self) -> (r: &H)
        ensures
            *r == self.handler_spec(),
    {
        &self.handler
    }

    /// The route `path`, served by `handler`.
    pub fn new(path: &'static str, handler: H) -> (r: Result<Route<H>, Error>)
        ensures
            match r {
                Ok(route) => route_spec(path.spec_bytes()) == Ok::<Seq<SegmentView>, Error>(route@)
                    && route.handler_spec() == handler,
                Err(e) => route_spec(path.spec_bytes()) == Err::<Seq<SegmentView>, Error>(e),
            },
    {
        match make_segments(path) {
            Err(e) => Err(e),
            Ok(path_segments) => Ok(Route { path_segments, handler }),
        }
    }

    /// The segments of the route.
    pub fn segments(&self) -> (r: &Vec<Segments>)
        ensures
            segments_view(r@) == self@,
    {
        &self.path_segments
    }

    /// Whether the route accepts `path`, and if so what its captures take from it.
    pub fn matches<'b>(&self, path: &'b str) -> (r: Option<Identifiers<'b>>)
        ensures
            r is Some <==> route_matches(self@, split_spec(path.spec_bytes(), slash())),
            r matches Some(ids) ==> ids@ == captures(self@, split_spec(path.spec_bytes(), slash())),
    {
        let slash_bytes = "/".as_bytes();
        proof {
            reveal_strlit("/");
            vstd::string::is_ascii_spec_bytes("/");
            assert(slash_bytes@ =~= slash());
        }
        let comps = split_str(path, slash_bytes);
        let ghost cs = pieces_bytes(comps@);
        let ghost sv = self@;
        if comps.len() != self.path_segments.len() {
            return None;
        }
        let mut ids = Identifiers::new();
        let mut i: usize = 0;
        while i < comps.len()
            invariant
                cs == pieces_bytes(comps@),
                cs == split_spec(path.spec_bytes(), slash()),
                sv == segments_view(self.path_segments@),
                sv == self@,
                comps@.len() == self.path_segments@.len(),
                0 <= i <= comps@.len(),
                forall|m: int| 0 <= m < i ==> segment_matches(#[trigger] sv[m], cs[m]),
                ids@ == captures_upto(sv, cs, i as int),
            decreases comps@.len() - i,
        {
            assert(cs[i as int] == comps@[i as int].spec_bytes());
            assert(sv[i as int] == self.path_segments@[i as int]@);
            match self.path_segments[i] {
                Segments::Capture(key) => {
                    ids.insert(key, comps[i]);
                },
                Segments::Literal(lit) => {
                    if !str_eq(lit, comps[i]) {
                        assert(!segment_matches(sv[i as int], cs[i as int]));
                        return None;
                    }
                },
            }
            i += 1;
        }
        Some(ids)
    }
}

/// Whether `a` and `b` have the same skeleton.
fn same_segments(a: &Vec<Segments>, b: &Vec<Segments>) -> (r: bool)
    ensures
        r == same_skeleton(segments_view(a@), segments_view(b@)),
{
    let ghost sa = segments_view(a@);
    let ghost sb = segments_view(b@);
    if a.len() != b.len() {
        return false;
    }
    let mut i: usize = 0;
    while i < a.len()
        invariant
            sa == segments_view(a@),
            sb == segments_view(b@),
            a@.len() == b@.len(),
            0 <= i <= a@.len(),
            forall|m: int| 0 <= m < i ==> same_segment(#[trigger] sa[m], sb[m]),
        decreases a@.len() - i,
    {
        assert(sa[i as int] == a@[i as int]@ && sb[i as int] == b@[i as int]@);
        if a[i] != b[i] {
            return false;
        }
        i += 1;
    }
    true
}

impl<H> PartialEq for Route<H> {
    fn eq(&self, other: &Route<H>) -> (r: bool) {
        same_segments(&self.path_segments, &other.path_segments)
    }
}

impl<H> vstd::std_specs::cmp::PartialEqSpecImpl for Route<H> {
    open spec fn obeys_eq_spec() -> bool {
        true
    }

    open spec fn eq_spec(&self, other: &Route<H>) -> bool {
        same_skeleton(self@, other@)
    }
}

} // verus!
