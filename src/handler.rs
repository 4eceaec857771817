use vstd::prelude::*;
use vstd::string::*;

use crate::error::Error;
use crate::routing::{route_spec, Route, SegmentView};

verus! {

/// What serves a route: a handler that answers at once, or one that answers
/// through a deferred computation. The caller runs either kind the same way.
#[derive(Debug, Clone, Copy)]
pub enum RouteHandler<S, A> {
    Sync(S),
    Async(A),
}

impl<S, A> RouteHandler<S, A> {
    /// Whether the handler answers at once.
    pub fn is_sync(&self) -> (r: bool)
        ensures
            r == self is Sync,
    {
        match self {
            RouteHandler::Sync(_) => true,
            RouteHandler::Async(_) => false,
        }
    }
}

impl<S, A> Route<RouteHandler<S, A>> {
    /// The route `path`, served at once by `handler`.
    pub fn new_sync(path: &'static str, handler: S) -> (r: Result<Route<RouteHandler<S, A>>, Error>)
        ensures
            match r {
                Ok(route) => route_spec(path.spec_bytes()) == Ok::<Seq<SegmentView>, Error>(route@)
                    && route.handler_spec() == RouteHandler::<S, A>::Sync(handler),
                Err(e) => route_spec(path.spec_bytes()) == Err::<Seq<SegmentView>, Error>(e),
            },
    {
        Route::new(path, RouteHandler::Sync(handler))
    }

    /// The route `path`, served through the deferred handler `handler`.
    pub fn new_async2(path: &'static str, handler: A) -> (r: Result<Route<RouteHandler<S, A>>, Error>)
        ensures
            match r {
                Ok(route) => route_spec(path.spec_bytes()) == Ok::<Seq<SegmentView>, Error>(route@)
                    && route.handler_spec() == RouteHandler::<S, A>::Async(handler),
                Err(e) => route_spec(path.spec_bytes()) == Err::<Seq<SegmentView>, Error>(e),
            },
    {
        Route::new(path, RouteHandler::Async(handler))
    }
}

} // verus!
