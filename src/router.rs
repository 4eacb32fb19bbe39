//! The router: an ordered list of routes, resolved by first match.

use vstd::prelude::*;
use crate::route::{Route, RouteParams};

verus! {

/// `i` is the first route of `routes`, in registration order, that `path` matches.
pub open spec fn is_first_match<F>(routes: Seq<Route<F>>, path: Seq<char>, i: int) -> bool {
    &&& 0 <= i < routes.len()
    &&& routes[i].matches_spec(path)
    &&& forall|j: int| 0 <= j < i ==> !(#[trigger] routes[j].matches_spec(path))
}

/// No route of `routes` matches `path`.
pub open spec fn no_match<F>(routes: Seq<Route<F>>, path: Seq<char>) -> bool {
    forall|j: int| 0 <= j < routes.len() ==> !(#[trigger] routes[j].matches_spec(path))
}

/// Holds all of the routes of an application, in the order they were added.
///
/// Moving to a new location asks the router for the first route that matches
/// the new path, and for the view that route builds.
pub struct Router<F> {
    routes: Vec<Route<F>>,
}

impl<F> Default for Router<F> {
    fn default() -> (r: Self)
        ensures
            r.routes_view() == Seq::<Route<F>>::empty(),
    {
        Router::new()
    }
}

impl<F> Router<F> {
    /// The routes, in the order they were added.
    pub closed spec fn routes_view(&self) -> Seq<Route<F>> {
        self.routes@
    }

    /// A router with no routes.
    pub fn new() -> (r: Self)
        ensures
            r.routes_view() == Seq::<Route<F>>::empty(),
    {
        Router { routes: Vec::new() }
    }

    /// Appends `route`. Order matters: lookups scan from the first route added
    /// and stop at the first that matches, so a route shadowed by an earlier
    /// one is never reached.
    pub fn add_route(&mut self, route: Route<F>)
        ensures
            final(self).routes_view() == old(self).routes_view().push(route),
    {
        self.routes.push(route);
    }

    /// The position of the first route that `path` matches, if any.
    pub fn find(&self, path: &str) -> (r: Option<usize>)
        ensures
            match r {
                Some(i) => is_first_match(self.routes_view(), path@, i as int),
                None => no_match(self.routes_view(), path@),
            },
    {
        let n = self.routes.len();
        let mut i: usize = 0;
        while i < n
            invariant
                n == self.routes_view().len(),
                i <= n,
                forall|j: int| 0 <= j < i ==> !(#[trigger] self.routes_view()[j].matches_spec(path@)),
            decreases n - i,
        {
            if self.routes[i].matches(path) {
                return Some(i);
            }
            i = i + 1;
        }
        None
    }
}

impl<V, F: Fn(RouteParams) -> V> Router<F> {
    /// Every route's factory accepts any parameters.
    pub open spec fn factories_total(&self) -> bool {
        forall|i: int| 0 <= i < self.routes_view().len() ==> (#[trigger] self.routes_view()[i]).factory_total()
    }

    /// The view of the first route, in the order they were added, that
    /// `incoming_route` matches, built from the values decoded out of it;
    /// `None` if no route matches.
    pub fn view(&self, incoming_route: &str) -> (r: Option<V>)
        requires
            self.factories_total(),
        ensures
            r is None <==> no_match(self.routes_view(), incoming_route@),
            r matches Some(v) ==> exists|i: int|
                is_first_match(self.routes_view(), incoming_route@, i) && exists|p: RouteParams|
                    self.routes_view()[i].params_spec(incoming_route@, p@) && call_ensures(
                        self.routes_view()[i].factory_view(),
                        (p,),
                        v,
                    ),
    {
        match self.find(incoming_route) {
            Some(i) => {
                assert(self.routes_view()[i as int].factory_total());
                Some(self.routes[i].view(incoming_route))
            },
            None => None,
        }
    }
}

/// Resolution is deterministic: for given routes and a given path there is at
/// most one first matching route, and none when no route matches; so two
/// lookups with no route added between them resolve to the same route and
/// decode the same path.
pub proof fn lemma_first_match_unique<F>(routes: Seq<Route<F>>, path: Seq<char>, i: int, j: int)
    ensures
        is_first_match(routes, path, i) && is_first_match(routes, path, j) ==> i == j,
        no_match(routes, path) ==> !is_first_match(routes, path, i),
{
}

/// Registration order decides between overlapping routes: after routes that
/// do not match `path`, whichever of two routes matching `path` was added
/// first is the one chosen, so swapping the two changes the route chosen.
pub proof fn lemma_earlier_route_wins<F>(
    before: Seq<Route<F>>,
    a: Route<F>,
    b: Route<F>,
    after: Seq<Route<F>>,
    path: Seq<char>,
)
    requires
        no_match(before, path),
        a.matches_spec(path),
        b.matches_spec(path),
    ensures
        is_first_match(before + seq![a, b] + after, path, before.len() as int),
        (before + seq![a, b] + after)[before.len() as int] == a,
        is_first_match(before + seq![b, a] + after, path, before.len() as int),
        (before + seq![b, a] + after)[before.len() as int] == b,
{
    let ab = before + seq![a, b] + after;
    let ba = before + seq![b, a] + after;
    assert forall|j: int| 0 <= j < before.len() implies !(#[trigger] ab[j].matches_spec(path))
        && !ba[j].matches_spec(path) by {
        assert(ab[j] == before[j]);
        assert(ba[j] == before[j]);
    }
}

} // verus!
