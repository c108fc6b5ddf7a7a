//! The registry of public routes.
//!
//! A route is a pair of an HTTP method and a path. The registry is built
//! once and never changes afterwards: it offers a membership test and
//! nothing else.

use vstd::prelude::*;
use crate::text::str_eq;

verus! {

/// The set of routes that a list of (method, path) pairs names.
pub open spec fn route_set(routes: Seq<(String, String)>) -> Set<(Seq<char>, Seq<char>)> {
    Set::new(
        |route: (Seq<char>, Seq<char>)|
            exists|i: int|
                0 <= i < routes.len() && #[trigger] routes[i].0@ == route.0 && routes[i].1@
                    == route.1,
    )
}

/// The routes that need no token.
pub struct WhitelistRegistry {
    routes: Vec<(String, String)>,
}

impl View for WhitelistRegistry {
    type V = Set<(Seq<char>, Seq<char>)>;

    closed spec fn view(&self) -> Set<(Seq<char>, Seq<char>)> {
        route_set(self.routes@)
    }
}

impl WhitelistRegistry {
    /// Builds the registry from a list of (method, path) pairs. A pair
    /// that occurs twice counts once.
    pub fn new(routes: Vec<(String, String)>) -> (registry: Self)
        ensures
            registry@ == route_set(routes@),
    {
        WhitelistRegistry { routes }
    }

    /// Whether the route is public. Method and path are compared exactly,
    /// character by character.
    pub fn contains(&self, method: &str, path: &str) -> (public: bool)
        ensures
            public == self@.contains((method@, path@)),
    {
        let mut i: usize = 0;
        while i < self.routes.len()
            invariant
                i <= self.routes@.len(),
                forall|j: int|
                    0 <= j < i ==> !(#[trigger] self.routes@[j].0@ == method@ && self.routes@[j].1@
                        == path@),
            decreases self.routes@.len() - i,
        {
            let route = &self.routes[i];
            if str_eq(route.0.as_str(), method) && str_eq(route.1.as_str(), path) {
                return true;
            }
            i += 1;
        }
        false
    }
}

} // verus!
