//! The route table the server registers at startup.

use vstd::prelude::*;
use vstd::string::StringExecFns;

verus! {

/// One entry of the route table: an HTTP method and a path.
pub struct Route {
    pub method: String,
    pub path: String,
}

/// The complete route table: exactly the health probe and the subscription
/// endpoint; nothing updates, deletes or lists subscriptions.
pub fn route_table() -> (r: Vec<Route>)
    ensures
        r@.len() == 2,
        r@[0].method@ == "GET"@,
        r@[0].path@ == "/health"@,
        r@[1].method@ == "POST"@,
        r@[1].path@ == "/subscriptions"@,
{
    let mut routes: Vec<Route> = Vec::new();
    routes.push(Route { method: String::from_str("GET"), path: String::from_str("/health") });
    routes.push(
        Route { method: String::from_str("POST"), path: String::from_str("/subscriptions") },
    );
    routes
}

} // verus!
