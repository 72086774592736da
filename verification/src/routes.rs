//! What the service mounts at launch: one route for each method it
//! answers, all with the same pattern, which matches every path.

use crate::record::Method;
use vstd::prelude::*;
use vstd::string::*;

verus! {

/// One route: a method and the path pattern that it answers.
#[derive(Debug, Clone, PartialEq, Eq)]
pub struct Route {
    /// The method that the route answers.
    pub method: Method,
    /// The path pattern, in the syntax of the transport.
    pub pattern: String,
}

/// The routes of the service and the base path under which they are
/// mounted.
#[derive(Debug, Clone, PartialEq, Eq)]
pub struct Launch {
    /// The base path of all routes.
    pub base: String,
    /// The routes, one for each method.
    pub routes: Vec<Route>,
}

/// The methods that the service answers, in the order of their routes.
pub open spec fn answered_methods() -> Seq<Method> {
    seq![
        Method::Get,
        Method::Put,
        Method::Post,
        Method::Delete,
        Method::Options,
        Method::Head,
        Method::Trace,
        Method::Connect,
        Method::Patch,
    ]
}

/// The pattern that matches a path of any depth.
pub open spec fn any_path() -> Seq<char> {
    "/<path..>"@
}

/// The base path under which the routes are mounted.
pub open spec fn base_path() -> Seq<char> {
    "/"@
}

/// The route that answers `method` on every path.
pub fn route_for(method: Method) -> (route: Route)
    ensures
        route.method == method,
        route.pattern@ == any_path(),
{
    Route { method, pattern: String::from_str("/<path..>") }
}

/// The launch plan of the service: mounted at the root, one route for each
/// of the nine methods, each matching every path.
pub fn rocket() -> (launch: Launch)
    ensures
        launch.base@ == base_path(),
        launch.routes@.len() == answered_methods().len(),
        forall|i: int|
            0 <= i < launch.routes@.len() ==> (#[trigger] launch.routes@[i]).method
                == answered_methods()[i] && launch.routes@[i].pattern@ == any_path(),
{
    let mut routes: Vec<Route> = Vec::new();
    routes.push(route_for(Method::Get));
    routes.push(route_for(Method::Put));
    routes.push(route_for(Method::Post));
    routes.push(route_for(Method::Delete));
    routes.push(route_for(Method::Options));
    routes.push(route_for(Method::Head));
    routes.push(route_for(Method::Trace));
    routes.push(route_for(Method::Connect));
    routes.push(route_for(Method::Patch));
    Launch { base: String::from_str("/"), routes }
}

} // verus!
