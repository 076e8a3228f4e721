//! Turns a resolved route into the file location its body is read from.

use vstd::prelude::*;

use crate::configuration::{token, Route};
use crate::strutil::{replace_spec, replace_token};

verus! {

/// The file a route's body lives at: the resource, with every wildcard
/// token replaced by the captured parameter when one was captured.
pub open spec fn resource_path_spec(resource: Seq<char>, param: Option<Seq<char>>) -> Seq<char> {
    match param {
        Some(p) => replace_spec(resource, token(), p),
        None => resource,
    }
}

/// The file to read for a route, with the wildcard substituted; `None` for
/// a route without a stored body.
pub fn load_path(route: &Route, parameter: Option<&str>) -> (r: Option<String>)
    ensures
        match route.resource {
            Some(res) => r matches Some(p) && p@ == resource_path_spec(
                res@,
                match parameter {
                    Some(q) => Some(q@),
                    None => None,
                },
            ),
            None => r is None,
        },
{
    match &route.resource {
        Some(resource) => match parameter {
            Some(parameter) => {
                proof {
                    reveal_strlit("$$$");
                    assert("$$$"@ =~= token());
                }
                Some(replace_token(resource.as_str(), "$$$", parameter))
            },
            None => Some(resource.clone()),
        },
        None => None,
    }
}

} // verus!
