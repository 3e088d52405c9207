use vstd::prelude::*;
use crate::codec::{parse, parse_spec, Request, RequestParseError};
use crate::resolver::{first_match, resolve_bytes};

verus! {

/// Why a connection's request is not forwarded.
#[derive(Debug, Clone, Copy, PartialEq, Eq, Structural)]
pub enum RouteError {
    /// The bytes are not an acceptable request.
    Parse(RequestParseError),
    /// No registered application matches the request target.
    NoApp,
}

/// The in-memory steps of handling one connection, between reading its
/// bytes and choosing a backend: decode the request, then resolve its
/// target against the routing table.
pub fn route(raw: &[u8], apps: &[(String, String)]) -> (r: Result<(Request, String), RouteError>)
    ensures
        match r {
            Ok((req, name)) => parse_spec(raw@) == Ok::<_, RequestParseError>(req@) && first_match(
                req@.target,
                apps@,
            ) == Some(name@),
            Err(RouteError::Parse(e)) => parse_spec(raw@) == Err::<crate::codec::RequestModel, _>(e),
            Err(RouteError::NoApp) => parse_spec(raw@) is Ok && first_match(
                parse_spec(raw@)->Ok_0.target,
                apps@,
            ) is None,
        },
{
    let req = match parse(raw) {
        Ok(req) => req,
        Err(e) => {
            return Err(RouteError::Parse(e));
        },
    };
    match resolve_bytes(req.target.as_slice(), apps) {
        Some(name) => Ok((req, name)),
        None => Err(RouteError::NoApp),
    }
}

} // verus!
