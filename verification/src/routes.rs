//! The HTTP handlers' decision logic: responses as plain values, the health
//! probe, and the subscription endpoint.

pub mod subscription;

use vstd::prelude::*;

verus! {

/// An HTTP response as the handlers decide it: a status code and a body.
pub struct Response {
    pub status: u16,
    pub body: Vec<u8>,
}

/// Liveness probe: succeeds unconditionally, with an empty body, touching no
/// other resource.
pub fn health() -> (r: Response)
    ensures
        r.status == 200,
        r.body@.len() == 0,
{
    Response { status: 200, body: Vec::new() }
}

} // verus!
