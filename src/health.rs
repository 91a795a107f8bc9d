//! The routing decision of the health-check endpoint.

use vstd::prelude::*;
use crate::text::{chars_of, same_chars};

verus! {

/// The status for a request path: 200 for `/health`, 404 for anything else,
/// whatever the method.
pub fn health_status(path: &str) -> (r: u16)
    ensures
        r == (if path@ == "/health"@ {
            200u16
        } else {
            404u16
        }),
{
    let p = chars_of(path);
    let h = chars_of("/health");
    if same_chars(p.as_slice(), h.as_slice()) {
        200
    } else {
        404
    }
}

} // verus!
