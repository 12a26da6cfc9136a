//! What the tools read of an HTTP answer.

use vstd::prelude::*;

verus! {

/// Whether a status code says that the request succeeded.
pub fn is_success(status: u16) -> (r: bool)
    ensures
        r == (200 <= status < 300),
{
    200 <= status && status < 300
}

}
