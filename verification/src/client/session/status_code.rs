//! TSStatus codes the client special-cases.

use vstd::prelude::*;

verus! {

/// The operation succeeded.
pub const SUCCESS_STATUS: i32 = 200;

/// A batch in which at least one part failed; the sub-statuses tell which.
pub const MULTIPLE_ERROR: i32 = 302;

/// The write succeeded; `redirectNode` merely recommends a better endpoint.
pub const REDIRECTION_RECOMMEND: i32 = 400;

} // verus!
