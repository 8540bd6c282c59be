//! Fresh identifiers for hosts, jobs, sessions, terminals and forwards.

use vstd::prelude::*;

verus! {

/// A random (version 4) UUID in its hyphenated lower-case text form
/// (`uuid::Uuid::new_v4().to_string()`), which is 36 characters long. Which
/// UUID comes back is chance: nothing more is promised of it. The crate
/// panics only when the system's random source fails, which no argument
/// can rule out.
#[verifier::external_body]
pub fn new_id() -> (id: String)
    ensures
        id@.len() == 36,
{
    uuid::Uuid::new_v4().to_string()
}

} // verus!
