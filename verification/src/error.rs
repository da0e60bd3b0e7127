//! The crate's error type.

use vstd::prelude::*;

verus! {

/// What can go wrong inside the library.  Storage, session, and transport
/// failures belong to the surrounding application; the library reports only
/// conditions it can decide itself.
#[derive(Debug)]
pub enum Error {
    /// A described failure, such as an empty candidate set.
    Generic(String),
    /// A record looked up by identifier, handle, or key was not present.
    NotFound,
    /// A password did not match the stored hash.
    InvalidPassword,
    /// The caller is not signed in.
    Unauthorized,
    /// Password hashing or verification failed.
    HashPassword,
    /// A string could not be parsed as a URL.
    ParseUrl,
}

} // verus!
