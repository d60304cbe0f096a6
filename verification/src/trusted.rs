//! The library's view of the outside world: a clock, an identifier
//! generator, the machine's CPU count, and Unicode case folding.
//!
//! Each function here wraps one call into an outside crate or into std and
//! is the only place where that call is made.  Verus believes the stated
//! contracts; everything else in the crate is proved against them.

use vstd::prelude::*;

verus! {

/// What Unicode lowercasing returns for a sequence of characters; the
/// result depends on the characters alone.
pub uninterp spec fn lower_of(s: Seq<char>) -> Seq<char>;

/// Relies on `str::to_lowercase` from std: the returned string is the
/// Unicode lowercase form of the input, a function of the characters alone.
#[verifier::external_body]
pub fn lowercase(s: &str) -> (r: String)
    ensures
        r@ == lower_of(s@),
{
    s.to_lowercase()
}

/// Relies on `chrono::Utc::now`: the current civil time, read from the
/// system clock.  Nothing is promised of the value; callers must hold for
/// every reading.
#[verifier::external_body]
pub fn now_seconds() -> i64 {
    chrono::Utc::now().timestamp()
}

/// Relies on `uuid::Uuid::new_v4`: a randomly drawn 128-bit identifier.
/// Nothing is promised of the value; callers that need freshness must test
/// it against the identifiers they already hold.
#[verifier::external_body]
pub fn random_id() -> u128 {
    uuid::Uuid::new_v4().as_u128()
}

/// Relies on `num_cpus::get`, which is documented to return at least 1.
#[verifier::external_body]
pub fn cpu_count() -> (r: usize)
    ensures
        r >= 1,
{
    num_cpus::get()
}

} // verus!
