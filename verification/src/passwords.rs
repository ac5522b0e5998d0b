//! Password hashing, through the `password-auth` crate.
use vstd::prelude::*;

use crate::text::utf8_len;

verus! {

#[verifier::external_type_specification]
#[verifier::external_body]
pub struct ExVerifyError(password_auth::VerifyError);

/// Whether `password` verifies against the PHC hash string `hash`, as
/// `password_auth::verify_password` decides it: the hash is parsed and the
/// password is hashed again with the algorithm, parameters and salt written
/// in it, so the answer depends on these two strings alone.
pub uninterp spec fn password_matches(password: Seq<char>, hash: Seq<char>) -> bool;

/// Calls `password_auth::generate_hash`, which hashes `password` with
/// Argon2 and a fresh random salt. The hash differs from call to call; all
/// that is claimed is that the password verifies against it (the crate's own
/// test `happy_path` checks exactly this). Argon2 refuses passwords longer
/// than `0xFFFF_FFFF` bytes, on which the call would panic.
#[verifier::external_body]
pub(crate) fn generate_hash(password: &str) -> (hash: String)
    requires
        utf8_len(password@) <= 0xFFFF_FFFF,
    ensures
        password_matches(password@, hash@),
{
    password_auth::generate_hash(password)
}

/// Calls `password_auth::verify_password`: `Ok` exactly when `password`
/// verifies against `hash`.
#[verifier::external_body]
pub(crate) fn verify_password(password: &str, hash: &str) -> (r: Result<(), password_auth::VerifyError>)
    ensures
        r is Ok <==> password_matches(password@, hash@),
{
    password_auth::verify_password(password, hash)
}

} // verus!
