use vstd::prelude::*;
use crate::text::str_eq;

verus! {

/// The algorithm names the token codec recognises.
pub open spec fn is_valid_alg_name(s: Seq<char>) -> bool {
    ||| s == "HS256"@
    ||| s == "HS384"@
    ||| s == "HS512"@
    ||| s == "ES256"@
    ||| s == "ES384"@
    ||| s == "RS256"@
    ||| s == "RS384"@
    ||| s == "RS512"@
    ||| s == "PS256"@
    ||| s == "PS384"@
    ||| s == "PS512"@
    ||| s == "EdDSA"@
}

/// The names of the symmetric (HMAC) algorithms: the only family that a
/// secret loaded from raw bytes can drive.
pub open spec fn is_hmac_name(s: Seq<char>) -> bool {
    ||| s == "HS256"@
    ||| s == "HS384"@
    ||| s == "HS512"@
}

/// Checks that the name is a recognised algorithm name.
pub fn validate_alg_name(s: &str) -> (r: bool)
    ensures
        r == is_valid_alg_name(s@),
{
    str_eq(s, "HS256") || str_eq(s, "HS384") || str_eq(s, "HS512") || str_eq(s, "ES256") || str_eq(
        s,
        "ES384",
    ) || str_eq(s, "RS256") || str_eq(s, "RS384") || str_eq(s, "RS512") || str_eq(s, "PS256")
        || str_eq(s, "PS384") || str_eq(s, "PS512") || str_eq(s, "EdDSA")
}

/// Checks that the name is one of the HMAC algorithm names.
pub fn is_hmac_alg(s: &str) -> (r: bool)
    ensures
        r == is_hmac_name(s@),
{
    str_eq(s, "HS256") || str_eq(s, "HS384") || str_eq(s, "HS512")
}

} // verus!
