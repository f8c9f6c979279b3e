use vstd::prelude::*;
use vstd::string::*;

verus! {

/// The closed set of failure kinds of this library. Every fallible
/// operation returns one of these; variants that need context carry a
/// human-readable detail string.
#[derive(Debug, PartialEq, Eq)]
pub enum AuthError {
    ClaimsValidateExp,
    ClaimsValidateNbf,
    ClaimsValidateIat,
    KeyInvalidExtension,
    FileError(String),
    KeyError(String),
    PathError(String),
    EncodeError(String),
    DecodeError(String),
    AlgorithmError(String),
}

impl AuthError {
    /// The stable display text of this error.
    pub open spec fn message_spec(self) -> Seq<char> {
        match self {
            AuthError::ClaimsValidateExp => "Expiration time (exp) must be in the future"@,
            AuthError::ClaimsValidateNbf => "The time 'not before' (nbf) cannot be in the future"@,
            AuthError::ClaimsValidateIat => "The time of issuance (iat) cannot be in the future"@,
            AuthError::KeyInvalidExtension => "File does not have .pem extension"@,
            AuthError::FileError(e) => "Error file: "@ + e@,
            AuthError::KeyError(e) => e@,
            AuthError::PathError(e) => e@,
            AuthError::EncodeError(e) => e@,
            AuthError::DecodeError(e) => e@,
            AuthError::AlgorithmError(e) => e@,
        }
    }

    /// Renders the stable, human-readable message for this error.
    pub fn message(&self) -> (r: String)
        ensures
            r@ == self.message_spec(),
    {
        match self {
            AuthError::ClaimsValidateExp => String::from_str(
                "Expiration time (exp) must be in the future",
            ),
            AuthError::ClaimsValidateNbf => String::from_str(
                "The time 'not before' (nbf) cannot be in the future",
            ),
            AuthError::ClaimsValidateIat => String::from_str(
                "The time of issuance (iat) cannot be in the future",
            ),
            AuthError::KeyInvalidExtension => String::from_str("File does not have .pem extension"),
            AuthError::FileError(e) => String::from_str("Error file: ").concat(e.as_str()),
            AuthError::KeyError(e) => e.clone(),
            AuthError::PathError(e) => e.clone(),
            AuthError::EncodeError(e) => e.clone(),
            AuthError::DecodeError(e) => e.clone(),
            AuthError::AlgorithmError(e) => e.clone(),
        }
    }
}

} // verus!
