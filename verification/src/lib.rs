//! Issues and verifies signed JSON Web Tokens: a claim set validated
//! against time-based constraints at construction, write-once slots for
//! key material and key-file paths, and a token codec that frames and
//! checks the compact three-part wire form itself, delegating the HMAC
//! signature mathematics to an established cryptographic library.

pub mod alg;
pub mod b64;
pub mod claims;
mod clock;
pub mod codec;
pub mod error;
pub mod keys;
pub mod parse;
pub mod text;
pub mod wire;

pub use claims::JwtClaims;
pub use codec::{decode_at, jwt_decode, jwt_encode};
pub use error::AuthError;
pub use keys::{JwtPath, Jwtkey, KeyLoadOutcome};
