use vstd::prelude::*;
use crate::clock::current_timestamp;
use crate::error::AuthError;

verus! {

/// The mathematical value of a claim set: each text as a sequence of
/// characters, the extra-information mapping as a sequence of pairs.
pub struct ClaimsV {
    pub aud: Option<Seq<char>>,
    pub exp: usize,
    pub iat: Option<usize>,
    pub iss: Option<Seq<char>>,
    pub nbf: Option<usize>,
    pub sub: Option<Seq<char>>,
    pub inf: Option<Seq<(Seq<char>, Seq<char>)>>,
}

/// The payload of a token: identity fields, the temporal fields, and an
/// optional mapping of extra text entries. Validated when constructed
/// through `new`, immutable afterwards.
#[derive(Debug)]
pub struct JwtClaims {
    pub aud: Option<String>,
    pub exp: usize,
    pub iat: Option<usize>,
    pub iss: Option<String>,
    pub nbf: Option<usize>,
    pub sub: Option<String>,
    pub inf: Option<Vec<(String, String)>>,
}

impl View for JwtClaims {
    type V = ClaimsV;

    open spec fn view(&self) -> ClaimsV {
        ClaimsV {
            aud: self.aud.deep_view(),
            exp: self.exp,
            iat: self.iat,
            iss: self.iss.deep_view(),
            nbf: self.nbf,
            sub: self.sub.deep_view(),
            inf: self.inf.deep_view(),
        }
    }
}

/// The temporal checks run at construction, in order: the expiration must
/// lie strictly in the future, a present not-before must not lie in the
/// future, a present issued-at must not lie in the future. The first failing
/// check decides the error.
pub open spec fn temporal_check(c: ClaimsV, now: usize) -> Result<(), AuthError> {
    if c.exp <= now {
        Err(AuthError::ClaimsValidateExp)
    } else if c.nbf matches Some(n) && n > now {
        Err(AuthError::ClaimsValidateNbf)
    } else if c.iat matches Some(i) && i > now {
        Err(AuthError::ClaimsValidateIat)
    } else {
        Ok(())
    }
}

/// The claim-set value built from the arguments of `new`.
pub open spec fn claims_view_of(
    aud: Option<String>,
    exp: usize,
    iat: Option<usize>,
    iss: Option<String>,
    nbf: Option<usize>,
    sub: Option<String>,
    inf: Option<Vec<(String, String)>>,
) -> ClaimsV {
    ClaimsV {
        aud: aud.deep_view(),
        exp: exp,
        iat: iat,
        iss: iss.deep_view(),
        nbf: nbf,
        sub: sub.deep_view(),
        inf: inf.deep_view(),
    }
}

/// What construction returns when the clock read `now`: the claim set with
/// exactly the given fields when the temporal checks pass, the first failing
/// check's error otherwise.
pub open spec fn construction_result_at(
    aud: Option<String>,
    exp: usize,
    iat: Option<usize>,
    iss: Option<String>,
    nbf: Option<usize>,
    sub: Option<String>,
    inf: Option<Vec<(String, String)>>,
    now: usize,
    r: Result<JwtClaims, AuthError>,
) -> bool {
    let cv = claims_view_of(aud, exp, iat, iss, nbf, sub, inf);
    match temporal_check(cv, now) {
        Ok(u) => r matches Ok(c) && c@ == cv,
        Err(e) => r == Err::<JwtClaims, AuthError>(e),
    }
}

impl JwtClaims {
    /// Validates the temporal fields against the given time.
    pub fn validate_at(&self, now: usize) -> (r: Result<(), AuthError>)
        ensures
            r == temporal_check(self@, now),
    {
        if self.exp <= now {
            return Err(AuthError::ClaimsValidateExp);
        }
        if let Some(n) = self.nbf {
            if n > now {
                return Err(AuthError::ClaimsValidateNbf);
            }
        }
        if let Some(i) = self.iat {
            if i > now {
                return Err(AuthError::ClaimsValidateIat);
            }
        }
        Ok(())
    }

    /// Builds a claim set and validates it against the given time.
    pub fn new_at(
        aud: Option<String>,
        exp: usize,
        iat: Option<usize>,
        iss: Option<String>,
        nbf: Option<usize>,
        sub: Option<String>,
        inf: Option<Vec<(String, String)>>,
        now: usize,
    ) -> (r: Result<JwtClaims, AuthError>)
        ensures
            construction_result_at(aud, exp, iat, iss, nbf, sub, inf, now, r),
    {
        let claims = JwtClaims { aud, exp, iat, iss, nbf, sub, inf };
        match claims.validate_at(now) {
            Ok(u) => Ok(claims),
            Err(e) => Err(e),
        }
    }

    /// Builds a claim set and validates it against the current time: there
    /// is a clock reading that the result answers to, and a claim set that
    /// comes back holds exactly the given fields.
    pub fn new(
        aud: Option<String>,
        exp: usize,
        iat: Option<usize>,
        iss: Option<String>,
        nbf: Option<usize>,
        sub: Option<String>,
        inf: Option<Vec<(String, String)>>,
    ) -> (r: Result<JwtClaims, AuthError>)
        ensures
            exists|now: usize|
                #[trigger] construction_result_at(aud, exp, iat, iss, nbf, sub, inf, now, r),
            r matches Ok(c) ==> c@ == claims_view_of(aud, exp, iat, iss, nbf, sub, inf),
    {
        let now = current_timestamp();
        let r = Self::new_at(aud, exp, iat, iss, nbf, sub, inf, now);
        proof {
            assert(construction_result_at(aud, exp, iat, iss, nbf, sub, inf, now, r));
        }
        r
    }
}

/// A claim set whose expiration is not strictly in the future is rejected
/// with the expiration error, whatever the other fields hold.
pub proof fn lemma_expiration_rejected(c: ClaimsV, now: usize)
    requires
        c.exp <= now,
    ensures
        temporal_check(c, now) == Err::<(), AuthError>(AuthError::ClaimsValidateExp),
{
}

/// A claim set whose not-before lies strictly in the future is rejected with
/// the not-before error, once the expiration check passes.
pub proof fn lemma_not_before_rejected(c: ClaimsV, now: usize)
    requires
        c.exp > now,
        c.nbf matches Some(n) && n > now,
    ensures
        temporal_check(c, now) == Err::<(), AuthError>(AuthError::ClaimsValidateNbf),
{
}

/// An issued-at strictly in the future is rejected with the issued-at error,
/// once the expiration and not-before checks pass.
pub proof fn lemma_issued_at_rejected(c: ClaimsV, now: usize)
    requires
        c.exp > now,
        c.nbf matches Some(n) ==> n <= now,
        c.iat matches Some(i) && i > now,
    ensures
        temporal_check(c, now) == Err::<(), AuthError>(AuthError::ClaimsValidateIat),
{
}

/// A claim set whose expiration is in the future, whose not-before (if any)
/// is at or before now, and whose issued-at (if any) is at or before now, is
/// accepted; the boundary readings equal to now are accepted for not-before
/// and issued-at.
pub proof fn lemma_valid_claims_accepted(c: ClaimsV, now: usize)
    requires
        c.exp > now,
        c.nbf matches Some(n) ==> n <= now,
        c.iat matches Some(i) ==> i <= now,
    ensures
        temporal_check(c, now) == Ok::<(), AuthError>(()),
{
}

} // verus!
