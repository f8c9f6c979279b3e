use vstd::prelude::*;
use vstd::string::*;
use vstd::utf8::{decode_utf8, encode_utf8, valid_utf8};
use crate::alg::{is_hmac_alg, is_hmac_name, is_valid_alg_name, validate_alg_name};
use crate::b64::{b64_decode, b64_decode_chars, b64_encode, b64_encode_bytes, lemma_b64_no_dot, lemma_b64_roundtrip};
use crate::claims::{ClaimsV, JwtClaims};
use crate::clock::current_timestamp;
use crate::error::AuthError;
use crate::keys::Jwtkey;
use crate::parse::{parse_header_alg, parse_payload, sp_header_alg, sp_payload, ClaimsAccV};
use crate::text::{find_char_from, find_from, lemma_find_from_first, str_eq};
use crate::wire::{acc_of, claims_to_json, header_json, header_to_json, lemma_payload_inverse, payload_json};

verus! {

/// The base64url signature text that HMAC signing produces for a message,
/// a key and an HMAC algorithm name: a pure function of the three.
pub uninterp spec fn hmac_signature_of(message: Seq<u8>, key: Seq<u8>, alg_name: Seq<char>) -> Seq<
    char,
>;

/// Relies on jsonwebtoken::crypto::sign: for an HMAC algorithm it computes
/// the base64url signature of the message under the secret, never fails,
/// and depends on nothing but the three arguments.
#[verifier::external_body]
fn sign_hmac(message: &Vec<u8>, key: &Vec<u8>, alg_name: &str) -> (r: String)
    requires
        is_hmac_name(alg_name@),
    ensures
        r@ == hmac_signature_of(message@, key@, alg_name@),
{
    let alg = <jsonwebtoken::Algorithm as std::str::FromStr>::from_str(alg_name).unwrap();
    let enc_key = jsonwebtoken::EncodingKey::from_secret(key.as_slice());
    jsonwebtoken::crypto::sign(message.as_slice(), &enc_key, alg).unwrap()
}

/// Relies on jsonwebtoken::crypto::verify: for an HMAC algorithm it
/// re-signs the message under the secret and reports whether the given
/// signature text equals the recomputed one; it never fails.
#[verifier::external_body]
fn verify_hmac(signature: &str, message: &Vec<u8>, key: &Vec<u8>, alg_name: &str) -> (r: bool)
    requires
        is_hmac_name(alg_name@),
    ensures
        r == (signature@ == hmac_signature_of(message@, key@, alg_name@)),
{
    let alg = <jsonwebtoken::Algorithm as std::str::FromStr>::from_str(alg_name).unwrap();
    let dec_key = jsonwebtoken::DecodingKey::from_secret(key.as_slice());
    jsonwebtoken::crypto::verify(signature, message.as_slice(), &dec_key, alg).unwrap()
}

/// Relies on String::from_utf8: it succeeds exactly on valid UTF-8 and
/// returns the text those bytes encode.
#[verifier::external_body]
fn bytes_to_utf8(v: Vec<u8>) -> (r: Option<String>)
    ensures
        match r {
            Some(s) => valid_utf8(v@) && s@ == decode_utf8(v@),
            None => !valid_utf8(v@),
        },
{
    String::from_utf8(v).ok()
}

/// The text that is signed: the base64url header, a dot, the base64url
/// payload.
pub open spec fn signing_input(c: ClaimsV, alg: Seq<char>) -> Seq<char> {
    b64_encode_bytes(encode_utf8(header_json(alg))) + seq!['.'] + b64_encode_bytes(
        encode_utf8(payload_json(c)),
    )
}

/// The whole token: the signing input, a dot, the HMAC signature text.
pub open spec fn token_of(c: ClaimsV, key: Seq<u8>, alg: Seq<char>) -> Seq<char> {
    signing_input(c, alg) + seq!['.'] + hmac_signature_of(
        encode_utf8(signing_input(c, alg)),
        key,
        alg,
    )
}

/// Signs a claim set into a compact token under the private key and the
/// named algorithm. The private key must have been loaded; the name must be
/// a recognised algorithm; a secret loaded from raw bytes can drive only
/// the HMAC family, so any other family is rejected before signing.
pub fn jwt_encode(algorithm: &str, claims: JwtClaims, keys: &Jwtkey) -> (r: Result<
    String,
    AuthError,
>)
    ensures
        keys.private_key is None ==> (r matches Err(AuthError::KeyError(m)) && m@
            == "Private key is not set"@),
        keys.private_key is Some && !is_valid_alg_name(algorithm@) ==> (r matches Err(
            AuthError::AlgorithmError(m),
        ) && m@ == "Invalid algorithm: InvalidAlgorithmName"@),
        keys.private_key is Some && is_valid_alg_name(algorithm@) && !is_hmac_name(algorithm@)
            ==> (r matches Err(AuthError::EncodeError(m)) && m@
            == "Error encoding token: InvalidAlgorithm"@),
        match keys.private_key {
            Some(k) => is_hmac_name(algorithm@) ==> (r matches Ok(t) && t@ == token_of(
                claims@,
                k@,
                algorithm@,
            )),
            None => true,
        },
{
    let key = match &keys.private_key {
        None => {
            return Err(AuthError::KeyError(String::from_str("Private key is not set")));
        },
        Some(k) => k,
    };
    if !validate_alg_name(algorithm) {
        return Err(
            AuthError::AlgorithmError(String::from_str("Invalid algorithm: InvalidAlgorithmName")),
        );
    }
    if !is_hmac_alg(algorithm) {
        return Err(
            AuthError::EncodeError(String::from_str("Error encoding token: InvalidAlgorithm")),
        );
    }
    proof {
        reveal_strlit(".");
    }
    let header = header_to_json(algorithm);
    let payload = claims_to_json(&claims);
    let hb = header.as_str().as_bytes_vec();
    let pb = payload.as_str().as_bytes_vec();
    let mut msg = b64_encode(&hb);
    msg.append(".");
    msg.append(b64_encode(&pb).as_str());
    proof {
        assert(msg@ =~= signing_input(claims@, algorithm@));
    }
    let mb = msg.as_str().as_bytes_vec();
    let sig = sign_hmac(&mb, key, algorithm);
    let mut token = msg;
    token.append(".");
    token.append(sig.as_str());
    proof {
        assert(token@ =~= token_of(claims@, key@, algorithm@));
    }
    Ok(token)
}

/// How decoding a token ends, before the outcome is wrapped in an error
/// value or a claim set.
pub enum DecodeOutcome {
    /// The requested algorithm name is not recognised.
    BadAlgName,
    /// The requested algorithm is not of the HMAC family.
    NotHmac,
    /// The token does not have the three-part shape, or a part does not
    /// decode, or the payload does not answer to the wire grammar.
    BadStructure,
    /// The header names an algorithm other than the requested one.
    WrongAlg,
    /// The signature does not match the message under the key.
    BadSignature,
    /// The payload has no expiration field.
    MissingExp,
    /// The expiration lies more than the leeway behind the clock.
    Expired,
    /// The claim set carried by the token.
    Decoded(ClaimsAccV),
}

/// The claim set a fully-gathered accumulator stands for.
pub open spec fn claims_of_acc(a: ClaimsAccV) -> ClaimsV {
    ClaimsV {
        aud: a.aud,
        exp: match a.exp {
            Some(e) => e,
            None => 0,
        },
        iat: a.iat,
        iss: a.iss,
        nbf: a.nbf,
        sub: a.sub,
        inf: a.inf,
    }
}

/// The seconds of leeway granted to the expiration check.
pub open spec fn exp_leeway() -> int {
    60
}

/// How decoding ends, given the requested algorithm name, the token text,
/// the key bytes and the clock reading: the checks run in this order.
pub open spec fn decode_outcome(alg: Seq<char>, token: Seq<char>, key: Seq<u8>, now: usize) -> DecodeOutcome {
    if !is_valid_alg_name(alg) {
        DecodeOutcome::BadAlgName
    } else if !is_hmac_name(alg) {
        DecodeOutcome::NotHmac
    } else {
        let i = find_from(token, '.', 0);
        let j = find_from(token, '.', i + 1);
        if i < 0 || j < 0 {
            DecodeOutcome::BadStructure
        } else {
            match b64_decode_chars(token.subrange(0, i)) {
                None => DecodeOutcome::BadStructure,
                Some(hb) => if !valid_utf8(hb) {
                    DecodeOutcome::BadStructure
                } else {
                    match sp_header_alg(decode_utf8(hb)) {
                        None => DecodeOutcome::BadStructure,
                        Some(hname) => if hname != alg {
                            DecodeOutcome::WrongAlg
                        } else if token.skip(j + 1) != hmac_signature_of(
                            encode_utf8(token.subrange(0, j)),
                            key,
                            alg,
                        ) {
                            DecodeOutcome::BadSignature
                        } else {
                            match b64_decode_chars(token.subrange(i + 1, j)) {
                                None => DecodeOutcome::BadStructure,
                                Some(pb) => if !valid_utf8(pb) {
                                    DecodeOutcome::BadStructure
                                } else {
                                    match sp_payload(decode_utf8(pb)) {
                                        None => DecodeOutcome::BadStructure,
                                        Some(acc) => match acc.exp {
                                            None => DecodeOutcome::MissingExp,
                                            Some(e) => if e + exp_leeway() < now {
                                                DecodeOutcome::Expired
                                            } else {
                                                DecodeOutcome::Decoded(acc)
                                            },
                                        },
                                    }
                                },
                            }
                        },
                    }
                },
            }
        }
    }
}

/// What decoding returns, given the key slot and the clock reading: the
/// decoded claim set on success, the error kind and its stable detail text
/// for each failing check.
pub open spec fn decode_result_is(
    alg: Seq<char>,
    token: Seq<char>,
    key: Option<Seq<u8>>,
    now: usize,
    r: Result<JwtClaims, AuthError>,
) -> bool {
    match key {
        None => r matches Err(AuthError::KeyError(m)) && m@ == "Private key is not set"@,
        Some(k) => match decode_outcome(alg, token, k, now) {
            DecodeOutcome::BadAlgName => r matches Err(AuthError::AlgorithmError(m)) && m@
                == "Invalid algorithm: InvalidAlgorithmName"@,
            DecodeOutcome::NotHmac => r matches Err(AuthError::DecodeError(m)) && m@
                == "Error decoding token: InvalidAlgorithm"@,
            DecodeOutcome::BadStructure => r matches Err(AuthError::DecodeError(m)) && m@
                == "Error decoding token: InvalidToken"@,
            DecodeOutcome::WrongAlg => r matches Err(AuthError::DecodeError(m)) && m@
                == "Error decoding token: InvalidAlgorithm"@,
            DecodeOutcome::BadSignature => r matches Err(AuthError::DecodeError(m)) && m@
                == "Error decoding token: InvalidSignature"@,
            DecodeOutcome::MissingExp => r matches Err(AuthError::DecodeError(m)) && m@
                == "Error decoding token: Missing required claim: exp"@,
            DecodeOutcome::Expired => r matches Err(AuthError::DecodeError(m)) && m@
                == "Error decoding token: ExpiredSignature"@,
            DecodeOutcome::Decoded(acc) => r matches Ok(c) && c@ == claims_of_acc(acc),
        },
    }
}

/// Verifies a token against the given clock reading and returns its claim
/// set. The same private key drives verification that drove signing; the
/// header must name the requested algorithm; the expiration must not lie
/// more than the leeway behind the clock.
pub fn decode_at(algorithm: &str, token: String, keys: &Jwtkey, now: usize) -> (r: Result<
    JwtClaims,
    AuthError,
>)
    ensures
        decode_result_is(algorithm@, token@, keys.private_key.deep_view(), now, r),
{
    let key = match &keys.private_key {
        None => {
            return Err(AuthError::KeyError(String::from_str("Private key is not set")));
        },
        Some(k) => k,
    };
    proof {
        assert(key.deep_view() =~= key@);
    }
    if !validate_alg_name(algorithm) {
        return Err(
            AuthError::AlgorithmError(String::from_str("Invalid algorithm: InvalidAlgorithmName")),
        );
    }
    if !is_hmac_alg(algorithm) {
        return Err(
            AuthError::DecodeError(String::from_str("Error decoding token: InvalidAlgorithm")),
        );
    }
    let tok = token.as_str();
    let n = tok.unicode_len();
    let i = match find_char_from(tok, '.', 0, n) {
        None => {
            return Err(
                AuthError::DecodeError(String::from_str("Error decoding token: InvalidToken")),
            );
        },
        Some(x) => x,
    };
    let j = match find_char_from(tok, '.', i + 1, n) {
        None => {
            return Err(
                AuthError::DecodeError(String::from_str("Error decoding token: InvalidToken")),
            );
        },
        Some(x) => x,
    };
    let header_part = tok.substring_char(0, i);
    let hb = match b64_decode(header_part) {
        None => {
            return Err(
                AuthError::DecodeError(String::from_str("Error decoding token: InvalidToken")),
            );
        },
        Some(x) => x,
    };
    let htext = match bytes_to_utf8(hb) {
        None => {
            return Err(
                AuthError::DecodeError(String::from_str("Error decoding token: InvalidToken")),
            );
        },
        Some(x) => x,
    };
    let hname = match parse_header_alg(htext.as_str()) {
        None => {
            return Err(
                AuthError::DecodeError(String::from_str("Error decoding token: InvalidToken")),
            );
        },
        Some(x) => x,
    };
    if !str_eq(hname.as_str(), algorithm) {
        return Err(
            AuthError::DecodeError(String::from_str("Error decoding token: InvalidAlgorithm")),
        );
    }
    let message = tok.substring_char(0, j);
    let mb = message.as_bytes_vec();
    let sig_part = tok.substring_char(j + 1, n);
    proof {
        assert(sig_part@ =~= token@.skip(j + 1));
    }
    if !verify_hmac(sig_part, &mb, key, algorithm) {
        return Err(
            AuthError::DecodeError(String::from_str("Error decoding token: InvalidSignature")),
        );
    }
    let payload_part = tok.substring_char(i + 1, j);
    let pb = match b64_decode(payload_part) {
        None => {
            return Err(
                AuthError::DecodeError(String::from_str("Error decoding token: InvalidToken")),
            );
        },
        Some(x) => x,
    };
    let ptext = match bytes_to_utf8(pb) {
        None => {
            return Err(
                AuthError::DecodeError(String::from_str("Error decoding token: InvalidToken")),
            );
        },
        Some(x) => x,
    };
    let acc = match parse_payload(ptext.as_str()) {
        None => {
            return Err(
                AuthError::DecodeError(String::from_str("Error decoding token: InvalidToken")),
            );
        },
        Some(x) => x,
    };
    let exp = match acc.exp {
        None => {
            return Err(
                AuthError::DecodeError(
                    String::from_str("Error decoding token: Missing required claim: exp"),
                ),
            );
        },
        Some(e) => e,
    };
    if now > exp && now - exp > 60 {
        return Err(
            AuthError::DecodeError(String::from_str("Error decoding token: ExpiredSignature")),
        );
    }
    Ok(
        JwtClaims {
            aud: acc.aud,
            exp,
            iat: acc.iat,
            iss: acc.iss,
            nbf: acc.nbf,
            sub: acc.sub,
            inf: acc.inf,
        },
    )
}

/// Verifies a token against the current time and returns its claim set:
/// there is a clock reading that the result answers to.
pub fn jwt_decode(algorithm: &str, token: String, keys: &Jwtkey) -> (r: Result<
    JwtClaims,
    AuthError,
>)
    ensures
        exists|now: usize|
            #[trigger] decode_result_is(algorithm@, token@, keys.private_key.deep_view(), now, r),
{
    let now = current_timestamp();
    let ghost tok = token@;
    let r = decode_at(algorithm, token, keys, now);
    proof {
        assert(decode_result_is(algorithm@, tok, keys.private_key.deep_view(), now, r));
    }
    r
}

/// The canonical header wire form parses back to the algorithm name it was
/// built from, for each HMAC name.
pub proof fn lemma_header_alg_inverse(alg: Seq<char>)
    requires
        is_hmac_name(alg),
    ensures
        sp_header_alg(header_json(alg)) == Some(alg),
{
    reveal_strlit("{\"typ\":\"JWT\",\"alg\":\"");
    reveal_strlit("\"}");
    reveal_strlit("HS256");
    reveal_strlit("HS384");
    reveal_strlit("HS512");
    let prefix = "{\"typ\":\"JWT\",\"alg\":\""@;
    let t = header_json(alg);
    assert(t.len() == prefix.len() + alg.len() + 2);
    assert(t.subrange(0, prefix.len() as int) =~= prefix);
    assert(t[t.len() - 2] == '"');
    assert(t[t.len() - 1] == '}');
    assert forall|k: int| prefix.len() <= k < t.len() - 2 implies t[k] != '"' by {
        assert(t[k] == alg[k - prefix.len()]);
    }
    assert(t.subrange(prefix.len() as int, t.len() - 2) =~= alg);
}

/// A token signed under one HMAC algorithm, decoded while another HMAC
/// algorithm is requested, ends at the algorithm-mismatch check, whatever
/// the claim set, the signing key, the verifying key and the clock read.
pub proof fn lemma_decode_rejects_other_algorithm(
    c: ClaimsV,
    key: Seq<u8>,
    key2: Seq<u8>,
    alg1: Seq<char>,
    alg2: Seq<char>,
    now: usize,
)
    requires
        is_hmac_name(alg1),
        is_hmac_name(alg2),
        alg1 != alg2,
    ensures
        decode_outcome(alg2, token_of(c, key, alg1), key2, now) is WrongAlg,
{
    broadcast use vstd::utf8::encode_utf8_valid_utf8, vstd::utf8::encode_utf8_decode_utf8;

    let hbytes = encode_utf8(header_json(alg1));
    let pbytes = encode_utf8(payload_json(c));
    let h = b64_encode_bytes(hbytes);
    let p = b64_encode_bytes(pbytes);
    let sig = hmac_signature_of(encode_utf8(signing_input(c, alg1)), key, alg1);
    let token = token_of(c, key, alg1);
    assert(token =~= h + seq!['.'] + p + seq!['.'] + sig);
    lemma_b64_no_dot(hbytes);
    lemma_b64_no_dot(pbytes);
    let i = h.len() as int;
    assert(token[i] == '.');
    assert forall|k: int| 0 <= k < i implies token[k] != '.' by {
        assert(token[k] == h[k]);
    }
    lemma_find_from_first(token, '.', 0, i);
    let j = i + 1 + p.len() as int;
    assert(token[j] == '.');
    assert forall|k: int| i + 1 <= k < j implies token[k] != '.' by {
        assert(token[k] == p[k - i - 1]);
    }
    lemma_find_from_first(token, '.', i + 1, j);
    assert(token.subrange(0, i) =~= h);
    lemma_b64_roundtrip(hbytes);
    lemma_header_alg_inverse(alg1);
}

/// What such a decoding returns: the decode error kind with the
/// algorithm-mismatch detail.
pub proof fn lemma_cross_algorithm_decode_fails(
    c: ClaimsV,
    key: Seq<u8>,
    key2: Seq<u8>,
    alg1: Seq<char>,
    alg2: Seq<char>,
    now: usize,
    r: Result<JwtClaims, AuthError>,
)
    requires
        is_hmac_name(alg1),
        is_hmac_name(alg2),
        alg1 != alg2,
        decode_result_is(alg2, token_of(c, key, alg1), Some(key2), now, r),
    ensures
        r matches Err(AuthError::DecodeError(m)) && m@ == "Error decoding token: InvalidAlgorithm"@,
{
    lemma_decode_rejects_other_algorithm(c, key, key2, alg1, alg2, now);
}

/// A token signed under an HMAC algorithm, decoded under the same key and
/// algorithm, passes the structural, header and signature checks: its
/// outcome is decided by the payload text and the expiration alone,
/// whatever the claim set, the key and the clock read.
pub proof fn lemma_self_decode_reaches_payload(
    c: ClaimsV,
    key: Seq<u8>,
    alg: Seq<char>,
    now: usize,
)
    requires
        is_hmac_name(alg),
    ensures
        decode_outcome(alg, token_of(c, key, alg), key, now) == (match sp_payload(
            payload_json(c),
        ) {
            None => DecodeOutcome::BadStructure,
            Some(acc) => match acc.exp {
                None => DecodeOutcome::MissingExp,
                Some(e) => if e + exp_leeway() < now {
                    DecodeOutcome::Expired
                } else {
                    DecodeOutcome::Decoded(acc)
                },
            },
        }),
{
    broadcast use vstd::utf8::encode_utf8_valid_utf8, vstd::utf8::encode_utf8_decode_utf8;

    let hbytes = encode_utf8(header_json(alg));
    let pbytes = encode_utf8(payload_json(c));
    let h = b64_encode_bytes(hbytes);
    let p = b64_encode_bytes(pbytes);
    let sig = hmac_signature_of(encode_utf8(signing_input(c, alg)), key, alg);
    let token = token_of(c, key, alg);
    assert(token =~= h + seq!['.'] + p + seq!['.'] + sig);
    lemma_b64_no_dot(hbytes);
    lemma_b64_no_dot(pbytes);
    let i = h.len() as int;
    assert(token[i] == '.');
    assert forall|k: int| 0 <= k < i implies token[k] != '.' by {
        assert(token[k] == h[k]);
    }
    lemma_find_from_first(token, '.', 0, i);
    let j = i + 1 + p.len() as int;
    assert(token[j] == '.');
    assert forall|k: int| i + 1 <= k < j implies token[k] != '.' by {
        assert(token[k] == p[k - i - 1]);
    }
    lemma_find_from_first(token, '.', i + 1, j);
    assert(token.subrange(0, i) =~= h);
    lemma_b64_roundtrip(hbytes);
    lemma_header_alg_inverse(alg);
    assert(token.subrange(0, j) =~= signing_input(c, alg));
    assert(token.skip(j + 1) =~= sig);
    assert(token.subrange(i + 1, j) =~= p);
    lemma_b64_roundtrip(pbytes);
}

/// The round trip: a token signed under an HMAC algorithm, decoded under
/// the same key and algorithm, hands back exactly the claim set it was
/// built from, unless the expiration lies more than the leeway behind the
/// clock; and the claim set read back carries every field unchanged.
pub proof fn lemma_round_trip(c: ClaimsV, key: Seq<u8>, alg: Seq<char>, now: usize)
    requires
        is_hmac_name(alg),
    ensures
        decode_outcome(alg, token_of(c, key, alg), key, now) == (if c.exp + exp_leeway() < now {
            DecodeOutcome::Expired
        } else {
            DecodeOutcome::Decoded(acc_of(c))
        }),
        claims_of_acc(acc_of(c)) == c,
{
    lemma_self_decode_reaches_payload(c, key, alg, now);
    lemma_payload_inverse(c);
}

/// What such a decoding returns while the expiration is within the leeway:
/// the claim set itself.
pub proof fn lemma_round_trip_result(
    c: ClaimsV,
    key: Seq<u8>,
    alg: Seq<char>,
    now: usize,
    r: Result<JwtClaims, AuthError>,
)
    requires
        is_hmac_name(alg),
        c.exp + exp_leeway() >= now,
        decode_result_is(alg, token_of(c, key, alg), Some(key), now, r),
    ensures
        r matches Ok(decoded) && decoded@ == c,
{
    lemma_round_trip(c, key, alg, now);
}

} // verus!
