use std::time::{SystemTime, UNIX_EPOCH};

use jwt_auth::{jwt_decode, jwt_encode, AuthError, JwtClaims, JwtPath, Jwtkey};

fn exp_timestamp() -> usize {
    SystemTime::now().duration_since(UNIX_EPOCH).expect("Time went backwards").as_secs() as usize
        + 600
}

fn now_secs() -> usize {
    SystemTime::now().duration_since(UNIX_EPOCH).expect("Time went backwards").as_secs() as usize
}

fn inf() -> Option<Vec<(String, String)>> {
    Some(vec![
        ("uuid".to_string(), "123123-123123-123123-123123".to_string()),
        ("email".to_string(), "email_test@email_test.com".to_string()),
    ])
}

fn loaded_keys() -> (JwtPath, Jwtkey) {
    let mut paths = JwtPath::new();
    let mut keys = Jwtkey::new();
    paths.set_private_key_path("./keys/private_key.pem").unwrap();
    keys.set_private_key(&paths, Ok(b"a-test-signing-secret".to_vec())).unwrap();
    (paths, keys)
}

fn generate_jwt_encode(keys: &Jwtkey) -> String {
    let exp = exp_timestamp();

    let inf = inf();

    let claims = JwtClaims::new(None, exp, None, None, None, None, inf);

    if claims.is_err() {
        panic!("error: {}", claims.err().unwrap().message());
    }

    let token = jwt_encode("HS256", claims.unwrap(), keys);

    if token.is_err() {
        panic!("error: {}", token.err().unwrap().message());
    }

    token.unwrap()
}

#[test]
fn jwt_encode_test() {
    let exp = exp_timestamp();

    let inf = inf();

    let (_paths, keys) = loaded_keys();

    let claims = JwtClaims::new(None, exp, None, None, None, None, inf);

    if claims.is_err() {
        panic!("error: {}", claims.err().unwrap().message());
    }

    let token = jwt_encode("HS256", claims.unwrap(), &keys);

    if token.is_err() {
        panic!("error: {}", token.err().unwrap().message());
    }

    println!("token: {}", token.unwrap());
}

#[test]
fn jwt_decode_test() {
    let (_paths, keys) = loaded_keys();

    let token = generate_jwt_encode(&keys);

    let decoded = jwt_decode("HS256", token, &keys);

    if decoded.is_err() {
        panic!("error: {}", decoded.err().unwrap().message());
    }

    println!("decoded: {:#?}", decoded.unwrap());
}

#[test]
fn round_trip_keeps_extra_info() {
    let (_paths, keys) = loaded_keys();

    let exp = now_secs() + 600;
    let extra = vec![("uuid".to_string(), "abc".to_string()), ("email".to_string(), "x@y.com".to_string())];
    let claims =
        JwtClaims::new(None, exp, None, None, None, None, Some(extra.clone())).unwrap();

    let token = jwt_encode("HS256", claims, &keys).unwrap();

    let decoded = jwt_decode("HS256", token, &keys).unwrap();

    assert_eq!(decoded.inf, Some(extra));
    assert_eq!(decoded.exp, exp);
}

#[test]
fn round_trip_keeps_every_field() {
    let (_paths, keys) = loaded_keys();

    let now = now_secs();
    let claims = JwtClaims::new(
        Some("an audience".to_string()),
        now + 600,
        Some(now),
        Some("an \"issuer\" with \\ marks".to_string()),
        Some(now),
        Some("a subject".to_string()),
        inf(),
    )
    .unwrap();

    let token = jwt_encode("HS256", claims, &keys).unwrap();

    let decoded = jwt_decode("HS256", token, &keys).unwrap();

    assert_eq!(decoded.aud, Some("an audience".to_string()));
    assert_eq!(decoded.exp, now + 600);
    assert_eq!(decoded.iat, Some(now));
    assert_eq!(decoded.iss, Some("an \"issuer\" with \\ marks".to_string()));
    assert_eq!(decoded.nbf, Some(now));
    assert_eq!(decoded.sub, Some("a subject".to_string()));
    assert_eq!(decoded.inf, inf());
}

#[test]
fn decode_under_other_algorithm_fails() {
    let (_paths, keys) = loaded_keys();

    let token = generate_jwt_encode(&keys);

    let decoded = jwt_decode("HS384", token, &keys);

    assert!(matches!(decoded, Err(AuthError::DecodeError(_))));
}

#[test]
fn unknown_algorithm_name_rejected() {
    let (_paths, keys) = loaded_keys();

    let claims =
        JwtClaims::new(None, exp_timestamp(), None, None, None, None, None).unwrap();

    let encoded = jwt_encode("NOT_AN_ALG", claims, &keys);
    match encoded {
        Err(AuthError::AlgorithmError(_)) => (),
        other => panic!("error: {:?}", other),
    }

    let decoded = jwt_decode("NOT_AN_ALG", "x.y.z".to_string(), &keys);
    match decoded {
        Err(e) => assert_eq!(e.message(), "Invalid algorithm: InvalidAlgorithmName"),
        Ok(c) => panic!("error: {:?}", c),
    }
}

#[test]
fn non_hmac_algorithm_rejected_with_secret_key() {
    let (_paths, keys) = loaded_keys();

    let claims =
        JwtClaims::new(None, exp_timestamp(), None, None, None, None, None).unwrap();

    let encoded = jwt_encode("RS256", claims, &keys);

    assert_eq!(
        encoded.unwrap_err().message(),
        "Error encoding token: InvalidAlgorithm"
    );
}

#[test]
fn encode_without_key_fails() {
    let keys = Jwtkey::new();

    let claims =
        JwtClaims::new(None, exp_timestamp(), None, None, None, None, None).unwrap();

    let token = jwt_encode("HS256", claims, &keys);

    match token {
        Err(AuthError::KeyError(_)) => (),
        other => panic!("error: {:?}", other),
    }
}

#[test]
fn decode_without_key_fails() {
    let keys = Jwtkey::new();

    let decoded = jwt_decode("HS256", "a.b.c".to_string(), &keys);

    assert_eq!(decoded.unwrap_err().message(), "Private key is not set");
}

#[test]
fn tampered_signature_rejected() {
    let (_paths, keys) = loaded_keys();

    let token = generate_jwt_encode(&keys);

    let flipped_last = if token.ends_with('A') { "B" } else { "A" };
    let mut tampered = token[..token.len() - 1].to_string();
    tampered.push_str(flipped_last);

    let decoded = jwt_decode("HS256", tampered, &keys);

    assert_eq!(
        decoded.unwrap_err().message(),
        "Error decoding token: InvalidSignature"
    );
}

#[test]
fn wrong_key_rejected() {
    let (_paths, keys) = loaded_keys();

    let token = generate_jwt_encode(&keys);

    let mut other_paths = JwtPath::new();
    let mut other_keys = Jwtkey::new();
    other_paths.set_private_key_path("./keys/other_key.pem").unwrap();
    other_keys.set_private_key(&other_paths, Ok(b"a-different-secret".to_vec())).unwrap();

    let decoded = jwt_decode("HS256", token, &other_keys);

    assert_eq!(
        decoded.unwrap_err().message(),
        "Error decoding token: InvalidSignature"
    );
}

#[test]
fn token_has_three_parts_and_real_signature() {
    let (_paths, keys) = loaded_keys();

    let token = generate_jwt_encode(&keys);

    let parts: Vec<&str> = token.split('.').collect();
    assert_eq!(parts.len(), 3);
    assert_eq!(parts[2].len(), 43);
}

#[test]
fn garbled_token_rejected() {
    let (_paths, keys) = loaded_keys();

    let decoded = jwt_decode("HS256", "not a token at all".to_string(), &keys);

    assert_eq!(
        decoded.unwrap_err().message(),
        "Error decoding token: InvalidToken"
    );
}

#[test]
fn expired_token_rejected_beyond_leeway() {
    let (_paths, keys) = loaded_keys();

    let now = now_secs();
    let stale = JwtClaims {
        aud: None,
        exp: now - 120,
        iat: None,
        iss: None,
        nbf: None,
        sub: None,
        inf: None,
    };

    let token = jwt_encode("HS256", stale, &keys).unwrap();

    let decoded = jwt_decode("HS256", token, &keys);

    assert_eq!(
        decoded.unwrap_err().message(),
        "Error decoding token: ExpiredSignature"
    );
}

#[test]
fn just_expired_token_accepted_within_leeway() {
    let (_paths, keys) = loaded_keys();

    let now = now_secs();
    let nearly = JwtClaims {
        aud: None,
        exp: now - 30,
        iat: None,
        iss: None,
        nbf: None,
        sub: None,
        inf: None,
    };

    let token = jwt_encode("HS256", nearly, &keys).unwrap();

    let decoded = jwt_decode("HS256", token, &keys);

    assert!(decoded.is_ok());
}
