use std::time::{Duration, SystemTime, UNIX_EPOCH};

use jwt_auth::JwtClaims;

fn now_timestamp() -> Duration {
    SystemTime::now().duration_since(UNIX_EPOCH).expect("Time went backwards")
}

fn exp_timestamp() -> usize {
    now_timestamp().as_secs() as usize + 20
}

fn inf_test() -> Option<Vec<(String, String)>> {
    Some(vec![
        ("uuid".to_string(), "123123-123123-123123-123123".to_string()),
        ("email".to_string(), "email_test@email_test.com".to_string()),
    ])
}

fn inf_error_test() -> Option<Vec<(String, String)>> {
    Some(vec![
        ("uuid".to_string(), "123123-123123-123123-12312".to_string()),
        ("email".to_string(), "email_test_error@email_test.com".to_string()),
    ])
}

#[test]
fn validate_exp_success() {
    let exp = exp_timestamp();

    let claims = JwtClaims::new(None, exp, None, None, None, None, None);

    match claims {
        Ok(claims) => assert_eq!(claims.exp, exp),
        Err(err) => panic!("error: {}", err.message()),
    }
}

#[test]
fn validate_exp_error() {
    let now = now_timestamp();

    let exp = now.as_secs() as usize;

    let claims = JwtClaims::new(None, exp, None, None, None, None, None);

    match claims {
        Ok(claims) => panic!("error: {:?}", claims),
        Err(err) => assert_eq!(err.message(), "Expiration time (exp) must be in the future"),
    }
}

#[test]
fn validate_nbf_success() {
    let now = now_timestamp();

    let nbf = Some(now.as_secs() as usize);

    let claims = JwtClaims::new(None, exp_timestamp(), None, None, nbf, None, None);

    match claims {
        Ok(claims) => assert_eq!(claims.nbf, nbf),
        Err(err) => panic!("error: {}", err.message()),
    }
}

#[test]
fn validate_nbf_error() {
    let now = now_timestamp();

    let nbf = Some(now.as_secs() as usize + 20);

    let claims = JwtClaims::new(None, exp_timestamp(), None, None, nbf, None, None);

    match claims {
        Ok(claims) => panic!("error: {:?}", claims),
        Err(err) => {
            println!("{}", err.message());
            assert_eq!(err.message(), "The time 'not before' (nbf) cannot be in the future")
        },
    }
}

#[test]
fn validate_iat_success() {
    let now = now_timestamp();

    let iat = Some(now.as_secs() as usize);

    let claims = JwtClaims::new(None, exp_timestamp(), iat, None, None, None, None);

    match claims {
        Ok(claims) => assert_eq!(claims.iat, iat),
        Err(err) => panic!("error: {}", err.message()),
    }
}

#[test]
fn validate_iat_error() {
    let now = now_timestamp();

    let iat = Some(now.as_secs() as usize + 20);

    let claims = JwtClaims::new(None, exp_timestamp(), iat, None, None, None, None);

    match claims {
        Ok(claims) => panic!("error: {:?}", claims),
        Err(err) => assert_eq!(err.message(), "The time of issuance (iat) cannot be in the future"),
    }
}

#[test]
fn validate_inf_success() {
    let inf = inf_test();

    let inf_clone = inf.clone();

    let claims = JwtClaims::new(None, exp_timestamp(), None, None, None, None, inf);

    match claims {
        Ok(claims) => assert_eq!(claims.inf, inf_clone),
        Err(err) => panic!("error: {}", err.message()),
    }
}

#[test]
fn validate_inf_error() {
    let inf_error = inf_error_test();

    let inf = inf_test();

    let claims = JwtClaims::new(None, exp_timestamp(), None, None, None, None, inf);

    assert_ne!(claims.unwrap().inf, Some(inf_error).unwrap())
}

#[test]
fn validate_exp_boundary_now_rejected() {
    let now = now_timestamp().as_secs() as usize;

    let claims = JwtClaims::new(None, now, None, None, None, None, None);

    assert!(claims.is_err());
}

#[test]
fn validate_order_exp_before_nbf() {
    let now = now_timestamp().as_secs() as usize;

    let claims = JwtClaims::new(None, now, None, None, Some(now + 50), None, None);

    match claims {
        Ok(claims) => panic!("error: {:?}", claims),
        Err(err) => assert_eq!(err.message(), "Expiration time (exp) must be in the future"),
    }
}
