use jwt_auth::{AuthError, JwtPath, Jwtkey};

#[test]
fn private_key_path_success() {
    let mut paths = JwtPath::new();

    let _ = paths.set_private_key_path("./keys/private_key.pem");

    let _ = paths.set_private_key_path("./keys/public_key.pem");

    let private_key_path = paths.private_key_path.as_ref().unwrap();

    assert_eq!("./keys/private_key.pem", private_key_path);
}

#[test]
fn public_key_path_success() {
    let mut paths = JwtPath::new();

    let _ = paths.set_public_key_path("./keys/public_key.pem");

    let public_key_path = paths.public_key_path.as_ref().unwrap();

    assert_eq!("./keys/public_key.pem", public_key_path);
}

#[test]
fn private_key_path_error() {
    let mut paths = JwtPath::new();

    let _ = paths.set_private_key_path("./keys/private_key.pem");

    let set_private_key_other_path = paths.set_private_key_path("./keys/public_key.pem");

    assert_eq!(set_private_key_other_path.is_err(), true);
}

#[test]
fn public_key_path_error() {
    let mut paths = JwtPath::new();

    let _ = paths.set_public_key_path("./keys/public_key.pem");

    let set_public_key_other_path = paths.set_public_key_path("./keys/private_key.pem");

    assert_eq!(set_public_key_other_path.is_err(), true);
}

#[test]
fn load_key_bad_extension() {
    let mut paths = JwtPath::new();
    let mut keys = Jwtkey::new();

    paths.set_private_key_path("./keys/private_key.txt").unwrap();

    let r = keys.set_private_key(&paths, Ok(b"whatever".to_vec()));

    assert!(matches!(r, Err(AuthError::KeyInvalidExtension)));
    assert_eq!(
        r.unwrap_err().message(),
        "File does not have .pem extension"
    );
    assert!(keys.private_key.is_none());
}

#[test]
fn load_key_bad_extension_even_when_read_fails() {
    let mut paths = JwtPath::new();
    let mut keys = Jwtkey::new();

    paths.set_private_key_path("./keys/private_key.txt").unwrap();

    let r = keys.set_private_key(&paths, Err("unreadable".to_string()));

    assert!(matches!(r, Err(AuthError::KeyInvalidExtension)));
}

#[test]
fn load_key_without_path() {
    let paths = JwtPath::new();
    let mut keys = Jwtkey::new();

    let r = keys.set_private_key(&paths, Ok(b"secret".to_vec()));

    assert_eq!(r.unwrap_err().message(), "Private key path is not set");
}

#[test]
fn load_key_file_error() {
    let mut paths = JwtPath::new();
    let mut keys = Jwtkey::new();

    paths.set_private_key_path("./keys/private_key.pem").unwrap();

    let r = keys.set_private_key(&paths, Err("no such file".to_string()));

    assert!(matches!(r, Err(AuthError::FileError(_))));
    assert_eq!(r.unwrap_err().message(), "Error file: no such file");
    assert!(keys.private_key.is_none());
}

#[test]
fn load_key_twice_keeps_first_bytes() {
    let mut paths = JwtPath::new();
    let mut keys = Jwtkey::new();

    paths.set_private_key_path("./keys/private_key.pem").unwrap();

    keys.set_private_key(&paths, Ok(b"first-secret".to_vec())).unwrap();

    let second = keys.set_private_key(&paths, Ok(b"second-secret".to_vec()));

    assert_eq!(second.unwrap_err().message(), "Private key already initialized");
    assert_eq!(keys.private_key.as_ref().unwrap(), &b"first-secret".to_vec());
}

#[test]
fn register_path_twice_message() {
    let mut paths = JwtPath::new();

    paths.set_private_key_path("./keys/a.pem").unwrap();

    let second = paths.set_private_key_path("./keys/b.pem");

    assert_eq!(
        second.unwrap_err().message(),
        "Error set private key path: ./keys/b.pem"
    );
}

#[test]
fn load_public_key_independent_of_private() {
    let mut paths = JwtPath::new();
    let mut keys = Jwtkey::new();

    paths.set_public_key_path("./keys/public_key.pem").unwrap();

    keys.set_public_key(&paths, Ok(b"public-bytes".to_vec())).unwrap();

    assert!(keys.private_key.is_none());
    assert_eq!(keys.public_key.as_ref().unwrap(), &b"public-bytes".to_vec());
}
