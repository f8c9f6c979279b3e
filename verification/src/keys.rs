use vstd::prelude::*;
use vstd::string::*;
use crate::error::AuthError;
use crate::text::{ends_with_pem, has_pem_ext};

verus! {

/// A write-once slot after an attempt to fill it: an empty slot takes the
/// value, a filled slot keeps what it holds.
pub open spec fn slot_after_set<T>(slot: Option<T>, v: T) -> Option<T> {
    if slot is None {
        Some(v)
    } else {
        slot
    }
}

/// An attempt to fill a write-once slot succeeds exactly when it is empty.
pub open spec fn set_succeeds<T>(slot: Option<T>) -> bool {
    slot is None
}

/// The write-once holders of the two key-file paths.
pub struct JwtPath {
    pub private_key_path: Option<String>,
    pub public_key_path: Option<String>,
}

impl JwtPath {
    /// A path store with both slots still empty.
    pub fn new() -> (r: JwtPath)
        ensures
            r.private_key_path is None,
            r.public_key_path is None,
    {
        JwtPath { private_key_path: None, public_key_path: None }
    }

    /// Stores the private-key path exactly once: a second call fails with a
    /// path-state error and leaves the first value unchanged.
    pub fn set_private_key_path(&mut self, path: &str) -> (r: Result<(), AuthError>)
        ensures
            final(self).private_key_path.deep_view() == slot_after_set(
                old(self).private_key_path.deep_view(),
                path@,
            ),
            final(self).public_key_path == old(self).public_key_path,
            set_succeeds(old(self).private_key_path) ==> r is Ok,
            !set_succeeds(old(self).private_key_path) ==> (r matches Err(
                AuthError::PathError(m),
            ) && m@ == "Error set private key path: "@ + path@),
    {
        match &self.private_key_path {
            None => {
                self.private_key_path = Some(String::from_str(path));
                Ok(())
            },
            Some(_) => Err(
                AuthError::PathError(
                    String::from_str("Error set private key path: ").concat(path),
                ),
            ),
        }
    }

    /// Stores the public-key path exactly once: a second call fails with a
    /// path-state error and leaves the first value unchanged.
    pub fn set_public_key_path(&mut self, path: &str) -> (r: Result<(), AuthError>)
        ensures
            final(self).public_key_path.deep_view() == slot_after_set(
                old(self).public_key_path.deep_view(),
                path@,
            ),
            final(self).private_key_path == old(self).private_key_path,
            set_succeeds(old(self).public_key_path) ==> r is Ok,
            !set_succeeds(old(self).public_key_path) ==> (r matches Err(
                AuthError::PathError(m),
            ) && m@ == "Error set public key path: "@ + path@),
    {
        match &self.public_key_path {
            None => {
                self.public_key_path = Some(String::from_str(path));
                Ok(())
            },
            Some(_) => Err(
                AuthError::PathError(String::from_str("Error set public key path: ").concat(path)),
            ),
        }
    }
}

/// How an attempt to load key bytes into a write-once slot ends.
pub enum KeyLoadOutcome {
    /// The bytes were stored.
    Loaded,
    /// The corresponding path slot is still empty.
    PathNotSet,
    /// The registered path does not end in `.pem`.
    BadExtension,
    /// The file could not be read.
    FileFailed,
    /// The key slot already holds bytes.
    AlreadyInitialized,
}

/// The view of a file-read result: its bytes, or the failure text.
pub open spec fn file_view(f: Result<Vec<u8>, String>) -> Result<Seq<u8>, Seq<char>> {
    match f {
        Ok(b) => Ok(b@),
        Err(e) => Err(e@),
    }
}

/// How loading key bytes ends, given the path slot, the key slot, and the
/// outcome of reading the file: the checks run in this order.
pub open spec fn load_outcome(
    path: Option<Seq<char>>,
    key: Option<Seq<u8>>,
    file: Result<Seq<u8>, Seq<char>>,
) -> KeyLoadOutcome {
    match path {
        None => KeyLoadOutcome::PathNotSet,
        Some(p) => if !has_pem_ext(p) {
            KeyLoadOutcome::BadExtension
        } else {
            match file {
                Err(_) => KeyLoadOutcome::FileFailed,
                Ok(b) => if key is Some {
                    KeyLoadOutcome::AlreadyInitialized
                } else {
                    KeyLoadOutcome::Loaded
                },
            }
        },
    }
}

/// The key slot after a load attempt: filled with the file's bytes when the
/// load goes through, untouched otherwise.
pub open spec fn key_after_load(
    path: Option<Seq<char>>,
    key: Option<Seq<u8>>,
    file: Result<Seq<u8>, Seq<char>>,
) -> Option<Seq<u8>> {
    if load_outcome(path, key, file) is Loaded {
        Some(file->Ok_0)
    } else {
        key
    }
}

/// The write-once holders of the private and public key bytes.
pub struct Jwtkey {
    pub private_key: Option<Vec<u8>>,
    pub public_key: Option<Vec<u8>>,
}

impl Jwtkey {
    /// A key store with both slots still empty.
    pub fn new() -> (r: Jwtkey)
        ensures
            r.private_key is None,
            r.public_key is None,
    {
        Jwtkey { private_key: None, public_key: None }
    }

    /// Stores the private-key bytes exactly once. The registered private-key
    /// path must end in `.pem`; `file` is the outcome of reading that file,
    /// which the caller performs. The slot is written only when every check
    /// passes, and never overwritten.
    pub fn set_private_key(&mut self, paths: &JwtPath, file: Result<Vec<u8>, String>) -> (r: Result<
        (),
        AuthError,
    >)
        ensures
            final(self).private_key.deep_view() == key_after_load(
                paths.private_key_path.deep_view(),
                old(self).private_key.deep_view(),
                file_view(file),
            ),
            final(self).public_key == old(self).public_key,
            ({
                let outcome = load_outcome(
                    paths.private_key_path.deep_view(),
                    old(self).private_key.deep_view(),
                    file_view(file),
                );
                match outcome {
                    KeyLoadOutcome::Loaded => r is Ok,
                    KeyLoadOutcome::PathNotSet => r matches Err(AuthError::PathError(m))
                        && m@ == "Private key path is not set"@,
                    KeyLoadOutcome::BadExtension => r == Err::<(), AuthError>(
                        AuthError::KeyInvalidExtension,
                    ),
                    KeyLoadOutcome::FileFailed => r matches Err(AuthError::FileError(m)) && m@
                        == file_view(file)->Err_0,
                    KeyLoadOutcome::AlreadyInitialized => r matches Err(AuthError::KeyError(m))
                        && m@ == "Private key already initialized"@,
                }
            }),
    {
        let path = match &paths.private_key_path {
            None => {
                return Err(AuthError::PathError(String::from_str("Private key path is not set")));
            },
            Some(p) => p,
        };
        if !ends_with_pem(path.as_str()) {
            return Err(AuthError::KeyInvalidExtension);
        }
        let bytes = match file {
            Err(e) => { return Err(AuthError::FileError(e)); },
            Ok(b) => b,
        };
        match &self.private_key {
            Some(_) => Err(AuthError::KeyError(String::from_str("Private key already initialized"))),
            None => {
                self.private_key = Some(bytes);
                Ok(())
            },
        }
    }

    /// Stores the public-key bytes exactly once, with the same checks as the
    /// private-key load, against the registered public-key path.
    pub fn set_public_key(&mut self, paths: &JwtPath, file: Result<Vec<u8>, String>) -> (r: Result<
        (),
        AuthError,
    >)
        ensures
            final(self).public_key.deep_view() == key_after_load(
                paths.public_key_path.deep_view(),
                old(self).public_key.deep_view(),
                file_view(file),
            ),
            final(self).private_key == old(self).private_key,
            ({
                let outcome = load_outcome(
                    paths.public_key_path.deep_view(),
                    old(self).public_key.deep_view(),
                    file_view(file),
                );
                match outcome {
                    KeyLoadOutcome::Loaded => r is Ok,
                    KeyLoadOutcome::PathNotSet => r matches Err(AuthError::PathError(m))
                        && m@ == "Public key path is not set"@,
                    KeyLoadOutcome::BadExtension => r == Err::<(), AuthError>(
                        AuthError::KeyInvalidExtension,
                    ),
                    KeyLoadOutcome::FileFailed => r matches Err(AuthError::FileError(m)) && m@
                        == file_view(file)->Err_0,
                    KeyLoadOutcome::AlreadyInitialized => r matches Err(AuthError::KeyError(m))
                        && m@ == "Public key already initialized"@,
                }
            }),
    {
        let path = match &paths.public_key_path {
            None => {
                return Err(AuthError::PathError(String::from_str("Public key path is not set")));
            },
            Some(p) => p,
        };
        if !ends_with_pem(path.as_str()) {
            return Err(AuthError::KeyInvalidExtension);
        }
        let bytes = match file {
            Err(e) => { return Err(AuthError::FileError(e)); },
            Ok(b) => b,
        };
        match &self.public_key {
            Some(_) => Err(AuthError::KeyError(String::from_str("Public key already initialized"))),
            None => {
                self.public_key = Some(bytes);
                Ok(())
            },
        }
    }
}

/// Registering a path twice is an idempotent failure: once a slot holds a
/// value, a further attempt does not succeed and the first value is kept,
/// whatever path the second attempt carries.
pub proof fn lemma_register_path_write_once(p1: Seq<char>, p2: Seq<char>)
    ensures
        ({
            let s1 = slot_after_set(None::<Seq<char>>, p1);
            &&& s1 == Some(p1)
            &&& !set_succeeds(s1)
            &&& slot_after_set(s1, p2) == s1
        }),
{
}

/// A path that does not end in `.pem` makes every load fail with the
/// extension outcome, whatever the file read returned and whatever the key
/// slot holds; the slot is untouched.
pub proof fn lemma_load_rejects_bad_extension(
    p: Seq<char>,
    key: Option<Seq<u8>>,
    file: Result<Seq<u8>, Seq<char>>,
)
    requires
        !has_pem_ext(p),
    ensures
        load_outcome(Some(p), key, file) is BadExtension,
        key_after_load(Some(p), key, file) == key,
{
}

/// Loading a second time is an idempotent failure: after a load that went
/// through, a further attempt whose file read returned bytes ends
/// already-initialized, and the originally loaded bytes are kept.
pub proof fn lemma_load_write_once(
    path: Option<Seq<char>>,
    b1: Seq<u8>,
    file2: Result<Seq<u8>, Seq<char>>,
)
    requires
        load_outcome(path, None, Ok(b1)) is Loaded,
        file2 is Ok,
    ensures
        ({
            let k1 = key_after_load(path, None, Ok(b1));
            &&& k1 == Some(b1)
            &&& load_outcome(path, k1, file2) is AlreadyInitialized
            &&& key_after_load(path, k1, file2) == k1
        }),
{
}

} // verus!
