//! Connection-parameter equivalence: a cached session may be reused only
//! when the caller's credentials, handler and security profile match what
//! the session was built with.  Passwords are compared through SHA-256
//! digests so the pool never holds plaintext.

use vstd::prelude::*;
use vstd::string::StringSliceAdditionalSpecFns;
use sha2::Digest;
use crate::device::DeviceHandler;
use crate::security::ConnectionSecurityOptions;

verus! {

/// The SHA-256 digest of a byte sequence.
pub uninterp spec fn sha256_of(data: Seq<u8>) -> Seq<u8>;

/// The digest of a text, taken over its UTF-8 bytes.
pub open spec fn digest_of_text(s: Seq<char>) -> Seq<u8> {
    sha256_of(vstd::utf8::encode_utf8(s))
}

/// Relies on `sha2::Sha256` (`Digest::new`, `update`, `finalize`): the
/// digest depends on the input bytes alone and is 32 bytes long.
#[verifier::external_body]
pub fn sha256(data: &[u8]) -> (r: Vec<u8>)
    ensures
        r@ == sha256_of(data@),
        r@.len() == 32,
{
    let mut hasher = sha2::Sha256::new();
    hasher.update(data);
    hasher.finalize().to_vec()
}

/// The digest of a string's UTF-8 bytes.
pub fn sha256_str(s: &str) -> (r: Vec<u8>)
    ensures
        r@ == digest_of_text(s@),
        r@.len() == 32,
{
    let r = sha256(s.as_bytes());
    proof {
        assert(s.spec_bytes() == vstd::utf8::encode_utf8(s@));
    }
    r
}

/// The identity a live session was built with, kept for cache-reuse
/// checks: credential digests and the security profile.
pub struct SessionFingerprint {
    /// SHA-256 of the login password.
    pub password_hash: Vec<u8>,
    /// SHA-256 of the enable password, when one was given.
    pub enable_password_hash: Option<Vec<u8>>,
    /// The security profile used at connect time.
    pub security: ConnectionSecurityOptions,
}

impl SessionFingerprint {
    /// Captures the fingerprint of freshly supplied parameters.
    pub fn capture(
        password: &str,
        enable_password: &Option<String>,
        security: ConnectionSecurityOptions,
    ) -> (r: SessionFingerprint)
        ensures
            r.password_hash@ == digest_of_text(password@),
            match enable_password {
                Some(p) => r.enable_password_hash matches Some(h) && h@ == digest_of_text(p@),
                None => r.enable_password_hash is None,
            },
            r.security == security,
    {
        let enable_password_hash = match enable_password {
            Some(p) => Some(sha256_str(p.as_str())),
            None => None,
        };
        SessionFingerprint { password_hash: sha256_str(password), enable_password_hash, security }
    }
}

/// Whether two byte vectors hold the same bytes.
fn bytes_equal(a: &Vec<u8>, b: &Vec<u8>) -> (r: bool)
    ensures
        r == (a@ == b@),
{
    if a.len() != b.len() {
        return false;
    }
    let mut i: usize = 0;
    while i < a.len()
        invariant
            i <= a@.len(),
            a@.len() == b@.len(),
            forall|j: int| 0 <= j < i ==> a@[j] == b@[j],
        decreases a@.len() - i,
    {
        if a[i] != b[i] {
            return false;
        }
        i += 1;
    }
    proof {
        assert(a@ =~= b@);
    }
    true
}

/// Decides whether a cached session built with `stored` parameters can be
/// reused for a request carrying these credentials, handler and security
/// profile: the password digests, the handler configuration and the
/// security options must all agree.
pub fn matches_connection_params(
    stored: &SessionFingerprint,
    stored_handler: &DeviceHandler,
    password: &str,
    enable_password: &Option<String>,
    handler: &DeviceHandler,
    security: &ConnectionSecurityOptions,
) -> (r: bool)
    ensures
        r == ({
            &&& stored.password_hash@ == digest_of_text(password@)
            &&& match (stored.enable_password_hash, enable_password) {
                (None, None) => true,
                (Some(h), Some(p)) => h@ == digest_of_text(p@),
                _ => false,
            }
            &&& DeviceHandler::equiv_m(stored_handler, handler)
            &&& stored.security == *security
        }),
{
    let password_hash = sha256_str(password);
    if !bytes_equal(&stored.password_hash, &password_hash) {
        return false;
    }
    let enable_matches = match (&stored.enable_password_hash, enable_password) {
        (None, None) => true,
        (Some(stored_hash), Some(p)) => {
            let hash = sha256_str(p.as_str());
            bytes_equal(stored_hash, &hash)
        },
        _ => false,
    };
    if !enable_matches {
        return false;
    }
    if !stored_handler.is_equivalent(handler) {
        return false;
    }
    if !(stored.security.level == security.level && stored.security.server_check
        == security.server_check) {
        return false;
    }
    true
}

} // verus!
