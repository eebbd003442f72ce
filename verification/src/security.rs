//! Connection security profiles: the algorithm-policy level and the
//! host-key verification rule chosen at connect time.

use vstd::prelude::*;

verus! {

/// Security level used for SSH algorithm selection.
#[derive(Debug, Clone, Copy, PartialEq, Eq, Structural)]
pub enum SecurityLevel {
    /// Strict modern algorithms (default).
    Secure,
    /// Good security with broader compatibility.
    Balanced,
    /// Maximum compatibility with legacy devices.
    LegacyCompatible,
}

/// How the server's host key is verified.
#[derive(Debug, Clone, Copy, PartialEq, Eq, Structural)]
pub enum HostKeyCheck {
    /// Check against the default known-hosts file.
    DefaultKnownHostsFile,
    /// Do not verify the host key.
    NoCheck,
}

/// Connection security options for SSH establishment.
#[derive(Debug, Clone, Copy, PartialEq, Eq, Structural)]
pub struct ConnectionSecurityOptions {
    /// SSH algorithm policy.
    pub level: SecurityLevel,
    /// Server host key verification method.
    pub server_check: HostKeyCheck,
}

impl Default for ConnectionSecurityOptions {
    /// The secure profile.
    fn default() -> (r: ConnectionSecurityOptions)
        ensures
            r.level is Secure,
            r.server_check is DefaultKnownHostsFile,
    {
        ConnectionSecurityOptions::secure_default()
    }
}

impl ConnectionSecurityOptions {
    /// Secure-by-default profile: strict algorithms, host keys checked.
    pub fn secure_default() -> (r: ConnectionSecurityOptions)
        ensures
            r.level is Secure,
            r.server_check is DefaultKnownHostsFile,
    {
        ConnectionSecurityOptions {
            level: SecurityLevel::Secure,
            server_check: HostKeyCheck::DefaultKnownHostsFile,
        }
    }

    /// Balanced profile for mixed environments; host keys still checked.
    pub fn balanced() -> (r: ConnectionSecurityOptions)
        ensures
            r.level is Balanced,
            r.server_check is DefaultKnownHostsFile,
    {
        ConnectionSecurityOptions {
            level: SecurityLevel::Balanced,
            server_check: HostKeyCheck::DefaultKnownHostsFile,
        }
    }

    /// Legacy compatibility profile: permissive algorithms and no host-key
    /// verification.
    pub fn legacy_compatible() -> (r: ConnectionSecurityOptions)
        ensures
            r.level is LegacyCompatible,
            r.server_check is NoCheck,
    {
        ConnectionSecurityOptions {
            level: SecurityLevel::LegacyCompatible,
            server_check: HostKeyCheck::NoCheck,
        }
    }

    /// Whether this profile admits weak algorithms (cleartext ciphers,
    /// absent MACs, legacy key exchanges).
    pub fn allows_weak_algorithms(&self) -> (r: bool)
        ensures
            r == (self.level is LegacyCompatible),
    {
        matches!(self.level, SecurityLevel::LegacyCompatible)
    }
}

} // verus!
