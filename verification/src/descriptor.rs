//! The suite runtime descriptor that the Agent injects, and its checks.
use vstd::prelude::*;

use crate::error::Error;
use crate::text::{blank, is_blank, same_text};

verus! {

/// The Agent endpoint to connect to.
#[derive(Debug, Clone)]
pub enum RuntimeEndpoint {
    /// HTTP over a Unix domain socket.
    Unix { socket_path: String, base_url: String },
    /// HTTPS with a private CA and a client certificate.
    Https { base_url: String, ca_path: String, client_cert_path: String, client_key_path: String },
}

/// Where the instance token lies.
#[derive(Debug, Clone)]
pub struct RuntimeCredential {
    pub token_path: String,
}

/// The suite runtime descriptor (schema v1).
#[derive(Debug, Clone)]
pub struct RuntimeDescriptor {
    pub schema_version: u32,
    pub platform_version: String,
    pub suite_id: String,
    pub instance_id: String,
    pub endpoint: RuntimeEndpoint,
    pub credential: RuntimeCredential,
    pub capabilities: Vec<String>,
}

/// Whether `semver::Version::parse` accepts `text`.
pub uninterp spec fn semver_parses(text: Seq<char>) -> bool;

/// Calls `semver::Version::parse` and tells whether it accepted `text`. The
/// contract claims only that the answer is the named result for `text`; the
/// SemVer grammar is left to the `semver` crate.
#[verifier::external_body]
fn is_semver(text: &str) -> (r: bool)
    ensures
        r == semver_parses(text@),
{
    match semver::Version::parse(text) {
        Ok(_) => true,
        Err(_) => false,
    }
}

/// The schema version that this library reads.
pub const SCHEMA_VERSION: u32 = 1;

/// The message for a descriptor without version 1, SemVer platform version or identity.
pub open spec fn msg_identity_required() -> Seq<char> {
    "schema version and instance identity are required"@
}

/// The message for a blank capability.
pub open spec fn msg_blank_capability() -> Seq<char> {
    "capabilities must not contain empty values"@
}

/// The message for an identity that does not match.
pub open spec fn msg_identity_mismatch() -> Seq<char> {
    "runtime descriptor identity does not match suite instance"@
}

/// Some granted capability equals `capability`.
pub open spec fn grants(capabilities: Seq<String>, capability: Seq<char>) -> bool {
    exists|i: int| 0 <= i < capabilities.len() && #[trigger] capabilities[i]@ == capability
}

/// The message of the first rule of schema v1 that `d` breaks, given whether
/// its platform version is SemVer; nothing where it breaks none.
pub open spec fn descriptor_violation(d: RuntimeDescriptor, platform_version_is_semver: bool) -> Option<
    Seq<char>,
> {
    if d.schema_version != SCHEMA_VERSION || !platform_version_is_semver || d.suite_id@.len() == 0
        || d.instance_id@.len() == 0 {
        Some(msg_identity_required())
    } else if exists|i: int| 0 <= i < d.capabilities@.len() && is_blank(#[trigger] d.capabilities@[i]@) {
        Some(msg_blank_capability())
    } else {
        None
    }
}

impl RuntimeDescriptor {
    /// Requires that the Agent granted `capability`.
    pub fn require_capability(&self, capability: &str) -> (r: Result<(), Error>)
        ensures
            grants(self.capabilities@, capability@) ==> r is Ok,
            !grants(self.capabilities@, capability@) ==> (r matches Err(Error::CapabilityDenied(c))
                && c@ == capability@),
    {
        let mut i: usize = 0;
        while i < self.capabilities.len()
            invariant
                i <= self.capabilities.len(),
                forall|k: int| 0 <= k < i ==> #[trigger] self.capabilities@[k]@ != capability@,
            decreases self.capabilities.len() - i,
        {
            if same_text(self.capabilities[i].as_str(), capability) {
                return Ok(());
            }
            i = i + 1;
        }
        Err(Error::CapabilityDenied(capability.to_owned()))
    }

    /// Requires that the suite and instance identity that the calling process
    /// declares match the descriptor.
    pub fn require_identity(&self, suite_id: &str, instance_id: &str) -> (r: Result<(), Error>)
        ensures
            (self.suite_id@ == suite_id@ && self.instance_id@ == instance_id@) ==> r is Ok,
            !(self.suite_id@ == suite_id@ && self.instance_id@ == instance_id@) ==> (r matches Err(
                Error::InvalidDescriptor(m),
            ) && m@ == msg_identity_mismatch()),
    {
        if same_text(self.suite_id.as_str(), suite_id) && same_text(
            self.instance_id.as_str(),
            instance_id,
        ) {
            Ok(())
        } else {
            Err(
                Error::InvalidDescriptor(
                    "runtime descriptor identity does not match suite instance".to_owned(),
                ),
            )
        }
    }

    /// Checks the rules of schema v1, given whether `semver::Version::parse`
    /// accepts the platform version.
    pub fn validate_with(&self, platform_version_is_semver: bool) -> (r: Result<(), Error>)
        ensures
            descriptor_violation(*self, platform_version_is_semver) is None ==> r is Ok,
            descriptor_violation(*self, platform_version_is_semver) matches Some(m) ==> (r matches Err(
                Error::InvalidDescriptor(s),
            ) && s@ == m),
    {
        if self.schema_version != SCHEMA_VERSION || !platform_version_is_semver
            || self.suite_id.as_str().is_empty() || self.instance_id.as_str().is_empty() {
            return Err(
                Error::InvalidDescriptor(
                    "schema version and instance identity are required".to_owned(),
                ),
            );
        }
        let mut i: usize = 0;
        while i < self.capabilities.len()
            invariant
                self.schema_version == SCHEMA_VERSION,
                platform_version_is_semver,
                self.suite_id@.len() > 0,
                self.instance_id@.len() > 0,
                i <= self.capabilities.len(),
                forall|k: int| 0 <= k < i ==> !is_blank(#[trigger] self.capabilities@[k]@),
            decreases self.capabilities.len() - i,
        {
            if blank(self.capabilities[i].as_str()) {
                assert(is_blank(self.capabilities@[i as int]@));
                return Err(
                    Error::InvalidDescriptor("capabilities must not contain empty values".to_owned()),
                );
            }
            i = i + 1;
        }
        Ok(())
    }

    /// Checks the rules of schema v1: version 1, a SemVer platform version,
    /// a suite and an instance id, and no blank capability.
    pub fn validate(&self) -> (r: Result<(), Error>)
        ensures
            descriptor_violation(*self, semver_parses(self.platform_version@)) is None ==> r is Ok,
            descriptor_violation(*self, semver_parses(self.platform_version@)) matches Some(m)
                ==> (r matches Err(Error::InvalidDescriptor(s)) && s@ == m),
    {
        let ok = is_semver(self.platform_version.as_str());
        self.validate_with(ok)
    }
}

} // verus!
