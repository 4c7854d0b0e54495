//! A license as the store holds it, and the checks that a validation makes
//! on the license alone: that it exists, has not expired and carries the
//! checksum that the caller sent.

use crate::date::DateTimePlus;
use crate::error::ValidationError;
use crate::request::{decode_checksum, decoded_hex, same_bytes, text_of};
use vstd::prelude::*;

verus! {

/// One license of the store.
#[derive(Debug, Clone, PartialEq, Eq)]
pub struct License {
    /// The identifier that the store gave the license.
    pub id: i32,
    /// The key that callers present.
    pub key: u128,
    /// A note on the owner, with no effect.
    pub comment: String,
    /// How many distinct addresses may ever be admitted.
    pub ip_limit: i32,
    /// The checksum bound to the license when it was issued.
    pub checksum: Vec<u8>,
    /// The instant after which the key is no longer valid.
    pub expires_at: DateTimePlus,
    /// The instant of issuance.
    pub created_at: DateTimePlus,
}

/// A license as a mathematical value.
pub struct LicenseView {
    pub id: i32,
    pub key: u128,
    pub comment: Seq<char>,
    pub ip_limit: i32,
    pub checksum: Seq<u8>,
    pub expires_at: DateTimePlus,
    pub created_at: DateTimePlus,
}

impl View for License {
    type V = LicenseView;

    open spec fn view(&self) -> LicenseView {
        LicenseView {
            id: self.id,
            key: self.key,
            comment: self.comment@,
            ip_limit: self.ip_limit,
            checksum: self.checksum@,
            expires_at: self.expires_at,
            created_at: self.created_at,
        }
    }
}

/// Whether a license has expired at an instant: its expiry lies strictly in
/// the past.
pub open spec fn expired(expires_at: DateTimePlus, now: DateTimePlus) -> bool {
    expires_at.before(now)
}

/// The checksum check: a checksum that is absent or no hex encoding is
/// malformed; one whose bytes differ from the stored ones is invalid.
pub open spec fn checksum_verdict(stored: Seq<u8>, supplied: Option<Seq<char>>) -> Result<
    (),
    ValidationError,
> {
    match supplied {
        None => Err(ValidationError::MalformedChecksum),
        Some(text) => match decoded_hex(text) {
            None => Err(ValidationError::MalformedChecksum),
            Some(bytes) => if bytes == stored {
                Ok(())
            } else {
                Err(ValidationError::InvalidChecksum)
            },
        },
    }
}

/// The checks on the license alone, in their order: the license exists, it
/// has not expired, and, where the deployment verifies checksums, the
/// caller's checksum is the stored one.
pub open spec fn license_verdict(
    license: Option<LicenseView>,
    verify_checksum: bool,
    supplied: Option<Seq<char>>,
    now: DateTimePlus,
) -> Result<(), ValidationError> {
    match license {
        None => Err(ValidationError::InvalidKey),
        Some(l) => if expired(l.expires_at, now) {
            Err(ValidationError::ExpiredKey)
        } else if verify_checksum {
            checksum_verdict(l.checksum, supplied)
        } else {
            Ok(())
        },
    }
}

/// Checks the caller's checksum against the stored one, byte for byte.
pub fn check_checksum(stored: &[u8], supplied: Option<&str>) -> (r: Result<(), ValidationError>)
    ensures
        r == checksum_verdict(stored@, text_of(supplied)),
{
    match supplied {
        None => Err(ValidationError::MalformedChecksum),
        Some(text) => match decode_checksum(text) {
            Err(e) => Err(e),
            Ok(bytes) => if same_bytes(stored, bytes.as_slice()) {
                Ok(())
            } else {
                Err(ValidationError::InvalidChecksum)
            },
        },
    }
}

impl License {
    /// A copy of the license.
    pub fn duplicate(&self) -> (l: License)
        ensures
            l@ == self@,
    {
        let checksum = self.checksum.clone();
        assert(checksum@ =~= self.checksum@);
        License {
            id: self.id,
            key: self.key,
            comment: self.comment.clone(),
            ip_limit: self.ip_limit,
            checksum,
            expires_at: self.expires_at,
            created_at: self.created_at,
        }
    }

    /// Whether the license has expired at `now`.
    pub fn is_expired(&self, now: DateTimePlus) -> (b: bool)
        ensures
            b == expired(self.expires_at, now),
            self.expires_at.is_infinity() ==> !b,
    {
        self.expires_at.is_before(&now)
    }
}

/// Checks what the store has found for a key: `InvalidKey` where it found
/// no license, `ExpiredKey` where the license has expired, and then, where
/// checksums are verified, the checksum's own failures.
pub fn check_license(
    license: Option<&License>,
    verify_checksum: bool,
    supplied: Option<&str>,
    now: DateTimePlus,
) -> (r: Result<(), ValidationError>)
    ensures
        r == license_verdict(
            match license {
                Some(l) => Some(l@),
                None => None,
            },
            verify_checksum,
            text_of(supplied),
            now,
        ),
{
    match license {
        None => Err(ValidationError::InvalidKey),
        Some(l) => if l.is_expired(now) {
            Err(ValidationError::ExpiredKey)
        } else if verify_checksum {
            check_checksum(l.checksum.as_slice(), supplied)
        } else {
            Ok(())
        },
    }
}

} // verus!
