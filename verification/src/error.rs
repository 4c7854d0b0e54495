//! The failure kinds of a validation request and what the transport layer
//! reports for each of them.

use vstd::prelude::*;

verus! {

/// Why a validation request was turned down.
#[derive(Debug, Clone, Copy, PartialEq, Eq, Structural)]
pub enum ValidationError {
    /// The transport layer could not tell the caller's address.
    IPAddressNotFound,
    /// The caller's address is not an IPv4 address.
    BadIPVersion,
    /// The key string is not in the canonical key format.
    MalformedKey,
    /// No license carries the key.
    InvalidKey,
    /// The store could not be reached or a query failed.
    DatabaseError,
    /// Admitting the caller would exceed the key's activation limit.
    ReachedActivationLimit,
    /// The checksum string is not a hex encoding.
    MalformedChecksum,
    /// The decoded checksum differs from the stored one.
    InvalidChecksum,
    /// The key's expiry instant lies in the past.
    ExpiredKey,
}

/// How the transport layer classifies a failure.
#[derive(Debug, Clone, Copy, PartialEq, Eq, Structural)]
pub enum ErrorClass {
    /// The request itself was malformed or incomplete.
    ClientInput,
    /// A well-formed request was turned down by a business rule.
    Denial,
    /// The store failed; the only class a caller may retry.
    Server,
}

/// The body that the transport layer sends for a failure.
#[derive(Debug, Clone, PartialEq, Eq)]
pub struct ErrorResponse {
    /// The status code, repeated in the body.
    pub code: u16,
    /// The failure's name.
    pub error: String,
    /// The sentence shown to the caller.
    pub message: String,
}

impl ValidationError {
    /// The identifier under which the failure is reported.
    pub open spec fn name_text(self) -> Seq<char> {
        match self {
            ValidationError::IPAddressNotFound => "IPAddressNotFound"@,
            ValidationError::BadIPVersion => "BadIPVersion"@,
            ValidationError::MalformedKey => "MalformedKey"@,
            ValidationError::InvalidKey => "InvalidKey"@,
            ValidationError::DatabaseError => "DatabaseError"@,
            ValidationError::ReachedActivationLimit => "ReachedActivationLimit"@,
            ValidationError::MalformedChecksum => "MalformedChecksum"@,
            ValidationError::InvalidChecksum => "InvalidChecksum"@,
            ValidationError::ExpiredKey => "ExpiredKey"@,
        }
    }

    /// The sentence that explains the failure to the caller.
    pub open spec fn message_text(self) -> Seq<char> {
        match self {
            ValidationError::IPAddressNotFound => "You need an IP address to validate"@,
            ValidationError::BadIPVersion => "IPv4 must be used to validate"@,
            ValidationError::MalformedKey => "License key format is not correct"@,
            ValidationError::InvalidKey => "License key is invalid"@,
            ValidationError::DatabaseError => "Internal database error, try again later"@,
            ValidationError::ReachedActivationLimit =>
                "License key has already reached the maximum allowed number of activations"@,
            ValidationError::MalformedChecksum => "License checksum format is not correct"@,
            ValidationError::InvalidChecksum => "License checksum is invalid"@,
            ValidationError::ExpiredKey => "License key has expired"@,
        }
    }

    /// The class of the failure: bad input, a denial, or a store failure.
    pub open spec fn class_of(self) -> ErrorClass {
        match self {
            ValidationError::IPAddressNotFound
            | ValidationError::BadIPVersion
            | ValidationError::MalformedKey
            | ValidationError::MalformedChecksum => ErrorClass::ClientInput,
            ValidationError::InvalidKey
            | ValidationError::ExpiredKey
            | ValidationError::InvalidChecksum
            | ValidationError::ReachedActivationLimit => ErrorClass::Denial,
            ValidationError::DatabaseError => ErrorClass::Server,
        }
    }

    /// The failure's name, as it appears in the response body.
    pub fn name(&self) -> (s: String)
        ensures
            s@ == self.name_text(),
    {
        match self {
            ValidationError::IPAddressNotFound => "IPAddressNotFound",
            ValidationError::BadIPVersion => "BadIPVersion",
            ValidationError::MalformedKey => "MalformedKey",
            ValidationError::InvalidKey => "InvalidKey",
            ValidationError::DatabaseError => "DatabaseError",
            ValidationError::ReachedActivationLimit => "ReachedActivationLimit",
            ValidationError::MalformedChecksum => "MalformedChecksum",
            ValidationError::InvalidChecksum => "InvalidChecksum",
            ValidationError::ExpiredKey => "ExpiredKey",
        }.to_owned()
    }

    /// The sentence shown to the caller.
    pub fn message(&self) -> (s: String)
        ensures
            s@ == self.message_text(),
    {
        match self {
            ValidationError::IPAddressNotFound => "You need an IP address to validate",
            ValidationError::BadIPVersion => "IPv4 must be used to validate",
            ValidationError::MalformedKey => "License key format is not correct",
            ValidationError::InvalidKey => "License key is invalid",
            ValidationError::DatabaseError => "Internal database error, try again later",
            ValidationError::ReachedActivationLimit =>
                "License key has already reached the maximum allowed number of activations",
            ValidationError::MalformedChecksum => "License checksum format is not correct",
            ValidationError::InvalidChecksum => "License checksum is invalid",
            ValidationError::ExpiredKey => "License key has expired",
        }.to_owned()
    }

    /// The failure's class.
    pub fn class(&self) -> (c: ErrorClass)
        ensures
            c == self.class_of(),
    {
        match self {
            ValidationError::IPAddressNotFound => ErrorClass::ClientInput,
            ValidationError::BadIPVersion => ErrorClass::ClientInput,
            ValidationError::MalformedKey => ErrorClass::ClientInput,
            ValidationError::MalformedChecksum => ErrorClass::ClientInput,
            ValidationError::InvalidKey => ErrorClass::Denial,
            ValidationError::ExpiredKey => ErrorClass::Denial,
            ValidationError::InvalidChecksum => ErrorClass::Denial,
            ValidationError::ReachedActivationLimit => ErrorClass::Denial,
            ValidationError::DatabaseError => ErrorClass::Server,
        }
    }

    /// Whether a caller may reasonably send the same request again: only a
    /// store failure is transient.
    pub fn is_retryable(&self) -> (b: bool)
        ensures
            b <==> *self == ValidationError::DatabaseError,
            b <==> self.class_of() == ErrorClass::Server,
    {
        matches!(self, ValidationError::DatabaseError)
    }

    /// The HTTP status code of the failure: 400 for bad input, 403 for a
    /// denial, 500 for a store failure.
    pub fn status_code(&self) -> (code: u16)
        ensures
            code == self.class_of().status(),
    {
        self.class().status_code()
    }

    /// The response body for the failure: its status code, name and message.
    pub fn error_response(&self) -> (r: ErrorResponse)
        ensures
            r.code == self.class_of().status(),
            r.error@ == self.name_text(),
            r.message@ == self.message_text(),
    {
        ErrorResponse { code: self.status_code(), error: self.name(), message: self.message() }
    }
}

impl ErrorClass {
    /// The HTTP status code that stands for the class.
    pub open spec fn status(self) -> u16 {
        match self {
            ErrorClass::ClientInput => 400,
            ErrorClass::Denial => 403,
            ErrorClass::Server => 500,
        }
    }

    /// The HTTP status code that stands for the class.
    pub fn status_code(&self) -> (code: u16)
        ensures
            code == self.status(),
    {
        match self {
            ErrorClass::ClientInput => 400,
            ErrorClass::Denial => 403,
            ErrorClass::Server => 500,
        }
    }
}

} // verus!
