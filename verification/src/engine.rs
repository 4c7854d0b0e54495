//! The validation engine: the decisions of one validation, as a machine
//! that asks the store for one thing at a time and is told what came back.
//!
//! Everything that the engine asks for between `FindLicense` and `Finish`
//! belongs to one serializable transaction of the store. `Record` stands for
//! the insert together with the commit, and the store guards it: a store
//! that cannot serialize the transaction, or whose license has no place
//! left by then, answers `Conflict` instead, and the engine starts over.

use crate::date::DateTimePlus;
use crate::error::ValidationError;
use crate::ledger::{admission_by_count, decide_admission};
use crate::license::{check_license, license_verdict, License, LicenseView};
use crate::request::Request;
use vstd::prelude::*;

verus! {

/// What the engine waits for.
#[derive(Debug, Clone, Copy, PartialEq, Eq)]
pub enum Phase {
    /// The store is looking the license up.
    AwaitingLicense,
    /// The store is reading the ledger for the license.
    AwaitingLedger { license_id: i32, ip_limit: i32 },
    /// The store is recording the activation.
    AwaitingRecord,
    /// The validation has ended with this outcome: `Ok(true)` for a new
    /// activation, `Ok(false)` for an address that was already activated.
    Finished(Result<bool, ValidationError>),
}

/// What the engine asks of the store, or the outcome.
#[derive(Debug, Clone, Copy, PartialEq, Eq)]
pub enum Action {
    /// Begin a serializable transaction and look the license up by its key.
    FindLicense { key: u128 },
    /// Say whether the address is recorded for the license, and how many
    /// distinct addresses are.
    ReadLedger { license_id: i32, address: u32 },
    /// Record the address for the license, if the license still has a place
    /// for it, and commit. Nothing is written where the pair is recorded
    /// already.
    Record { license_id: i32, address: u32 },
    /// End the transaction and answer the caller.
    Finish(Result<bool, ValidationError>),
}

/// What the store answers.
#[derive(Debug, Clone, PartialEq, Eq)]
pub enum Event {
    /// The license with the key, if there is one.
    License(Option<License>),
    /// Whether the address is recorded, and the number of distinct addresses
    /// recorded for the license.
    Ledger { present: bool, count: u64 },
    /// The activation is recorded and the transaction committed.
    Recorded,
    /// The transaction could not be serialized and was rolled back.
    Conflict,
    /// The store could not be reached, or a query failed.
    Failed,
}

/// An answer of the store as a mathematical value.
pub enum EventView {
    License(Option<LicenseView>),
    Ledger { present: bool, count: u64 },
    Recorded,
    Conflict,
    Failed,
}

impl View for Event {
    type V = EventView;

    open spec fn view(&self) -> EventView {
        match self {
            Event::License(Some(l)) => EventView::License(Some(l@)),
            Event::License(None) => EventView::License(None),
            Event::Ledger { present, count } => EventView::Ledger {
                present: *present,
                count: *count,
            },
            Event::Recorded => EventView::Recorded,
            Event::Conflict => EventView::Conflict,
            Event::Failed => EventView::Failed,
        }
    }
}

/// The engine of one validation.
#[derive(Debug, Clone, PartialEq, Eq)]
pub struct Engine {
    /// The request that is being validated.
    pub request: Request,
    /// Whether this deployment verifies checksums.
    pub verify_checksum: bool,
    /// How many more times a transaction that could not be serialized is
    /// started over.
    pub retries_left: u32,
    /// What the engine waits for.
    pub phase: Phase,
}

/// The engine's phase, retries and action after an answer of the store.
///
/// An engine that has finished repeats its outcome. A conflict starts the
/// transaction over while a retry is left, and is a store failure after
/// that. The license that was asked for is checked, and the ledger is read
/// only for a license that passes. What the ledger says decides on the
/// admission: a known address is admitted without a write, a new address
/// at the limit is refused, and a new address below it is recorded, which
/// ends the validation with a new activation. A failure of the store, and
/// any answer that was not asked for, ends it with `DatabaseError`.
pub open spec fn transition(
    phase: Phase,
    retries_left: u32,
    request: Request,
    verify_checksum: bool,
    event: EventView,
    now: DateTimePlus,
) -> (Phase, u32, Action) {
    let failed = Err::<bool, ValidationError>(ValidationError::DatabaseError);
    match (phase, event) {
        (Phase::Finished(outcome), _) => (phase, retries_left, Action::Finish(outcome)),
        (_, EventView::Conflict) => if retries_left > 0 {
            (
                Phase::AwaitingLicense,
                (retries_left - 1) as u32,
                Action::FindLicense { key: request.key },
            )
        } else {
            (Phase::Finished(failed), retries_left, Action::Finish(failed))
        },
        (Phase::AwaitingLicense, EventView::License(license)) => match license_verdict(
            license,
            verify_checksum,
            request.supplied(),
            now,
        ) {
            Err(e) => (Phase::Finished(Err(e)), retries_left, Action::Finish(Err(e))),
            Ok(()) => (
                Phase::AwaitingLedger {
                    license_id: license->0.id,
                    ip_limit: license->0.ip_limit,
                },
                retries_left,
                Action::ReadLedger { license_id: license->0.id, address: request.address },
            ),
        },
        (
            Phase::AwaitingLedger { license_id, ip_limit },
            EventView::Ledger { present, count },
        ) => match admission_by_count(present, count as int, ip_limit as int) {
            Ok(true) => (
                Phase::AwaitingRecord,
                retries_left,
                Action::Record { license_id, address: request.address },
            ),
            outcome => (Phase::Finished(outcome), retries_left, Action::Finish(outcome)),
        },
        (Phase::AwaitingRecord, EventView::Recorded) => (
            Phase::Finished(Ok(true)),
            retries_left,
            Action::Finish(Ok(true)),
        ),
        _ => (Phase::Finished(failed), retries_left, Action::Finish(failed)),
    }
}

/// How many answers of the store a validation without retries still needs.
pub open spec fn steps_left(phase: Phase) -> nat {
    match phase {
        Phase::AwaitingLicense => 3,
        Phase::AwaitingLedger { .. } => 2,
        Phase::AwaitingRecord => 1,
        Phase::Finished(_) => 0,
    }
}

impl Engine {
    /// Starts the validation of a request: the engine waits for the license,
    /// and its first demand is to look the license up.
    pub fn start(request: Request, verify_checksum: bool, retries: u32) -> (r: (Engine, Action))
        ensures
            r.0.request == request,
            r.0.verify_checksum == verify_checksum,
            r.0.retries_left == retries,
            r.0.phase == Phase::AwaitingLicense,
            r.1 == (Action::FindLicense { key: request.key }),
    {
        let action = Action::FindLicense { key: request.key };
        let engine = Engine {
            request,
            verify_checksum,
            retries_left: retries,
            phase: Phase::AwaitingLicense,
        };
        (engine, action)
    }

    /// Takes an answer of the store and says what to do next. `now` is the
    /// current instant, against which the license's expiry is held.
    pub fn step(&mut self, event: Event, now: DateTimePlus) -> (action: Action)
        ensures
            final(self).request == old(self).request,
            final(self).verify_checksum == old(self).verify_checksum,
            (final(self).phase, final(self).retries_left, action) == transition(
                old(self).phase,
                old(self).retries_left,
                old(self).request,
                old(self).verify_checksum,
                event@,
                now,
            ),
    {
        let failed: Result<bool, ValidationError> = Err(ValidationError::DatabaseError);
        if let Phase::Finished(outcome) = self.phase {
            return Action::Finish(outcome);
        }
        let outcome: Result<bool, ValidationError> = match event {
            Event::Conflict => {
                if self.retries_left > 0 {
                    self.retries_left = self.retries_left - 1;
                    self.phase = Phase::AwaitingLicense;
                    return Action::FindLicense { key: self.request.key };
                }
                failed
            },
            Event::License(license) => {
                if let Phase::AwaitingLicense = self.phase {
                    let supplied: Option<&str> = match &self.request.checksum {
                        Some(text) => Some(text.as_str()),
                        None => None,
                    };
                    match check_license(license.as_ref(), self.verify_checksum, supplied, now) {
                        Err(e) => Err(e),
                        Ok(()) => {
                            let l = license.unwrap();
                            self.phase = Phase::AwaitingLedger {
                                license_id: l.id,
                                ip_limit: l.ip_limit,
                            };
                            return Action::ReadLedger {
                                license_id: l.id,
                                address: self.request.address,
                            };
                        },
                    }
                } else {
                    failed
                }
            },
            Event::Ledger { present, count } => {
                if let Phase::AwaitingLedger { license_id, ip_limit } = self.phase {
                    match decide_admission(present, count, ip_limit) {
                        Ok(true) => {
                            self.phase = Phase::AwaitingRecord;
                            return Action::Record { license_id, address: self.request.address };
                        },
                        other => other,
                    }
                } else {
                    failed
                }
            },
            Event::Recorded => {
                if let Phase::AwaitingRecord = self.phase {
                    Ok(true)
                } else {
                    failed
                }
            },
            Event::Failed => failed,
        };
        self.phase = Phase::Finished(outcome);
        Action::Finish(outcome)
    }
}

} // verus!
