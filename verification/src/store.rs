//! A store in memory: the licenses and the activation ledger, with the
//! validation of a request against them as one step.

use crate::date::DateTimePlus;
use crate::engine::{steps_left, Action, Engine, Event, EventView, Phase};
use crate::error::ValidationError;
use crate::interleaving::{after_turn, System};
use crate::ledger::{
    addresses_of, admission, after_admission, lemma_addresses_insert, without_license, Ledger,
};
use crate::license::{license_verdict, License, LicenseView};
use crate::request::{parsed_key, request_of, text_of, PeerAddress, Request};
use vstd::prelude::*;

verus! {

/// Why a license could not be issued.
#[derive(Debug, Clone, Copy, PartialEq, Eq, Structural)]
pub enum IssueError {
    /// The activation limit is not positive.
    InvalidLimit,
    /// The store already holds a license with the key.
    DuplicateKey,
    /// The store has no identifier left to give.
    Exhausted,
}

/// The acknowledgement of a successful validation. It repeats what the
/// caller sent and tells nothing of the license.
#[derive(Debug, Clone, PartialEq, Eq)]
pub struct Admitted {
    /// The key text as the caller sent it.
    pub key: String,
    /// The checksum text as the caller sent it, if any.
    pub checksum: Option<String>,
    /// Whether this validation recorded a new activation.
    pub newly_activated: bool,
}

impl Admitted {
    /// The checksum text that the acknowledgement repeats.
    pub open spec fn echoed(&self) -> Option<Seq<char>> {
        match self.checksum {
            Some(text) => Some(text@),
            None => None,
        }
    }
}

/// The license that a store holds under a key, if any.
pub open spec fn license_at(licenses: Map<u128, LicenseView>, key: u128) -> Option<LicenseView> {
    if licenses.contains_key(key) {
        Some(licenses[key])
    } else {
        None
    }
}

/// The outcome of a validation against the licenses and the ledger as they
/// stand. The checks come in this order: the caller's address, the key's
/// format, the license's existence, its expiry, the checksum, and last the
/// admission. `Ok(true)` is a new activation, `Ok(false)` the repeated
/// validation of an address that was activated before.
pub open spec fn outcome(
    licenses: Map<u128, LicenseView>,
    ledger: Map<(u32, i32), DateTimePlus>,
    verify_checksum: bool,
    parsed: Option<u128>,
    checksum: Option<Seq<char>>,
    peer: Option<PeerAddress>,
    now: DateTimePlus,
) -> Result<bool, ValidationError> {
    match request_of(parsed, checksum, peer) {
        Err(e) => Err(e),
        Ok((key, address, supplied)) => {
            let license = license_at(licenses, key);
            match license_verdict(license, verify_checksum, supplied, now) {
                Err(e) => Err(e),
                Ok(()) => admission(ledger, address, license->0.id, license->0.ip_limit as int),
            }
        },
    }
}

/// The ledger after a validation: the caller's pair is added on a new
/// activation, and nothing changes on any other outcome.
pub open spec fn ledger_after(
    licenses: Map<u128, LicenseView>,
    ledger: Map<(u32, i32), DateTimePlus>,
    verify_checksum: bool,
    parsed: Option<u128>,
    checksum: Option<Seq<char>>,
    peer: Option<PeerAddress>,
    now: DateTimePlus,
) -> Map<(u32, i32), DateTimePlus> {
    match request_of(parsed, checksum, peer) {
        Ok((key, address, _)) => if outcome(
            licenses,
            ledger,
            verify_checksum,
            parsed,
            checksum,
            peer,
            now,
        ) == Ok::<bool, ValidationError>(true) {
            ledger.insert((address, licenses[key].id), now)
        } else {
            ledger
        },
        Err(_) => ledger,
    }
}

/// The limit of the license with an identifier, if the store holds such a
/// license.
pub open spec fn limit_by_id(licenses: Map<u128, LicenseView>, id: i32) -> Option<i32> {
    if exists|k: u128| licenses.contains_key(k) && (#[trigger] licenses[k]).id == id {
        let k = choose|k: u128| licenses.contains_key(k) && (#[trigger] licenses[k]).id == id;
        Some(licenses[k].ip_limit)
    } else {
        None
    }
}

/// What the store answers to one demand of an engine, and the ledger after
/// it. Every demand is served as one step. The lookup and the reading of
/// the ledger change nothing. The record is guarded by the store itself: it
/// is written only where the license still exists and still has a place for
/// the address, and is a conflict otherwise; a pair that is already there
/// counts as recorded and nothing is written. The end of a validation is no
/// demand on the store.
pub open spec fn served(
    licenses: Map<u128, LicenseView>,
    ledger: Map<(u32, i32), DateTimePlus>,
    action: Action,
    now: DateTimePlus,
) -> (Option<EventView>, Map<(u32, i32), DateTimePlus>) {
    match action {
        Action::FindLicense { key } => (
            Some(EventView::License(license_at(licenses, key))),
            ledger,
        ),
        Action::ReadLedger { license_id, address } => (
            Some(
                EventView::Ledger {
                    present: ledger.contains_key((address, license_id)),
                    count: addresses_of(ledger, license_id).len() as u64,
                },
            ),
            ledger,
        ),
        Action::Record { license_id, address } => match limit_by_id(licenses, license_id) {
            None => (Some(EventView::Conflict), ledger),
            Some(limit) => match admission(ledger, address, license_id, limit as int) {
                Ok(_) => (
                    Some(EventView::Recorded),
                    after_admission(ledger, address, license_id, limit as int, now),
                ),
                Err(_) => (Some(EventView::Conflict), ledger),
            },
        },
        Action::Finish(_) => (None, ledger),
    }
}

/// What a validation's result says: whether a new activation was recorded,
/// or why the request was turned down.
pub open spec fn verdict_of(r: Result<Admitted, ValidationError>) -> Result<
    bool,
    ValidationError,
> {
    match r {
        Ok(a) => Ok(a.newly_activated),
        Err(e) => Err(e),
    }
}

/// Whether a license can be issued, and the identifier that it gets: the
/// limit must be positive, the key new to the store, and an identifier left.
pub open spec fn issue_result(
    licenses: Map<u128, LicenseView>,
    next_id: int,
    key: u128,
    ip_limit: i32,
) -> Result<i32, IssueError> {
    if ip_limit < 1 {
        Err(IssueError::InvalidLimit)
    } else if licenses.contains_key(key) {
        Err(IssueError::DuplicateKey)
    } else if next_id >= 0x7fff_ffff {
        Err(IssueError::Exhausted)
    } else {
        Ok(next_id as i32)
    }
}

/// The licenses and the activation ledger.
pub struct Store {
    rows: Vec<License>,
    book: Ledger,
    next: i32,
}

impl Store {
    /// The licenses by their keys.
    pub closed spec fn licenses(&self) -> Map<u128, LicenseView> {
        Map::new(
            |k: u128|
                exists|i: int| 0 <= i < self.rows@.len() && (#[trigger] self.rows@[i]).key == k,
            |k: u128|
                self.rows@[choose|i: int|
                    0 <= i < self.rows@.len() && (#[trigger] self.rows@[i]).key == k]@,
        )
    }

    /// The ledger: the admitted pairs of address and license, each with the
    /// instant of its first admission.
    pub closed spec fn ledger(&self) -> Map<(u32, i32), DateTimePlus> {
        self.book@
    }

    /// The identifier that the next license gets.
    pub closed spec fn next_id(&self) -> int {
        self.next as int
    }

    /// Whether the store is valid: keys and identifiers are unique, every
    /// limit is positive, every pair of the ledger belongs to a license, and
    /// no license has more addresses than its limit allows.
    pub closed spec fn wf(&self) -> bool {
        &&& self.book.wf()
        &&& 1 <= self.next
        &&& forall|i: int, j: int|
            0 <= i < j < self.rows@.len() ==> (#[trigger] self.rows@[i]).key != (
            #[trigger] self.rows@[j]).key
        &&& forall|i: int, j: int|
            0 <= i < j < self.rows@.len() ==> (#[trigger] self.rows@[i]).id != (
            #[trigger] self.rows@[j]).id
        &&& forall|i: int|
            0 <= i < self.rows@.len() ==> 1 <= (#[trigger] self.rows@[i]).id < self.next && 1
                <= self.rows@[i].ip_limit
        &&& forall|p: (u32, i32)| #[trigger]
            self.book@.contains_key(p) ==> exists|i: int|
                0 <= i < self.rows@.len() && (#[trigger] self.rows@[i]).id == p.1
        &&& forall|i: int|
            0 <= i < self.rows@.len() ==> addresses_of(
                self.book@,
                (#[trigger] self.rows@[i]).id,
            ).len() <= self.rows@[i].ip_limit
    }

    /// In a valid store no license has more distinct addresses than its
    /// limit allows, every limit is positive, and no two licenses share an
    /// identifier.
    pub proof fn lemma_limits_hold(&self, key: u128)
        requires
            self.wf(),
            self.licenses().contains_key(key),
        ensures
            self.licenses()[key].key == key,
            1 <= self.licenses()[key].ip_limit,
            addresses_of(self.ledger(), self.licenses()[key].id).finite(),
            addresses_of(self.ledger(), self.licenses()[key].id).len()
                <= self.licenses()[key].ip_limit,
            forall|other: u128|
                self.licenses().contains_key(other) && other != key
                    ==> self.licenses()[other].id != self.licenses()[key].id,
    {
        let i = choose|i: int| 0 <= i < self.rows@.len() && (#[trigger] self.rows@[i]).key == key;
        self.book.lemma_finite(self.rows@[i].id);
        assert forall|other: u128|
            self.licenses().contains_key(other) && other != key implies self.licenses()[other].id
            != self.licenses()[key].id by {
            let j = choose|j: int|
                0 <= j < self.rows@.len() && (#[trigger] self.rows@[j]).key == other;
            assert(i != j);
        }
    }

    /// An empty store.
    pub fn new() -> (s: Store)
        ensures
            s.wf(),
            s.licenses() == Map::<u128, LicenseView>::empty(),
            s.ledger() == Map::<(u32, i32), DateTimePlus>::empty(),
            s.next_id() == 1,
    {
        let s = Store { rows: Vec::new(), book: Ledger::new(), next: 1 };
        assert(s.licenses() =~= Map::<u128, LicenseView>::empty());
        s
    }

    /// The license with the key, if the store holds one.
    pub fn find(&self, key: u128) -> (r: Option<&License>)
        requires
            self.wf(),
        ensures
            match r {
                Some(l) => license_at(self.licenses(), key) == Some(l@),
                None => license_at(self.licenses(), key) == None::<LicenseView>,
            },
    {
        let mut i: usize = 0;
        while i < self.rows.len()
            invariant
                i <= self.rows@.len(),
                self.wf(),
                forall|j: int| 0 <= j < i ==> (#[trigger] self.rows@[j]).key != key,
            decreases self.rows@.len() - i,
        {
            if self.rows[i].key == key {
                proof {
                    let j = choose|j: int|
                        0 <= j < self.rows@.len() && (#[trigger] self.rows@[j]).key == key;
                    assert(self.rows@[i as int].key == key);
                    assert(j == i);
                }
                return Some(&self.rows[i]);
            }
            i += 1;
        }
        None
    }

    /// Issues a license: the store gives it the next identifier and keeps
    /// it under its key. A limit that is not positive, a key that the store
    /// already holds and a store without identifiers are refused, in this
    /// order, and leave the store as it was.
    pub fn issue(
        &mut self,
        key: u128,
        comment: String,
        ip_limit: i32,
        checksum: Vec<u8>,
        expires_at: DateTimePlus,
        now: DateTimePlus,
    ) -> (r: Result<i32, IssueError>)
        requires
            old(self).wf(),
        ensures
            final(self).wf(),
            final(self).ledger() == old(self).ledger(),
            r == issue_result(old(self).licenses(), old(self).next_id(), key, ip_limit),
            match r {
                Ok(id) => {
                    &&& final(self).next_id() == id + 1
                    &&& final(self).licenses() == old(self).licenses().insert(
                        key,
                        LicenseView {
                            id,
                            key,
                            comment: comment@,
                            ip_limit,
                            checksum: checksum@,
                            expires_at,
                            created_at: now,
                        },
                    )
                    &&& addresses_of(final(self).ledger(), id) == Set::<u32>::empty()
                },
                Err(_) => {
                    &&& final(self).next_id() == old(self).next_id()
                    &&& final(self).licenses() == old(self).licenses()
                },
            },
    {
        if ip_limit < 1 {
            return Err(IssueError::InvalidLimit);
        }
        if self.find(key).is_some() {
            return Err(IssueError::DuplicateKey);
        }
        if self.next == i32::MAX {
            return Err(IssueError::Exhausted);
        }
        let id = self.next;
        let license = License { id, key, comment, ip_limit, checksum, expires_at, created_at: now };
        proof {
            let rows = self.rows@;
            assert forall|i: int| 0 <= i < rows.len() implies (#[trigger] rows[i]).key != key by {
                if rows[i].key == key {
                    assert(self.licenses().contains_key(key));
                }
            }
            assert(addresses_of(self.book@, id) =~= Set::<u32>::empty()) by {
                assert forall|a: u32| !self.book@.contains_key((a, id)) by {
                    if self.book@.contains_key((a, id)) {
                        let i = choose|i: int|
                            0 <= i < rows.len() && (#[trigger] rows[i]).id == (a, id).1;
                        assert(rows[i].id < self.next);
                    }
                }
            }
        }
        let ghost before = *self;
        self.rows.push(license);
        self.next = id + 1;
        proof {
            let rows = before.rows@;
            let grown = self.rows@;
            assert(grown[rows.len() as int] == license);
            assert forall|p: (u32, i32)| #[trigger] self.book@.contains_key(p) implies exists|
                i: int,
            |
                0 <= i < grown.len() && (#[trigger] grown[i]).id == p.1 by {
                let i = choose|i: int| 0 <= i < rows.len() && (#[trigger] rows[i]).id == p.1;
                assert(grown[i].id == p.1);
            }
            assert forall|k: u128| #[trigger]
                self.licenses().contains_key(k) <==> before.licenses().insert(
                    key,
                    license@,
                ).contains_key(k) by {
                if self.licenses().contains_key(k) {
                    let i = choose|i: int| 0 <= i < grown.len() && (#[trigger] grown[i]).key == k;
                    if i < rows.len() {
                        assert(rows[i].key == k);
                    }
                }
                if before.licenses().contains_key(k) {
                    let i = choose|i: int| 0 <= i < rows.len() && (#[trigger] rows[i]).key == k;
                    assert(grown[i].key == k);
                }
                if k == key {
                    assert(grown[rows.len() as int].key == k);
                }
            }
            assert forall|k: u128| #[trigger]
                self.licenses().contains_key(k) implies self.licenses()[k]
                == before.licenses().insert(key, license@)[k] by {
                let i = choose|i: int| 0 <= i < grown.len() && (#[trigger] grown[i]).key == k;
                if k == key {
                    assert(grown[rows.len() as int].key == k);
                    assert(i == rows.len());
                } else {
                    assert(i < rows.len());
                    assert(rows[i].key == k);
                    let j = choose|j: int| 0 <= j < rows.len() && (#[trigger] rows[j]).key == k;
                    assert(i == j);
                }
            }
            assert(self.licenses() =~= before.licenses().insert(key, license@));
        }
        Ok(id)
    }

    /// Validates a request against the store as it stands at `now`, and
    /// records the activation where the caller is newly admitted. The
    /// licenses are never changed, and the ledger only by that one pair.
    #[verifier::loop_isolation(false)]
    pub fn validate(
        &mut self,
        verify_checksum: bool,
        key: &str,
        checksum: Option<&str>,
        peer: Option<PeerAddress>,
        now: DateTimePlus,
    ) -> (r: Result<Admitted, ValidationError>)
        requires
            old(self).wf(),
        ensures
            final(self).wf(),
            final(self).licenses() == old(self).licenses(),
            final(self).next_id() == old(self).next_id(),
            verdict_of(r) == outcome(
                old(self).licenses(),
                old(self).ledger(),
                verify_checksum,
                parsed_key(key@),
                text_of(checksum),
                peer,
                now,
            ),
            final(self).ledger() == ledger_after(
                old(self).licenses(),
                old(self).ledger(),
                verify_checksum,
                parsed_key(key@),
                text_of(checksum),
                peer,
                now,
            ),
            r matches Ok(a) ==> a.key@ == key@ && a.echoed() == text_of(checksum),
    {
        let request = match Request::parse(key, checksum, peer) {
            Ok(request) => request,
            Err(e) => {
                return Err(e);
            },
        };
        let ghost licenses = self.licenses();
        let ghost ledger = self.ledger();
        let ghost license = license_at(licenses, request.key);
        let ghost supplied = request.supplied();
        let ghost caller = request.address;
        let ghost goal = outcome(
            licenses,
            ledger,
            verify_checksum,
            parsed_key(key@),
            text_of(checksum),
            peer,
            now,
        );
        let (mut engine, mut action) = Engine::start(request, verify_checksum, 0);
        loop
            invariant
                self.wf(),
                self.licenses() == licenses,
                self.next_id() == old(self).next_id(),
                license == license_at(licenses, engine.request.key),
                supplied == engine.request.supplied(),
                caller == engine.request.address,
                engine.verify_checksum == verify_checksum,
                engine.retries_left == 0,
                goal == match license_verdict(license, verify_checksum, supplied, now) {
                    Err(e) => Err::<bool, ValidationError>(e),
                    Ok(()) => admission(
                        ledger,
                        caller,
                        license->0.id,
                        license->0.ip_limit as int,
                    ),
                },
                match engine.phase {
                    Phase::AwaitingLicense => {
                        &&& self.ledger() == ledger
                        &&& action == (Action::FindLicense { key: engine.request.key })
                    },
                    Phase::AwaitingLedger { license_id, ip_limit } => {
                        &&& self.ledger() == ledger
                        &&& action == (Action::ReadLedger { license_id, address: caller })
                        &&& license is Some
                        &&& license->0.id == license_id
                        &&& license->0.ip_limit == ip_limit
                        &&& license_verdict(license, verify_checksum, supplied, now) is Ok
                    },
                    Phase::AwaitingRecord => {
                        &&& self.ledger() == ledger
                        &&& license is Some
                        &&& action == (Action::Record {
                            license_id: license->0.id,
                            address: caller,
                        })
                        &&& goal == Ok::<bool, ValidationError>(true)
                    },
                    Phase::Finished(result) => {
                        &&& action == Action::Finish(result)
                        &&& result == goal
                        &&& self.ledger() == if goal == Ok::<bool, ValidationError>(true) {
                            ledger.insert((caller, license->0.id), now)
                        } else {
                            ledger
                        }
                    },
                },
            decreases steps_left(engine.phase),
        {
            let event = match action {
                Action::Finish(result) => {
                    return match result {
                        Ok(newly_activated) => Ok(
                            Admitted {
                                key: key.to_owned(),
                                checksum: match checksum {
                                    Some(text) => Some(text.to_owned()),
                                    None => None,
                                },
                                newly_activated,
                            },
                        ),
                        Err(e) => Err(e),
                    };
                },
                Action::FindLicense { key } => Event::License(
                    match self.find(key) {
                        Some(l) => Some(l.duplicate()),
                        None => None,
                    },
                ),
                Action::ReadLedger { license_id, address } => {
                    let present = self.book.contains(address, license_id);
                    let count = self.book.count(license_id);
                    Event::Ledger { present, count: count as u64 }
                },
                Action::Record { license_id, address } => {
                    let ghost before = *self;
                    self.book.record(address, license_id, now);
                    proof {
                        let rows = self.rows@;
                        let held = choose|i: int|
                            0 <= i < rows.len() && (#[trigger] rows[i]).key == engine.request.key;
                        assert(rows[held].id == license_id);
                        before.book.lemma_finite(license_id);
                        assert forall|p: (u32, i32)| #[trigger]
                            self.book@.contains_key(p) implies exists|i: int|
                            0 <= i < rows.len() && (#[trigger] rows[i]).id == p.1 by {
                            if p == (address, license_id) {
                                assert(rows[held].id == p.1);
                            } else {
                                assert(before.book@.contains_key(p));
                            }
                        }
                        assert forall|i: int| 0 <= i < rows.len() implies addresses_of(
                            self.book@,
                            (#[trigger] rows[i]).id,
                        ).len() <= rows[i].ip_limit by {
                            lemma_addresses_insert(
                                before.book@,
                                address,
                                license_id,
                                now,
                                rows[i].id,
                            );
                            if rows[i].id == license_id {
                                assert(i == held);
                            }
                        }
                    }
                    Event::Recorded
                },
            };
            action = engine.step(event, now);
        }
    }

    /// The position of the license with the identifier, if there is one.
    fn position_of(&self, id: i32) -> (r: Option<usize>)
        requires
            self.wf(),
        ensures
            match r {
                Some(i) => i < self.rows@.len() && self.rows@[i as int].id == id && limit_by_id(
                    self.licenses(),
                    id,
                ) == Some(self.rows@[i as int].ip_limit),
                None => limit_by_id(self.licenses(), id) == None::<i32>,
            },
    {
        let mut i: usize = 0;
        while i < self.rows.len() && self.rows[i].id != id
            invariant
                i <= self.rows@.len(),
                forall|j: int| 0 <= j < i ==> (#[trigger] self.rows@[j]).id != id,
            decreases self.rows@.len() - i,
        {
            i += 1;
        }
        let ghost rows = self.rows@;
        proof {
            assert forall|k: u128| #[trigger] self.licenses().contains_key(k) implies exists|
                j: int,
            |
                0 <= j < rows.len() && (#[trigger] rows[j]).key == k && self.licenses()[k]
                    == rows[j]@ by {
                let j = choose|j: int| 0 <= j < rows.len() && (#[trigger] rows[j]).key == k;
                assert(rows[j].key == k);
            }
        }
        if i < self.rows.len() {
            proof {
                let key = rows[i as int].key;
                assert(self.licenses().contains_key(key));
                let j = choose|j: int| 0 <= j < rows.len() && (#[trigger] rows[j]).key == key;
                assert(j == i);
                assert(self.licenses()[key].id == id);
                let k = choose|k: u128|
                    self.licenses().contains_key(k) && (#[trigger] self.licenses()[k]).id == id;
                let m = choose|m: int| 0 <= m < rows.len() && (#[trigger] rows[m]).key == k;
                assert(rows[m].id == id);
                assert(m == i);
            }
            Some(i)
        } else {
            proof {
                if exists|k: u128|
                    self.licenses().contains_key(k) && (#[trigger] self.licenses()[k]).id == id {
                    let k = choose|k: u128|
                        self.licenses().contains_key(k) && (#[trigger] self.licenses()[k]).id
                            == id;
                    let m = choose|m: int| 0 <= m < rows.len() && (#[trigger] rows[m]).key == k;
                    assert(rows[m].id == id);
                }
            }
            None
        }
    }

    /// Serves one demand of an engine as one step, so that the engines of
    /// many callers can take their turns in any order. The store guards the
    /// record itself: whatever an engine has read before, no license gets
    /// more addresses than its limit allows.
    pub fn serve(&mut self, action: Action, now: DateTimePlus) -> (r: Option<Event>)
        requires
            old(self).wf(),
        ensures
            final(self).wf(),
            final(self).licenses() == old(self).licenses(),
            final(self).next_id() == old(self).next_id(),
            match r {
                Some(event) => Some(event@),
                None => None,
            } == served(old(self).licenses(), old(self).ledger(), action, now).0,
            final(self).ledger() == served(old(self).licenses(), old(self).ledger(), action, now).1,
    {
        match action {
            Action::FindLicense { key } => Some(
                Event::License(
                    match self.find(key) {
                        Some(l) => Some(l.duplicate()),
                        None => None,
                    },
                ),
            ),
            Action::ReadLedger { license_id, address } => {
                let present = self.book.contains(address, license_id);
                let count = self.book.count(license_id);
                Some(Event::Ledger { present, count: count as u64 })
            },
            Action::Record { license_id, address } => {
                let at = match self.position_of(license_id) {
                    Some(at) => at,
                    None => {
                        return Some(Event::Conflict);
                    },
                };
                let ip_limit = self.rows[at].ip_limit;
                let ghost before = *self;
                let outcome = self.book.activate(address, license_id, ip_limit, now);
                proof {
                    let rows = self.rows@;
                    before.book.lemma_finite(license_id);
                    assert forall|p: (u32, i32)| #[trigger]
                        self.book@.contains_key(p) implies exists|i: int|
                        0 <= i < rows.len() && (#[trigger] rows[i]).id == p.1 by {
                        if p == (address, license_id) {
                            assert(rows[at as int].id == p.1);
                        } else {
                            assert(before.book@.contains_key(p));
                        }
                    }
                    assert forall|i: int| 0 <= i < rows.len() implies addresses_of(
                        self.book@,
                        (#[trigger] rows[i]).id,
                    ).len() <= rows[i].ip_limit by {
                        lemma_addresses_insert(
                            before.book@,
                            address,
                            license_id,
                            now,
                            rows[i].id,
                        );
                        if rows[i].id == license_id {
                            assert(i == at);
                        }
                    }
                }
                match outcome {
                    Ok(_) => Some(Event::Recorded),
                    Err(_) => Some(Event::Conflict),
                }
            },
            Action::Finish(_) => None,
        }
    }

    /// Lets one caller take its turn: the store serves the demand that the
    /// caller's engine has made, and the engine takes the answer and makes
    /// its next demand. A caller that has finished keeps its outcome.
    pub fn take_turn(&mut self, engine: &mut Engine, action: Action, now: DateTimePlus) -> (next:
        Action)
        requires
            old(self).wf(),
        ensures
            final(self).wf(),
            final(self).licenses() == old(self).licenses(),
            final(self).next_id() == old(self).next_id(),
            ({
                let before = System {
                    ledger: old(self).ledger(),
                    callers: seq![(*old(engine), action)],
                };
                let after = after_turn(old(self).licenses(), before, 0, now);
                &&& final(self).ledger() == after.ledger
                &&& (*final(engine), next) == after.callers[0]
            }),
    {
        match self.serve(action, now) {
            Some(event) => engine.step(event, now),
            None => action,
        }
    }

    /// Validates a request at the instant that the system clock shows.
    /// Whatever the clock says, the outcome and the ledger are those of a
    /// validation at one instant.
    pub fn validate_now(
        &mut self,
        verify_checksum: bool,
        key: &str,
        checksum: Option<&str>,
        peer: Option<PeerAddress>,
    ) -> (r: Result<Admitted, ValidationError>)
        requires
            old(self).wf(),
        ensures
            final(self).wf(),
            final(self).licenses() == old(self).licenses(),
            final(self).next_id() == old(self).next_id(),
            exists|now: DateTimePlus|
                {
                    &&& verdict_of(r) == #[trigger] outcome(
                        old(self).licenses(),
                        old(self).ledger(),
                        verify_checksum,
                        parsed_key(key@),
                        text_of(checksum),
                        peer,
                        now,
                    )
                    &&& final(self).ledger() == ledger_after(
                        old(self).licenses(),
                        old(self).ledger(),
                        verify_checksum,
                        parsed_key(key@),
                        text_of(checksum),
                        peer,
                        now,
                    )
                },
            r matches Ok(a) ==> a.key@ == key@ && a.echoed() == text_of(checksum),
    {
        let now = DateTimePlus::now();
        self.validate(verify_checksum, key, checksum, peer, now)
    }

    /// Revokes the license with the key, and with it every activation of
    /// that license. Says whether there was such a license.
    pub fn revoke(&mut self, key: u128) -> (r: bool)
        requires
            old(self).wf(),
        ensures
            final(self).wf(),
            r == old(self).licenses().contains_key(key),
            final(self).licenses() == old(self).licenses().remove(key),
            final(self).ledger() == if r {
                without_license(old(self).ledger(), old(self).licenses()[key].id)
            } else {
                old(self).ledger()
            },
            final(self).next_id() == old(self).next_id(),
    {
        let mut i: usize = 0;
        while i < self.rows.len() && self.rows[i].key != key
            invariant
                i <= self.rows@.len(),
                forall|j: int| 0 <= j < i ==> (#[trigger] self.rows@[j]).key != key,
            decreases self.rows@.len() - i,
        {
            i += 1;
        }
        if i >= self.rows.len() {
            assert(self.licenses().remove(key) =~= self.licenses());
            return false;
        }
        let ghost before = *self;
        let ghost rows = self.rows@;
        let id = self.rows[i].id;
        proof {
            let j = choose|j: int| 0 <= j < rows.len() && (#[trigger] rows[j]).key == key;
            assert(rows[i as int].key == key);
            assert(j == i);
        }
        self.rows.remove(i);
        self.book.forget(id);
        proof {
            let left = self.rows@;
            assert(left.len() == rows.len() - 1);
            assert forall|j: int| 0 <= j < left.len() implies #[trigger] left[j] == rows[if j
                < i {
                j
            } else {
                j + 1
            }] by {}
            assert forall|a: int, b: int| 0 <= a < b < left.len() implies (#[trigger] left[a]).key
                != (#[trigger] left[b]).key && left[a].id != left[b].id by {
                let x = if a < i { a } else { a + 1 };
                let y = if b < i { b } else { b + 1 };
                assert(left[a] == rows[x]);
                assert(left[b] == rows[y]);
            }
            assert forall|j: int| 0 <= j < left.len() implies 1 <= (#[trigger] left[j]).id
                < self.next && 1 <= left[j].ip_limit && left[j].id != id && addresses_of(
                self.book@,
                left[j].id,
            ).len() <= left[j].ip_limit by {
                let x = if j < i { j } else { j + 1 };
                assert(left[j] == rows[x]);
                assert(rows[x].id != rows[i as int].id);
                assert(addresses_of(self.book@, left[j].id) =~= addresses_of(
                    before.book@,
                    rows[x].id,
                ));
            }
            assert forall|p: (u32, i32)| #[trigger] self.book@.contains_key(p) implies exists|
                j: int,
            |
                0 <= j < left.len() && (#[trigger] left[j]).id == p.1 by {
                assert(before.book@.contains_key(p));
                let x = choose|x: int| 0 <= x < rows.len() && (#[trigger] rows[x]).id == p.1;
                assert(x != i);
                let j = if x < i { x } else { x - 1 };
                assert(left[j] == rows[x]);
            }
            assert forall|k: u128| #[trigger]
                self.licenses().contains_key(k) <==> before.licenses().remove(key).contains_key(
                    k,
                ) by {
                if self.licenses().contains_key(k) {
                    let j = choose|j: int| 0 <= j < left.len() && (#[trigger] left[j]).key == k;
                    let x = if j < i { j } else { j + 1 };
                    assert(rows[x].key == k);
                    assert(x != i);
                }
                if before.licenses().remove(key).contains_key(k) {
                    let x = choose|x: int| 0 <= x < rows.len() && (#[trigger] rows[x]).key == k;
                    assert(x != i);
                    let j = if x < i { x } else { x - 1 };
                    assert(left[j].key == k);
                }
            }
            assert forall|k: u128| #[trigger]
                self.licenses().contains_key(k) implies self.licenses()[k]
                == before.licenses().remove(key)[k] by {
                let j = choose|j: int| 0 <= j < left.len() && (#[trigger] left[j]).key == k;
                let x = if j < i { j } else { j + 1 };
                assert(left[j] == rows[x]);
                let y = choose|y: int| 0 <= y < rows.len() && (#[trigger] rows[y]).key == k;
                assert(rows[x].key == k);
                assert(x == y);
            }
            assert(self.licenses() =~= before.licenses().remove(key));
        }
        true
    }

    /// Whether the address has been admitted for the license.
    pub fn is_activated(&self, address: u32, license_id: i32) -> (b: bool)
        ensures
            b == self.ledger().contains_key((address, license_id)),
    {
        self.book.contains(address, license_id)
    }

    /// The number of distinct addresses admitted for the license.
    pub fn activations(&self, license_id: i32) -> (n: usize)
        requires
            self.wf(),
        ensures
            n == addresses_of(self.ledger(), license_id).len(),
    {
        self.book.count(license_id)
    }
}

} // verus!
