use licenseptium::date::DateTimePlus;
use licenseptium::engine::{Action, Engine, Event, Phase};
use licenseptium::request::Request;
use licenseptium::error::ValidationError;
use licenseptium::license::License;

const NOW: DateTimePlus = DateTimePlus(1_000_000);

fn request() -> Request {
    Request { key: 77, address: 0x0102_0304, checksum: Some("c0ffee".to_owned()) }
}

fn license(ip_limit: i32, expires_at: i64) -> License {
    License {
        id: 12,
        key: 77,
        comment: "owner".to_owned(),
        ip_limit,
        checksum: vec![0xc0, 0xff, 0xee],
        expires_at: DateTimePlus(expires_at),
        created_at: DateTimePlus(0),
    }
}

fn started(retries: u32) -> Engine {
    let (engine, action) = Engine::start(request(), true, retries);
    assert_eq!(action, Action::FindLicense { key: 77 });
    assert_eq!(engine.phase, Phase::AwaitingLicense);
    assert_eq!(engine.retries_left, retries);
    assert!(engine.verify_checksum);
    assert_eq!(engine.request, request());
    engine
}

#[test]
fn a_new_address_below_the_limit_is_recorded() {
    let mut engine = started(0);
    let action = engine.step(Event::License(Some(license(2, 2_000_000))), NOW);
    assert_eq!(action, Action::ReadLedger { license_id: 12, address: 0x0102_0304 });
    assert_eq!(engine.phase, Phase::AwaitingLedger { license_id: 12, ip_limit: 2 });
    let action = engine.step(Event::Ledger { present: false, count: 1 }, NOW);
    assert_eq!(action, Action::Record { license_id: 12, address: 0x0102_0304 });
    assert_eq!(engine.phase, Phase::AwaitingRecord);
    let action = engine.step(Event::Recorded, NOW);
    assert_eq!(action, Action::Finish(Ok(true)));
    assert_eq!(engine.phase, Phase::Finished(Ok(true)));
}

#[test]
fn a_known_address_is_admitted_without_a_write() {
    let mut engine = started(0);
    engine.step(Event::License(Some(license(1, 2_000_000))), NOW);
    let action = engine.step(Event::Ledger { present: true, count: 1 }, NOW);
    assert_eq!(action, Action::Finish(Ok(false)));
    let mut engine = started(0);
    engine.step(Event::License(Some(license(1, 2_000_000))), NOW);
    let action = engine.step(Event::Ledger { present: true, count: 50 }, NOW);
    assert_eq!(action, Action::Finish(Ok(false)));
}

#[test]
fn a_new_address_at_the_limit_is_refused() {
    for (limit, count) in [(1, 1), (2, 2), (2, 3), (0, 0), (-1, 0), (i32::MAX, u64::MAX)] {
        let mut engine = started(0);
        engine.step(Event::License(Some(license(limit, 2_000_000))), NOW);
        let action = engine.step(Event::Ledger { present: false, count }, NOW);
        assert_eq!(
            action,
            Action::Finish(Err(ValidationError::ReachedActivationLimit))
        );
    }
    let mut engine = started(0);
    engine.step(Event::License(Some(license(i32::MAX, 2_000_000))), NOW);
    let action = engine.step(Event::Ledger { present: false, count: i32::MAX as u64 - 1 }, NOW);
    assert_eq!(action, Action::Record { license_id: 12, address: 0x0102_0304 });
}

#[test]
fn the_license_is_checked_before_the_ledger_is_read() {
    let mut engine = started(0);
    assert_eq!(
        engine.step(Event::License(None), NOW),
        Action::Finish(Err(ValidationError::InvalidKey))
    );
    let mut engine = started(0);
    assert_eq!(
        engine.step(Event::License(Some(license(1, 999_999))), NOW),
        Action::Finish(Err(ValidationError::ExpiredKey))
    );
    let mut engine = started(0);
    assert_eq!(
        engine.step(Event::License(Some(license(1, 1_000_000))), NOW),
        Action::ReadLedger { license_id: 12, address: 0x0102_0304 }
    );

    let mut other = license(1, 2_000_000);
    other.checksum = vec![0xc0, 0xff, 0xef];
    let mut engine = started(0);
    assert_eq!(
        engine.step(Event::License(Some(other.clone())), NOW),
        Action::Finish(Err(ValidationError::InvalidChecksum))
    );
    let (mut engine, _) = Engine::start(request(), false, 0);
    assert_eq!(
        engine.step(Event::License(Some(other)), NOW),
        Action::ReadLedger { license_id: 12, address: 0x0102_0304 }
    );

    let odd = Request { key: 77, address: 1, checksum: Some("c0ffe".to_owned()) };
    let (mut engine, _) = Engine::start(odd, true, 0);
    assert_eq!(
        engine.step(Event::License(Some(license(1, 2_000_000))), NOW),
        Action::Finish(Err(ValidationError::MalformedChecksum))
    );
    let none = Request { key: 77, address: 1, checksum: None };
    let (mut engine, _) = Engine::start(none, true, 0);
    assert_eq!(
        engine.step(Event::License(Some(license(1, 2_000_000))), NOW),
        Action::Finish(Err(ValidationError::MalformedChecksum))
    );
}

#[test]
fn a_store_failure_ends_the_validation() {
    let failed = Action::Finish(Err(ValidationError::DatabaseError));
    let mut engine = started(3);
    assert_eq!(engine.step(Event::Failed, NOW), failed);
    assert_eq!(
        engine.phase,
        Phase::Finished(Err(ValidationError::DatabaseError))
    );

    let mut engine = started(3);
    engine.step(Event::License(Some(license(1, 2_000_000))), NOW);
    assert_eq!(engine.step(Event::Failed, NOW), failed);

    let mut engine = started(3);
    engine.step(Event::License(Some(license(1, 2_000_000))), NOW);
    engine.step(Event::Ledger { present: false, count: 0 }, NOW);
    assert_eq!(engine.step(Event::Failed, NOW), failed);
}

#[test]
fn a_conflict_starts_the_transaction_over_while_retries_are_left() {
    let mut engine = started(2);
    engine.step(Event::License(Some(license(1, 2_000_000))), NOW);
    engine.step(Event::Ledger { present: false, count: 0 }, NOW);
    assert_eq!(engine.step(Event::Conflict, NOW), Action::FindLicense { key: 77 });
    assert_eq!(engine.phase, Phase::AwaitingLicense);
    assert_eq!(engine.retries_left, 1);

    engine.step(Event::License(Some(license(1, 2_000_000))), NOW);
    assert_eq!(engine.step(Event::Conflict, NOW), Action::FindLicense { key: 77 });
    assert_eq!(engine.retries_left, 0);

    assert_eq!(
        engine.step(Event::Conflict, NOW),
        Action::Finish(Err(ValidationError::DatabaseError))
    );
    assert_eq!(engine.retries_left, 0);

    let mut engine = started(1);
    engine.step(Event::Conflict, NOW);
    engine.step(Event::License(Some(license(1, 2_000_000))), NOW);
    engine.step(Event::Ledger { present: false, count: 0 }, NOW);
    assert_eq!(engine.step(Event::Recorded, NOW), Action::Finish(Ok(true)));
}

#[test]
fn an_answer_out_of_turn_is_a_store_failure() {
    let failed = Action::Finish(Err(ValidationError::DatabaseError));
    let mut engine = started(1);
    assert_eq!(engine.step(Event::Recorded, NOW), failed);
    let mut engine = started(1);
    assert_eq!(engine.step(Event::Ledger { present: true, count: 0 }, NOW), failed);
    let mut engine = started(1);
    engine.step(Event::License(Some(license(1, 2_000_000))), NOW);
    assert_eq!(engine.step(Event::License(None), NOW), failed);
    let mut engine = started(1);
    engine.step(Event::License(Some(license(1, 2_000_000))), NOW);
    assert_eq!(engine.step(Event::Recorded, NOW), failed);
    let mut engine = started(1);
    engine.step(Event::License(Some(license(1, 2_000_000))), NOW);
    engine.step(Event::Ledger { present: false, count: 0 }, NOW);
    assert_eq!(engine.step(Event::Ledger { present: false, count: 0 }, NOW), failed);
}

#[test]
fn a_finished_engine_repeats_its_outcome() {
    let mut engine = started(5);
    engine.step(Event::License(None), NOW);
    for event in [
        Event::Conflict,
        Event::Failed,
        Event::Recorded,
        Event::License(Some(license(1, 2_000_000))),
        Event::Ledger { present: true, count: 0 },
    ] {
        assert_eq!(
            engine.step(event, NOW),
            Action::Finish(Err(ValidationError::InvalidKey))
        );
        assert_eq!(engine.retries_left, 5);
    }
}
