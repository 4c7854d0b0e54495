use licenseptium::date::DateTimePlus;
use licenseptium::error::ValidationError;
use licenseptium::request::PeerAddress;
use licenseptium::store::{IssueError, Store};

const KEY: &str = "550e8400-e29b-41d4-a716-446655440000";
const KEY_VALUE: u128 = 0x550e8400_e29b_41d4_a716_446655440000;
const NOON: i64 = 1_700_000_000_000_000;
const HOUR: i64 = 3_600_000_000;

fn addr(last: u8) -> Option<PeerAddress> {
    Some(PeerAddress::V4(0x0a00_0000 + last as u32))
}

fn store_with(ip_limit: i32, checksum: &[u8], expires_at: DateTimePlus) -> (Store, i32) {
    let mut store = Store::new();
    let id = store
        .issue(
            KEY_VALUE,
            "owner".to_owned(),
            ip_limit,
            checksum.to_vec(),
            expires_at,
            DateTimePlus(NOON - HOUR),
        )
        .unwrap();
    (store, id)
}

#[test]
fn one_address_limit_admits_first_refuses_second_readmits_first() {
    let (mut store, id) = store_with(1, b"", DateTimePlus(NOON + 1000 * HOUR));
    let now = DateTimePlus(NOON);

    let first = store.validate(false, KEY, None, addr(1), now).unwrap();
    assert!(first.newly_activated);
    assert_eq!(first.key, KEY);
    assert_eq!(first.checksum, None);
    assert!(store.is_activated(0x0a00_0001, id));
    assert_eq!(store.activations(id), 1);

    let second = store.validate(false, KEY, None, addr(2), now);
    assert_eq!(second, Err(ValidationError::ReachedActivationLimit));
    assert!(!store.is_activated(0x0a00_0002, id));
    assert_eq!(store.activations(id), 1);

    let again = store.validate(false, KEY, None, addr(1), now).unwrap();
    assert!(!again.newly_activated);
    assert_eq!(store.activations(id), 1);
}

#[test]
fn expired_an_hour_ago_is_refused_whatever_the_ledger_says() {
    let (mut store, id) = store_with(3, b"", DateTimePlus(NOON));
    assert!(store
        .validate(false, KEY, None, addr(1), DateTimePlus(NOON - 1))
        .is_ok());
    let later = DateTimePlus(NOON + HOUR);
    assert_eq!(
        store.validate(false, KEY, None, addr(1), later),
        Err(ValidationError::ExpiredKey)
    );
    assert_eq!(
        store.validate(false, KEY, None, addr(2), later),
        Err(ValidationError::ExpiredKey)
    );
    assert_eq!(store.activations(id), 1);
}

#[test]
fn expiry_is_strict_and_infinity_never_expires() {
    let (mut store, _) = store_with(5, b"", DateTimePlus(NOON));
    assert!(store
        .validate(false, KEY, None, addr(1), DateTimePlus(NOON))
        .is_ok());
    assert_eq!(
        store.validate(false, KEY, None, addr(1), DateTimePlus(NOON + 1)),
        Err(ValidationError::ExpiredKey)
    );

    let (mut forever, _) = store_with(5, b"", DateTimePlus::infinity());
    assert!(forever
        .validate(false, KEY, None, addr(1), DateTimePlus(i64::MAX))
        .is_ok());
    assert!(forever
        .validate(false, KEY, None, addr(2), DateTimePlus::now())
        .is_ok());
}

#[test]
fn known_address_is_readmitted_at_the_limit() {
    let (mut store, id) = store_with(2, b"", DateTimePlus::infinity());
    let now = DateTimePlus(NOON);
    assert!(store.validate(false, KEY, None, addr(1), now).is_ok());
    assert!(store.validate(false, KEY, None, addr(2), now).is_ok());
    assert_eq!(store.activations(id), 2);
    for _ in 0..3 {
        let again = store.validate(false, KEY, None, addr(1), now).unwrap();
        assert!(!again.newly_activated);
        let again = store.validate(false, KEY, None, addr(2), now).unwrap();
        assert!(!again.newly_activated);
    }
    assert_eq!(
        store.validate(false, KEY, None, addr(3), now),
        Err(ValidationError::ReachedActivationLimit)
    );
    assert_eq!(store.activations(id), 2);
}

#[test]
fn exactly_the_limit_of_new_addresses_is_admitted_in_any_order() {
    for limit in 1..6 {
        for start in 0..(limit + 1) {
            let (mut store, id) = store_with(limit, b"", DateTimePlus::infinity());
            let mut admitted = 0;
            let mut refused = 0;
            for step in 0..(limit + 1) {
                let last = ((start + step) % (limit + 1)) as u8 + 1;
                match store.validate(false, KEY, None, addr(last), DateTimePlus(NOON)) {
                    Ok(a) => {
                        assert!(a.newly_activated);
                        admitted += 1;
                    }
                    Err(e) => {
                        assert_eq!(e, ValidationError::ReachedActivationLimit);
                        refused += 1;
                    }
                }
            }
            assert_eq!(admitted, limit);
            assert_eq!(refused, 1);
            assert_eq!(store.activations(id), limit as usize);
        }
    }
}

#[test]
fn checksum_must_match_byte_for_byte() {
    let (mut store, id) = store_with(2, &[0xde, 0xad, 0xbe, 0xef], DateTimePlus::infinity());
    let now = DateTimePlus(NOON);
    assert_eq!(
        store.validate(true, KEY, Some("deadbeee"), addr(1), now),
        Err(ValidationError::InvalidChecksum)
    );
    assert_eq!(
        store.validate(true, KEY, Some("deadbe"), addr(1), now),
        Err(ValidationError::InvalidChecksum)
    );
    assert_eq!(
        store.validate(true, KEY, Some("deadbeef00"), addr(1), now),
        Err(ValidationError::InvalidChecksum)
    );
    assert_eq!(
        store.validate(true, KEY, Some("deadbee"), addr(1), now),
        Err(ValidationError::MalformedChecksum)
    );
    assert_eq!(
        store.validate(true, KEY, Some("deadbeeg"), addr(1), now),
        Err(ValidationError::MalformedChecksum)
    );
    assert_eq!(
        store.validate(true, KEY, None, addr(1), now),
        Err(ValidationError::MalformedChecksum)
    );
    assert_eq!(store.activations(id), 0);

    let ok = store
        .validate(true, KEY, Some("DeadBEEF"), addr(1), now)
        .unwrap();
    assert!(ok.newly_activated);
    assert_eq!(ok.checksum, Some("DeadBEEF".to_owned()));
    assert_eq!(store.activations(id), 1);
}

#[test]
fn checksum_is_ignored_where_it_is_not_verified() {
    let (mut store, _) = store_with(1, &[1, 2, 3], DateTimePlus::infinity());
    let ok = store
        .validate(false, KEY, Some("not hex"), addr(1), DateTimePlus(NOON))
        .unwrap();
    assert_eq!(ok.checksum, Some("not hex".to_owned()));
}

#[test]
fn failures_come_in_the_order_of_the_checks() {
    let (mut store, _) = store_with(1, &[0xab], DateTimePlus(NOON));
    let late = DateTimePlus(NOON + HOUR);
    let early = DateTimePlus(NOON - HOUR);
    let v6 = Some(PeerAddress::V6(1));
    let other = "00000000-0000-0000-0000-000000000001";

    assert_eq!(
        store.validate(true, "no key", Some("zz"), None, late),
        Err(ValidationError::IPAddressNotFound)
    );
    assert_eq!(
        store.validate(true, "no key", Some("zz"), v6, late),
        Err(ValidationError::BadIPVersion)
    );
    assert_eq!(
        store.validate(true, "no key", Some("zz"), addr(1), late),
        Err(ValidationError::MalformedKey)
    );
    assert_eq!(
        store.validate(true, other, Some("zz"), addr(1), late),
        Err(ValidationError::InvalidKey)
    );
    assert_eq!(
        store.validate(true, KEY, Some("zz"), addr(1), late),
        Err(ValidationError::ExpiredKey)
    );
    assert_eq!(
        store.validate(true, KEY, Some("zz"), addr(1), early),
        Err(ValidationError::MalformedChecksum)
    );
    assert_eq!(
        store.validate(true, KEY, Some("ac"), addr(1), early),
        Err(ValidationError::InvalidChecksum)
    );
    assert!(store.validate(true, KEY, Some("ab"), addr(1), early).is_ok());
    assert_eq!(
        store.validate(true, KEY, Some("ab"), addr(2), early),
        Err(ValidationError::ReachedActivationLimit)
    );
    assert_eq!(
        store.validate(true, KEY, Some("ac"), addr(2), early),
        Err(ValidationError::InvalidChecksum)
    );
}

#[test]
fn issued_license_validates_at_once() {
    let mut store = Store::new();
    let id = store
        .issue(
            7,
            "fresh".to_owned(),
            1,
            vec![0x01, 0x02],
            DateTimePlus::infinity(),
            DateTimePlus(NOON),
        )
        .unwrap();
    assert_eq!(id, 1);
    let ok = store
        .validate(
            true,
            "00000000-0000-0000-0000-000000000007",
            Some("0102"),
            addr(9),
            DateTimePlus(NOON),
        )
        .unwrap();
    assert!(ok.newly_activated);
    assert!(store.is_activated(0x0a00_0009, id));
}

#[test]
fn licenses_do_not_share_their_ledgers() {
    let mut store = Store::new();
    let now = DateTimePlus(NOON);
    let a = store
        .issue(1, "a".to_owned(), 1, vec![], DateTimePlus::infinity(), now)
        .unwrap();
    let b = store
        .issue(2, "b".to_owned(), 1, vec![], DateTimePlus::infinity(), now)
        .unwrap();
    assert_eq!((a, b), (1, 2));
    let key_a = "00000000-0000-0000-0000-000000000001";
    let key_b = "00000000-0000-0000-0000-000000000002";
    assert!(store.validate(false, key_a, None, addr(1), now).is_ok());
    assert!(store.validate(false, key_b, None, addr(1), now).is_ok());
    assert_eq!(
        store.validate(false, key_a, None, addr(2), now),
        Err(ValidationError::ReachedActivationLimit)
    );
    assert_eq!(store.activations(a), 1);
    assert_eq!(store.activations(b), 1);
    assert!(store.is_activated(0x0a00_0001, b));
    assert!(!store.is_activated(0x0a00_0002, a));
}

#[test]
fn issue_refuses_bad_limits_and_known_keys() {
    let mut store = Store::new();
    let now = DateTimePlus(NOON);
    let never = DateTimePlus::infinity();
    assert_eq!(
        store.issue(1, "x".to_owned(), 0, vec![], never, now),
        Err(IssueError::InvalidLimit)
    );
    assert_eq!(
        store.issue(1, "x".to_owned(), -3, vec![], never, now),
        Err(IssueError::InvalidLimit)
    );
    assert_eq!(store.issue(1, "x".to_owned(), 1, vec![], never, now), Ok(1));
    assert_eq!(
        store.issue(1, "y".to_owned(), 4, vec![], never, now),
        Err(IssueError::DuplicateKey)
    );
    assert_eq!(
        store.issue(1, "y".to_owned(), 0, vec![], never, now),
        Err(IssueError::InvalidLimit)
    );
    assert_eq!(store.issue(2, "y".to_owned(), 4, vec![], never, now), Ok(2));
    let found = store.find(2).unwrap();
    assert_eq!(found.id, 2);
    assert_eq!(found.comment, "y");
    assert_eq!(found.ip_limit, 4);
    assert_eq!(found.created_at, now);
    assert!(store.find(3).is_none());
}
