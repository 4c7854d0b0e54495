//! What holds of every validation: the activation limit under any order of
//! arrival, the free re-activation of a known address, the meaning of
//! expiry, the place of the checksum among the checks, and the validity of
//! a license that has just been issued.

use crate::date::DateTimePlus;
use crate::engine::{steps_left, transition, Action, EventView, Phase};
use crate::error::ValidationError;
use crate::ledger::{
    addresses_of, admission, admission_by_count, after_admission, lemma_addresses_finite,
    lemma_addresses_insert,
};
use crate::license::{checksum_verdict, expired, license_verdict, LicenseView};
use crate::request::{decoded_hex, PeerAddress, Request};
use crate::store::{issue_result, ledger_after, outcome};
use vstd::prelude::*;

verus! {

/// The ledger after the addresses of a sequence have tried, one after the
/// other and in the sequence's order, to activate one license.
pub open spec fn ledger_after_all(
    m: Map<(u32, i32), DateTimePlus>,
    callers: Seq<u32>,
    license_id: i32,
    ip_limit: int,
    now: DateTimePlus,
) -> Map<(u32, i32), DateTimePlus>
    decreases callers.len(),
{
    if callers.len() == 0 {
        m
    } else {
        after_admission(
            ledger_after_all(m, callers.drop_last(), license_id, ip_limit, now),
            callers.last(),
            license_id,
            ip_limit,
            now,
        )
    }
}

/// What the caller at position `i` of a sequence is told, after those
/// before it have had their turn.
pub open spec fn admission_at(
    m: Map<(u32, i32), DateTimePlus>,
    callers: Seq<u32>,
    i: int,
    license_id: i32,
    ip_limit: int,
    now: DateTimePlus,
) -> Result<bool, ValidationError> {
    admission(
        ledger_after_all(m, callers.take(i), license_id, ip_limit, now),
        callers[i],
        license_id,
        ip_limit,
    )
}

/// The larger of two integers.
pub open spec fn larger(a: int, b: int) -> int {
    if a >= b {
        a
    } else {
        b
    }
}

/// Whatever addresses try to activate a license, in whatever order and
/// however often, the license never has more distinct addresses than its
/// limit, or than it had before if that was more.
pub proof fn law_limit_never_exceeded(
    m: Map<(u32, i32), DateTimePlus>,
    callers: Seq<u32>,
    license_id: i32,
    ip_limit: int,
    now: DateTimePlus,
)
    requires
        m.dom().finite(),
    ensures
        addresses_of(ledger_after_all(m, callers, license_id, ip_limit, now), license_id).finite(),
        addresses_of(ledger_after_all(m, callers, license_id, ip_limit, now), license_id).len()
            <= larger(ip_limit, addresses_of(m, license_id).len() as int),
        ledger_after_all(m, callers, license_id, ip_limit, now).dom().finite(),
    decreases callers.len(),
{
    lemma_addresses_finite(m, license_id);
    if callers.len() > 0 {
        let before = ledger_after_all(m, callers.drop_last(), license_id, ip_limit, now);
        law_limit_never_exceeded(m, callers.drop_last(), license_id, ip_limit, now);
        lemma_addresses_insert(before, callers.last(), license_id, now, license_id);
    }
}

/// Of distinct addresses that are new to a license, those that arrive
/// while the license has fewer addresses than its limit are admitted, and
/// every later one is told that the limit is reached, whatever the order
/// of arrival. With a limit of N, no address recorded and N + 1 callers,
/// exactly the first N to arrive are admitted.
pub proof fn law_first_come_first_admitted(
    m: Map<(u32, i32), DateTimePlus>,
    callers: Seq<u32>,
    i: int,
    license_id: i32,
    ip_limit: int,
    now: DateTimePlus,
)
    requires
        m.dom().finite(),
        callers.no_duplicates(),
        forall|j: int|
            0 <= j < callers.len() ==> !m.contains_key((#[trigger] callers[j], license_id)),
        0 <= i < callers.len(),
    ensures
        admission_at(m, callers, i, license_id, ip_limit, now) == if addresses_of(
            m,
            license_id,
        ).len() + i < ip_limit {
            Ok::<bool, ValidationError>(true)
        } else {
            Err::<bool, ValidationError>(ValidationError::ReachedActivationLimit)
        },
{
    lemma_serial_count(m, callers, i, license_id, ip_limit, now);
}

/// The number of addresses of a license after the first `i` of a sequence
/// of distinct new addresses have had their turn, and that the others are
/// still new to it.
proof fn lemma_serial_count(
    m: Map<(u32, i32), DateTimePlus>,
    callers: Seq<u32>,
    i: int,
    license_id: i32,
    ip_limit: int,
    now: DateTimePlus,
)
    requires
        m.dom().finite(),
        callers.no_duplicates(),
        forall|j: int|
            0 <= j < callers.len() ==> !m.contains_key((#[trigger] callers[j], license_id)),
        0 <= i <= callers.len(),
    ensures
        addresses_of(
            ledger_after_all(m, callers.take(i), license_id, ip_limit, now),
            license_id,
        ).finite(),
        addresses_of(
            ledger_after_all(m, callers.take(i), license_id, ip_limit, now),
            license_id,
        ).len() == if addresses_of(m, license_id).len() + i < ip_limit {
            addresses_of(m, license_id).len() + i
        } else {
            larger(ip_limit, addresses_of(m, license_id).len() as int)
        },
        forall|j: int|
            i <= j < callers.len() ==> !ledger_after_all(
                m,
                callers.take(i),
                license_id,
                ip_limit,
                now,
            ).contains_key((#[trigger] callers[j], license_id)),
    decreases i,
{
    lemma_addresses_finite(m, license_id);
    if i == 0 {
        assert(callers.take(0) =~= Seq::<u32>::empty());
    } else {
        lemma_serial_count(m, callers, i - 1, license_id, ip_limit, now);
        assert(callers.take(i).drop_last() =~= callers.take(i - 1));
        assert(callers.take(i).last() == callers[i - 1]);
        let before = ledger_after_all(m, callers.take(i - 1), license_id, ip_limit, now);
        lemma_addresses_insert(before, callers[i - 1], license_id, now, license_id);
    }
}

/// Where the license of a key passes the checks on the license itself,
/// the validation of a caller with an IPv4 address is the attempt to admit
/// that address, and it leaves the ledger as that attempt does.
pub proof fn law_validation_is_admission(
    licenses: Map<u128, LicenseView>,
    ledger: Map<(u32, i32), DateTimePlus>,
    verify_checksum: bool,
    key: u128,
    checksum: Option<Seq<char>>,
    address: u32,
    now: DateTimePlus,
)
    requires
        licenses.contains_key(key),
        license_verdict(Some(licenses[key]), verify_checksum, checksum, now) is Ok,
    ensures
        outcome(
            licenses,
            ledger,
            verify_checksum,
            Some(key),
            checksum,
            Some(PeerAddress::V4(address)),
            now,
        ) == admission(ledger, address, licenses[key].id, licenses[key].ip_limit as int),
        ledger_after(
            licenses,
            ledger,
            verify_checksum,
            Some(key),
            checksum,
            Some(PeerAddress::V4(address)),
            now,
        ) == after_admission(
            ledger,
            address,
            licenses[key].id,
            licenses[key].ip_limit as int,
            now,
        ),
{
}

/// The ledger after the callers of a sequence have validated one key, one
/// after the other and in the sequence's order.
pub open spec fn ledger_after_validations(
    licenses: Map<u128, LicenseView>,
    ledger: Map<(u32, i32), DateTimePlus>,
    verify_checksum: bool,
    key: u128,
    checksum: Option<Seq<char>>,
    callers: Seq<u32>,
    now: DateTimePlus,
) -> Map<(u32, i32), DateTimePlus>
    decreases callers.len(),
{
    if callers.len() == 0 {
        ledger
    } else {
        ledger_after(
            licenses,
            ledger_after_validations(
                licenses,
                ledger,
                verify_checksum,
                key,
                checksum,
                callers.drop_last(),
                now,
            ),
            verify_checksum,
            Some(key),
            checksum,
            Some(PeerAddress::V4(callers.last())),
            now,
        )
    }
}

/// What the caller at position `i` of a sequence is told by its
/// validation, after those before it have had theirs.
pub open spec fn validation_at(
    licenses: Map<u128, LicenseView>,
    ledger: Map<(u32, i32), DateTimePlus>,
    verify_checksum: bool,
    key: u128,
    checksum: Option<Seq<char>>,
    callers: Seq<u32>,
    i: int,
    now: DateTimePlus,
) -> Result<bool, ValidationError> {
    outcome(
        licenses,
        ledger_after_validations(
            licenses,
            ledger,
            verify_checksum,
            key,
            checksum,
            callers.take(i),
            now,
        ),
        verify_checksum,
        Some(key),
        checksum,
        Some(PeerAddress::V4(callers[i])),
        now,
    )
}

/// Validations of one key by callers in a row leave the ledger as their
/// attempts to be admitted do.
proof fn lemma_validations_are_admissions(
    licenses: Map<u128, LicenseView>,
    ledger: Map<(u32, i32), DateTimePlus>,
    verify_checksum: bool,
    key: u128,
    checksum: Option<Seq<char>>,
    callers: Seq<u32>,
    now: DateTimePlus,
)
    requires
        licenses.contains_key(key),
        license_verdict(Some(licenses[key]), verify_checksum, checksum, now) is Ok,
    ensures
        ledger_after_validations(licenses, ledger, verify_checksum, key, checksum, callers, now)
            == ledger_after_all(
            ledger,
            callers,
            licenses[key].id,
            licenses[key].ip_limit as int,
            now,
        ),
    decreases callers.len(),
{
    if callers.len() > 0 {
        lemma_validations_are_admissions(
            licenses,
            ledger,
            verify_checksum,
            key,
            checksum,
            callers.drop_last(),
            now,
        );
    }
}

/// When distinct callers that are new to a license validate its key one
/// after the other, those that arrive while the license has fewer
/// addresses than its limit are admitted and all later ones are told that
/// the limit is reached, in whatever order they arrive. So of N + 1 new
/// callers of a license with the limit N and an empty ledger, exactly N are
/// admitted and one is refused.
pub proof fn law_exactly_the_limit_is_admitted(
    licenses: Map<u128, LicenseView>,
    ledger: Map<(u32, i32), DateTimePlus>,
    verify_checksum: bool,
    key: u128,
    checksum: Option<Seq<char>>,
    callers: Seq<u32>,
    i: int,
    now: DateTimePlus,
)
    requires
        ledger.dom().finite(),
        licenses.contains_key(key),
        license_verdict(Some(licenses[key]), verify_checksum, checksum, now) is Ok,
        callers.no_duplicates(),
        forall|j: int|
            0 <= j < callers.len() ==> !ledger.contains_key(
                (#[trigger] callers[j], licenses[key].id),
            ),
        0 <= i < callers.len(),
    ensures
        validation_at(licenses, ledger, verify_checksum, key, checksum, callers, i, now)
            == if addresses_of(ledger, licenses[key].id).len() + i < licenses[key].ip_limit {
            Ok::<bool, ValidationError>(true)
        } else {
            Err::<bool, ValidationError>(ValidationError::ReachedActivationLimit)
        },
{
    lemma_validations_are_admissions(
        licenses,
        ledger,
        verify_checksum,
        key,
        checksum,
        callers.take(i),
        now,
    );
    law_first_come_first_admitted(
        ledger,
        callers,
        i,
        licenses[key].id,
        licenses[key].ip_limit as int,
        now,
    );
}

/// How many of the first `n` callers of a sequence are admitted anew when
/// they validate one key one after the other.
pub open spec fn admitted_among(
    licenses: Map<u128, LicenseView>,
    ledger: Map<(u32, i32), DateTimePlus>,
    verify_checksum: bool,
    key: u128,
    checksum: Option<Seq<char>>,
    callers: Seq<u32>,
    n: nat,
    now: DateTimePlus,
) -> nat
    decreases n,
{
    if n == 0 {
        0
    } else {
        let before = admitted_among(
            licenses,
            ledger,
            verify_checksum,
            key,
            checksum,
            callers,
            (n - 1) as nat,
            now,
        );
        if validation_at(
            licenses,
            ledger,
            verify_checksum,
            key,
            checksum,
            callers,
            n - 1,
            now,
        ) == Ok::<bool, ValidationError>(true) {
            before + 1
        } else {
            before
        }
    }
}

/// The places that a license has left: its limit less the addresses that
/// it has, and none where it has more.
pub open spec fn places_left(ip_limit: int, addresses: int) -> int {
    larger(ip_limit - addresses, 0)
}

/// When distinct callers that are new to a license validate its key one
/// after the other, in whatever order, as many are admitted as the license
/// has places left, or all of them if they are fewer; every other one is
/// told that the limit is reached; and afterwards the license has the
/// addresses that it had and those that were admitted, no more. So of N + 1
/// new callers of a license with the limit N and no address, exactly N are
/// admitted, exactly one is refused, and the ledger holds exactly N
/// addresses for the license.
pub proof fn law_as_many_as_places_are_admitted(
    licenses: Map<u128, LicenseView>,
    ledger: Map<(u32, i32), DateTimePlus>,
    verify_checksum: bool,
    key: u128,
    checksum: Option<Seq<char>>,
    callers: Seq<u32>,
    n: nat,
    now: DateTimePlus,
)
    requires
        ledger.dom().finite(),
        licenses.contains_key(key),
        license_verdict(Some(licenses[key]), verify_checksum, checksum, now) is Ok,
        callers.no_duplicates(),
        forall|j: int|
            0 <= j < callers.len() ==> !ledger.contains_key(
                (#[trigger] callers[j], licenses[key].id),
            ),
        n <= callers.len(),
    ensures
        ({
            let had = addresses_of(ledger, licenses[key].id).len() as int;
            let places = places_left(licenses[key].ip_limit as int, had);
            let admitted = admitted_among(
                licenses,
                ledger,
                verify_checksum,
                key,
                checksum,
                callers,
                n,
                now,
            );
            let after = ledger_after_validations(
                licenses,
                ledger,
                verify_checksum,
                key,
                checksum,
                callers.take(n as int),
                now,
            );
            &&& admitted == if n <= places {
                n as int
            } else {
                places
            }
            &&& addresses_of(after, licenses[key].id).finite()
            &&& addresses_of(after, licenses[key].id).len() == had + admitted
            &&& forall|i: int|
                0 <= i < n ==> #[trigger] validation_at(
                    licenses,
                    ledger,
                    verify_checksum,
                    key,
                    checksum,
                    callers,
                    i,
                    now,
                ) == if i < places {
                    Ok::<bool, ValidationError>(true)
                } else {
                    Err::<bool, ValidationError>(ValidationError::ReachedActivationLimit)
                }
        }),
    decreases n,
{
    let id = licenses[key].id;
    let limit = licenses[key].ip_limit as int;
    lemma_addresses_finite(ledger, id);
    lemma_validations_are_admissions(
        licenses,
        ledger,
        verify_checksum,
        key,
        checksum,
        callers.take(n as int),
        now,
    );
    lemma_serial_count(ledger, callers, n as int, id, limit, now);
    if n > 0 {
        law_as_many_as_places_are_admitted(
            licenses,
            ledger,
            verify_checksum,
            key,
            checksum,
            callers,
            (n - 1) as nat,
            now,
        );
        law_exactly_the_limit_is_admitted(
            licenses,
            ledger,
            verify_checksum,
            key,
            checksum,
            callers,
            n - 1,
            now,
        );
    }
}

/// No validation brings a license over its limit: where no two licenses
/// share an identifier and a license has no more addresses than its limit
/// allows, it has no more after any request whatever, for its own key or
/// for another.
pub proof fn law_validation_keeps_the_limit(
    licenses: Map<u128, LicenseView>,
    ledger: Map<(u32, i32), DateTimePlus>,
    verify_checksum: bool,
    parsed: Option<u128>,
    checksum: Option<Seq<char>>,
    peer: Option<PeerAddress>,
    now: DateTimePlus,
    key: u128,
)
    requires
        ledger.dom().finite(),
        licenses.contains_key(key),
        forall|a: u128, b: u128|
            licenses.contains_key(a) && licenses.contains_key(b) && a != b ==> licenses[a].id
                != licenses[b].id,
        addresses_of(ledger, licenses[key].id).len() <= licenses[key].ip_limit,
    ensures
        addresses_of(
            ledger_after(licenses, ledger, verify_checksum, parsed, checksum, peer, now),
            licenses[key].id,
        ).finite(),
        addresses_of(
            ledger_after(licenses, ledger, verify_checksum, parsed, checksum, peer, now),
            licenses[key].id,
        ).len() <= licenses[key].ip_limit,
{
    lemma_addresses_finite(ledger, licenses[key].id);
    let after = ledger_after(licenses, ledger, verify_checksum, parsed, checksum, peer, now);
    if after != ledger {
        let address = peer->0->V4_0;
        let asked = parsed->0;
        lemma_addresses_finite(ledger, licenses[asked].id);
        lemma_addresses_insert(ledger, address, licenses[asked].id, now, licenses[key].id);
    }
}

/// An address that the ledger already holds for a license is admitted
/// again whatever the limit and however many addresses the license has,
/// and the ledger stays as it is.
pub proof fn law_known_address_is_free(
    m: Map<(u32, i32), DateTimePlus>,
    address: u32,
    license_id: i32,
    ip_limit: int,
    now: DateTimePlus,
)
    requires
        m.contains_key((address, license_id)),
    ensures
        admission(m, address, license_id, ip_limit) == Ok::<bool, ValidationError>(false),
        after_admission(m, address, license_id, ip_limit, now) == m,
{
}

/// A caller whose address the ledger already holds for the license of its
/// key is admitted again wherever the license itself passes its checks,
/// even where the license is at its limit or beyond; nothing is recorded.
pub proof fn law_known_address_revalidates(
    licenses: Map<u128, LicenseView>,
    ledger: Map<(u32, i32), DateTimePlus>,
    verify_checksum: bool,
    key: u128,
    checksum: Option<Seq<char>>,
    address: u32,
    now: DateTimePlus,
)
    requires
        licenses.contains_key(key),
        ledger.contains_key((address, licenses[key].id)),
        license_verdict(Some(licenses[key]), verify_checksum, checksum, now) is Ok,
    ensures
        outcome(
            licenses,
            ledger,
            verify_checksum,
            Some(key),
            checksum,
            Some(PeerAddress::V4(address)),
            now,
        ) == Ok::<bool, ValidationError>(false),
        ledger_after(
            licenses,
            ledger,
            verify_checksum,
            Some(key),
            checksum,
            Some(PeerAddress::V4(address)),
            now,
        ) == ledger,
{
}

/// A validation that has succeeded succeeds again on the same request, at
/// any later instant at which the license has not expired; the second one
/// records nothing, even where the first has brought the license to its
/// limit.
pub proof fn law_validation_is_idempotent(
    licenses: Map<u128, LicenseView>,
    ledger: Map<(u32, i32), DateTimePlus>,
    verify_checksum: bool,
    parsed: Option<u128>,
    checksum: Option<Seq<char>>,
    peer: Option<PeerAddress>,
    now: DateTimePlus,
    later: DateTimePlus,
)
    requires
        outcome(licenses, ledger, verify_checksum, parsed, checksum, peer, now) is Ok,
        !expired(licenses[parsed->0].expires_at, later),
    ensures
        outcome(
            licenses,
            ledger_after(licenses, ledger, verify_checksum, parsed, checksum, peer, now),
            verify_checksum,
            parsed,
            checksum,
            peer,
            later,
        ) == Ok::<bool, ValidationError>(false),
        ledger_after(
            licenses,
            ledger_after(licenses, ledger, verify_checksum, parsed, checksum, peer, now),
            verify_checksum,
            parsed,
            checksum,
            peer,
            later,
        ) == ledger_after(licenses, ledger, verify_checksum, parsed, checksum, peer, now),
{
}

/// A request for an existing license is refused as expired exactly if the
/// license's expiry lies strictly before the current instant. A license
/// that expires at infinity is never refused as expired.
pub proof fn law_expiry(
    licenses: Map<u128, LicenseView>,
    ledger: Map<(u32, i32), DateTimePlus>,
    verify_checksum: bool,
    key: u128,
    checksum: Option<Seq<char>>,
    address: u32,
    now: DateTimePlus,
)
    requires
        licenses.contains_key(key),
    ensures
        outcome(
            licenses,
            ledger,
            verify_checksum,
            Some(key),
            checksum,
            Some(PeerAddress::V4(address)),
            now,
        ) == Err::<bool, ValidationError>(ValidationError::ExpiredKey)
            <==> licenses[key].expires_at.0 < now.0,
        licenses[key].expires_at.is_infinity() ==> outcome(
            licenses,
            ledger,
            verify_checksum,
            Some(key),
            checksum,
            Some(PeerAddress::V4(address)),
            now,
        ) != Err::<bool, ValidationError>(ValidationError::ExpiredKey),
{
}

/// At every instant but that of the expiry itself, a request for an
/// existing license is refused as expired exactly if the current instant is
/// the expiry or later.
pub proof fn law_expired_from_expiry_on(
    licenses: Map<u128, LicenseView>,
    ledger: Map<(u32, i32), DateTimePlus>,
    verify_checksum: bool,
    key: u128,
    checksum: Option<Seq<char>>,
    address: u32,
    now: DateTimePlus,
)
    requires
        licenses.contains_key(key),
        now != licenses[key].expires_at,
    ensures
        outcome(
            licenses,
            ledger,
            verify_checksum,
            Some(key),
            checksum,
            Some(PeerAddress::V4(address)),
            now,
        ) == Err::<bool, ValidationError>(ValidationError::ExpiredKey) <==> now.0
            >= licenses[key].expires_at.0,
{
}

/// A key that cannot be read is reported before the checksum is looked at:
/// whatever the checksum, the licenses and the ledger, a caller with an IPv4
/// address and a malformed key is told `MalformedKey`, and nothing is
/// recorded.
pub proof fn law_malformed_key_comes_first(
    licenses: Map<u128, LicenseView>,
    ledger: Map<(u32, i32), DateTimePlus>,
    verify_checksum: bool,
    checksum: Option<Seq<char>>,
    address: u32,
    now: DateTimePlus,
)
    ensures
        outcome(
            licenses,
            ledger,
            verify_checksum,
            None,
            checksum,
            Some(PeerAddress::V4(address)),
            now,
        ) == Err::<bool, ValidationError>(ValidationError::MalformedKey),
        ledger_after(
            licenses,
            ledger,
            verify_checksum,
            None,
            checksum,
            Some(PeerAddress::V4(address)),
            now,
        ) == ledger,
{
}

/// Where checksums are verified, a request for an existing license that has
/// not expired is refused for its checksum exactly if the checksum is
/// absent or no hex encoding (`MalformedChecksum`) or decodes to other
/// bytes than the stored ones (`InvalidChecksum`), whatever the ledger
/// holds and whatever the limit is.
pub proof fn law_checksum_is_exact(
    licenses: Map<u128, LicenseView>,
    ledger: Map<(u32, i32), DateTimePlus>,
    key: u128,
    checksum: Option<Seq<char>>,
    address: u32,
    now: DateTimePlus,
)
    requires
        licenses.contains_key(key),
        !expired(licenses[key].expires_at, now),
    ensures
        outcome(licenses, ledger, true, Some(key), checksum, Some(PeerAddress::V4(address)), now)
            == Err::<bool, ValidationError>(ValidationError::MalformedChecksum) <==> (checksum
            is None || decoded_hex(checksum->0) is None),
        outcome(licenses, ledger, true, Some(key), checksum, Some(PeerAddress::V4(address)), now)
            == Err::<bool, ValidationError>(ValidationError::InvalidChecksum) <==> (checksum
            is Some && decoded_hex(checksum->0) is Some && decoded_hex(checksum->0)->0
            != licenses[key].checksum),
        checksum_verdict(licenses[key].checksum, checksum) is Ok <==> checksum is Some
            && decoded_hex(checksum->0) == Some(licenses[key].checksum),
{
}

/// The engine comes to an end: every answer of the store either uses up a
/// retry or brings the engine nearer to its outcome, and an engine that has
/// its outcome keeps it.
pub proof fn law_engine_makes_progress(
    phase: Phase,
    retries_left: u32,
    request: Request,
    verify_checksum: bool,
    event: EventView,
    now: DateTimePlus,
)
    ensures
        ({
            let next = transition(phase, retries_left, request, verify_checksum, event, now);
            &&& next.1 <= retries_left
            &&& phase is Finished ==> next.0 == phase && next.1 == retries_left && next.2
                == Action::Finish(phase->Finished_0)
            &&& !(phase is Finished) ==> 4 * next.1 + steps_left(next.0) < 4 * retries_left
                + steps_left(phase)
            &&& next.2 is Finish <==> next.0 is Finished
            &&& next.2 matches Action::Finish(result) ==> next.0 == Phase::Finished(result)
        }),
{
}

/// Told the truth by a store that serializes, the engine asks for the
/// license, then for the ledger, then for the record, and ends with what
/// the checks on the license and the admission rule say.
pub proof fn law_engine_follows_the_checks(
    request: Request,
    verify_checksum: bool,
    retries: u32,
    license: Option<LicenseView>,
    present: bool,
    count: u64,
    now: DateTimePlus,
)
    ensures
        ({
            let first = transition(
                Phase::AwaitingLicense,
                retries,
                request,
                verify_checksum,
                EventView::License(license),
                now,
            );
            let second = transition(
                first.0,
                first.1,
                request,
                verify_checksum,
                EventView::Ledger { present, count },
                now,
            );
            let third = transition(
                second.0,
                second.1,
                request,
                verify_checksum,
                EventView::Recorded,
                now,
            );
            let verdict = license_verdict(license, verify_checksum, request.supplied(), now);
            let rule = admission_by_count(present, count as int, license->0.ip_limit as int);
            &&& verdict matches Err(e) ==> first.2 == Action::Finish(Err(e))
            &&& verdict is Ok ==> first.2 == (Action::ReadLedger {
                license_id: license->0.id,
                address: request.address,
            })
            &&& verdict is Ok && rule != Ok::<bool, ValidationError>(true) ==> second.2
                == Action::Finish(rule)
            &&& verdict is Ok && rule == Ok::<bool, ValidationError>(true) ==> second.2 == (
            Action::Record { license_id: license->0.id, address: request.address }) && third.2
                == Action::Finish(Ok(true))
        }),
{
}

/// A license that has just been issued validates at once: a caller with an
/// IPv4 address that presents its key and, where checksums are verified, the
/// hex encoding of its checksum, before the license has expired, is newly
/// admitted.
pub proof fn law_issued_license_validates(
    licenses: Map<u128, LicenseView>,
    ledger: Map<(u32, i32), DateTimePlus>,
    next_id: int,
    license: LicenseView,
    verify_checksum: bool,
    checksum: Option<Seq<char>>,
    address: u32,
    now: DateTimePlus,
)
    requires
        ledger.dom().finite(),
        issue_result(licenses, next_id, license.key, license.ip_limit) == Ok::<
            i32,
            crate::store::IssueError,
        >(license.id),
        addresses_of(ledger, license.id).len() < license.ip_limit,
        !ledger.contains_key((address, license.id)),
        !expired(license.expires_at, now),
        verify_checksum ==> checksum is Some && decoded_hex(checksum->0) == Some(license.checksum),
    ensures
        outcome(
            licenses.insert(license.key, license),
            ledger,
            verify_checksum,
            Some(license.key),
            checksum,
            Some(PeerAddress::V4(address)),
            now,
        ) == Ok::<bool, ValidationError>(true),
        ledger_after(
            licenses.insert(license.key, license),
            ledger,
            verify_checksum,
            Some(license.key),
            checksum,
            Some(PeerAddress::V4(address)),
            now,
        ) == ledger.insert((address, license.id), now),
{
}

} // verus!
