//! Many callers of one key at once: their engines take turns at the store
//! in any order, each turn being one demand that the store serves as one
//! step. Whatever the order, the license never gets more addresses than its
//! limit, and once all have finished, as many callers have been admitted as
//! the license had places.

use crate::date::DateTimePlus;
use crate::engine::{transition, Action, Engine, Phase};
use crate::error::ValidationError;
use crate::ledger::{addresses_of, lemma_addresses_finite, lemma_addresses_insert};
use crate::license::{license_verdict, LicenseView};
use crate::request::Request;
use crate::store::served;
use vstd::prelude::*;

verus! {

/// The ledger and the engines of the callers, each with the demand that it
/// has made and that has not been served yet.
pub struct System {
    pub ledger: Map<(u32, i32), DateTimePlus>,
    pub callers: Seq<(Engine, Action)>,
}

/// An engine that has just been started for a request.
pub open spec fn fresh_engine(request: Request, verify_checksum: bool, retries: u32) -> (
    Engine,
    Action,
) {
    (
        Engine { request, verify_checksum, retries_left: retries, phase: Phase::AwaitingLicense },
        Action::FindLicense { key: request.key },
    )
}

/// The system in which an engine has been started for each request and
/// none has had a turn.
pub open spec fn started(
    ledger: Map<(u32, i32), DateTimePlus>,
    requests: Seq<Request>,
    verify_checksum: bool,
    retries: u32,
) -> System {
    System {
        ledger,
        callers: Seq::new(
            requests.len(),
            |i: int| fresh_engine(requests[i], verify_checksum, retries),
        ),
    }
}

/// The system after the turn of caller `k`: the store serves the caller's
/// demand and the caller's engine takes the answer. A caller that has
/// finished has no demand, and its turn changes nothing.
pub open spec fn after_turn(
    licenses: Map<u128, LicenseView>,
    sys: System,
    k: int,
    now: DateTimePlus,
) -> System {
    let engine = sys.callers[k].0;
    let answer = served(licenses, sys.ledger, sys.callers[k].1, now);
    match answer.0 {
        None => sys,
        Some(event) => {
            let next = transition(
                engine.phase,
                engine.retries_left,
                engine.request,
                engine.verify_checksum,
                event,
                now,
            );
            System {
                ledger: answer.1,
                callers: sys.callers.update(
                    k,
                    (
                        Engine {
                            request: engine.request,
                            verify_checksum: engine.verify_checksum,
                            retries_left: next.1,
                            phase: next.0,
                        },
                        next.2,
                    ),
                ),
            }
        },
    }
}

/// The system after the turns of a schedule, which names the caller of
/// each turn and the instant at which the turn is taken. A turn that names
/// no caller changes nothing.
pub open spec fn after_turns(
    licenses: Map<u128, LicenseView>,
    sys: System,
    schedule: Seq<(int, DateTimePlus)>,
) -> System
    decreases schedule.len(),
{
    if schedule.len() == 0 {
        sys
    } else {
        let before = after_turns(licenses, sys, schedule.drop_last());
        if 0 <= schedule.last().0 < before.callers.len() {
            after_turn(licenses, before, schedule.last().0, schedule.last().1)
        } else {
            before
        }
    }
}

/// Whether a caller has been admitted anew.
pub open spec fn is_admitted(caller: (Engine, Action)) -> bool {
    caller.0.phase == Phase::Finished(Ok(true))
}

/// Whether a caller has been told that the limit is reached.
pub open spec fn is_refused(caller: (Engine, Action)) -> bool {
    caller.0.phase == Phase::Finished(Err(ValidationError::ReachedActivationLimit))
}

/// How many of the first `n` callers have been admitted anew.
pub open spec fn admitted_count(callers: Seq<(Engine, Action)>, n: nat) -> nat
    decreases n,
{
    if n == 0 {
        0
    } else if is_admitted(callers[n - 1]) {
        admitted_count(callers, (n - 1) as nat) + 1
    } else {
        admitted_count(callers, (n - 1) as nat)
    }
}

/// Whether every caller has finished.
pub open spec fn all_finished(callers: Seq<(Engine, Action)>) -> bool {
    forall|k: int| 0 <= k < callers.len() ==> (#[trigger] callers[k]).0.phase is Finished
}

/// Whether the license of the key passes the checks on the license itself
/// for each of the requests at an instant.
pub open spec fn passes_at(
    licenses: Map<u128, LicenseView>,
    verify_checksum: bool,
    key: u128,
    requests: Seq<Request>,
    now: DateTimePlus,
) -> bool {
    forall|i: int|
        0 <= i < requests.len() ==> license_verdict(
            Some(licenses[key]),
            verify_checksum,
            (#[trigger] requests[i]).supplied(),
            now,
        ) is Ok
}

/// Whether the license passes its checks for each request at the instant of
/// every turn of a schedule.
pub open spec fn passes_throughout(
    licenses: Map<u128, LicenseView>,
    verify_checksum: bool,
    key: u128,
    requests: Seq<Request>,
    schedule: Seq<(int, DateTimePlus)>,
) -> bool {
    forall|t: int|
        0 <= t < schedule.len() ==> passes_at(
            licenses,
            verify_checksum,
            key,
            requests,
            (#[trigger] schedule[t]).1,
        )
}

/// Whether the requests are those of distinct callers of one key that are
/// all new to the key's license, which exists and has no more addresses
/// than its limit.
pub open spec fn contend(
    licenses: Map<u128, LicenseView>,
    ledger: Map<(u32, i32), DateTimePlus>,
    key: u128,
    requests: Seq<Request>,
) -> bool {
    &&& ledger.dom().finite()
    &&& licenses.contains_key(key)
    &&& forall|a: u128, b: u128|
        licenses.contains_key(a) && licenses.contains_key(b) && a != b ==> licenses[a].id
            != licenses[b].id
    &&& addresses_of(ledger, licenses[key].id).len() <= licenses[key].ip_limit
    &&& forall|i: int|
        0 <= i < requests.len() ==> {
            &&& (#[trigger] requests[i]).key == key
            &&& !ledger.contains_key((requests[i].address, licenses[key].id))
        }
    &&& forall|i: int, j: int|
        0 <= i < j < requests.len() ==> (#[trigger] requests[i]).address != (
        #[trigger] requests[j]).address
}

/// What holds of one caller at every point of every schedule.
spec fn caller_in_step(
    licenses: Map<u128, LicenseView>,
    verify_checksum: bool,
    key: u128,
    request: Request,
    retries: u32,
    ledger: Map<(u32, i32), DateTimePlus>,
    caller: (Engine, Action),
) -> bool {
    let id = licenses[key].id;
    let limit = licenses[key].ip_limit;
    let full = addresses_of(ledger, id).len() >= limit;
    let engine = caller.0;
    &&& engine.request == request
    &&& engine.verify_checksum == verify_checksum
    &&& engine.retries_left == retries || (engine.retries_left == retries - 1 && full)
    &&& ledger.contains_key((request.address, id)) <==> is_admitted(caller)
    &&& match engine.phase {
        Phase::AwaitingLicense => caller.1 == (Action::FindLicense { key }),
        Phase::AwaitingLedger { license_id, ip_limit } => {
            &&& license_id == id
            &&& ip_limit == limit
            &&& caller.1 == (Action::ReadLedger { license_id: id, address: request.address })
        },
        Phase::AwaitingRecord => {
            &&& engine.retries_left == retries
            &&& caller.1 == (Action::Record { license_id: id, address: request.address })
        },
        Phase::Finished(outcome) => {
            &&& caller.1 == Action::Finish(outcome)
            &&& is_admitted(caller) || (is_refused(caller) && full)
        },
    }
}

/// What holds of the system at every point of every schedule.
spec fn in_step(
    licenses: Map<u128, LicenseView>,
    ledger: Map<(u32, i32), DateTimePlus>,
    verify_checksum: bool,
    key: u128,
    requests: Seq<Request>,
    retries: u32,
    sys: System,
) -> bool {
    let id = licenses[key].id;
    &&& sys.callers.len() == requests.len()
    &&& addresses_of(sys.ledger, id).finite()
    &&& addresses_of(sys.ledger, id).len() <= licenses[key].ip_limit
    &&& addresses_of(sys.ledger, id).len() == addresses_of(ledger, id).len() + admitted_count(
        sys.callers,
        sys.callers.len(),
    )
    &&& forall|k: int|
        0 <= k < requests.len() ==> caller_in_step(
            licenses,
            verify_checksum,
            key,
            requests[k],
            retries,
            sys.ledger,
            #[trigger] sys.callers[k],
        )
}

/// Changing one caller changes the number of the admitted by that caller
/// alone.
proof fn lemma_count_update(
    callers: Seq<(Engine, Action)>,
    k: int,
    caller: (Engine, Action),
    n: nat,
)
    requires
        0 <= k < callers.len(),
        n <= callers.len(),
    ensures
        admitted_count(callers.update(k, caller), n) == admitted_count(callers, n) + if k < n
            && is_admitted(caller) && !is_admitted(callers[k]) {
            1int
        } else if k < n && !is_admitted(caller) && is_admitted(callers[k]) {
            -1int
        } else {
            0int
        },
    decreases n,
{
    if n > 0 {
        lemma_count_update(callers, k, caller, (n - 1) as nat);
    }
}

/// No more callers are admitted than there are, and all of them are only
/// if each one is.
proof fn lemma_count_bounds(callers: Seq<(Engine, Action)>, n: nat)
    requires
        n <= callers.len(),
    ensures
        admitted_count(callers, n) <= n,
        (forall|k: int| 0 <= k < n ==> is_admitted(#[trigger] callers[k])) ==> admitted_count(
            callers,
            n,
        ) == n,
    decreases n,
{
    if n > 0 {
        lemma_count_bounds(callers, (n - 1) as nat);
    }
}

/// One turn of any caller keeps the system in step.
proof fn lemma_turn_keeps_step(
    licenses: Map<u128, LicenseView>,
    ledger: Map<(u32, i32), DateTimePlus>,
    verify_checksum: bool,
    key: u128,
    requests: Seq<Request>,
    retries: u32,
    sys: System,
    k: int,
    now: DateTimePlus,
)
    requires
        contend(licenses, ledger, key, requests),
        passes_at(licenses, verify_checksum, key, requests, now),
        retries >= 1,
        in_step(licenses, ledger, verify_checksum, key, requests, retries, sys),
        0 <= k < requests.len(),
    ensures
        in_step(
            licenses,
            ledger,
            verify_checksum,
            key,
            requests,
            retries,
            after_turn(licenses, sys, k, now),
        ),
{
    let id = licenses[key].id;
    let limit = licenses[key].ip_limit;
    let engine = sys.callers[k].0;
    let action = sys.callers[k].1;
    let request = requests[k];
    let after = after_turn(licenses, sys, k, now);
    let had = addresses_of(sys.ledger, id);
    assert(caller_in_step(
        licenses,
        verify_checksum,
        key,
        request,
        retries,
        sys.ledger,
        sys.callers[k],
    ));
    assert(crate::store::limit_by_id(licenses, id) == Some(limit)) by {
        assert(licenses.contains_key(key) && licenses[key].id == id);
    }
    assert(license_verdict(Some(licenses[key]), verify_checksum, request.supplied(), now) is Ok);
    if engine.phase is Finished {
        assert(after == sys);
    } else {
        let caller = after.callers[k];
        assert(after.callers == sys.callers.update(k, caller));
        lemma_count_update(sys.callers, k, caller, sys.callers.len());
        lemma_addresses_insert(sys.ledger, request.address, id, now, id);
        let has = addresses_of(after.ledger, id);
        assert(has == had || (has == had.insert(request.address) && !had.contains(
            request.address,
        ) && is_admitted(caller)));
        assert(caller_in_step(
            licenses,
            verify_checksum,
            key,
            request,
            retries,
            after.ledger,
            caller,
        ));
        assert forall|j: int| 0 <= j < requests.len() implies caller_in_step(
            licenses,
            verify_checksum,
            key,
            requests[j],
            retries,
            after.ledger,
            #[trigger] after.callers[j],
        ) by {
            if j != k {
                assert(after.callers[j] == sys.callers[j]);
                assert(caller_in_step(
                    licenses,
                    verify_checksum,
                    key,
                    requests[j],
                    retries,
                    sys.ledger,
                    sys.callers[j],
                ));
                assert(requests[j].address != requests[k].address) by {
                    if j < k {
                        assert(requests[j].address != requests[k].address);
                    } else {
                        assert(requests[k].address != requests[j].address);
                    }
                }
            }
        }
    }
}

/// Every schedule keeps the system in step.
proof fn lemma_turns_keep_step(
    licenses: Map<u128, LicenseView>,
    ledger: Map<(u32, i32), DateTimePlus>,
    verify_checksum: bool,
    key: u128,
    requests: Seq<Request>,
    retries: u32,
    schedule: Seq<(int, DateTimePlus)>,
)
    requires
        contend(licenses, ledger, key, requests),
        passes_throughout(licenses, verify_checksum, key, requests, schedule),
        retries >= 1,
    ensures
        in_step(
            licenses,
            ledger,
            verify_checksum,
            key,
            requests,
            retries,
            after_turns(
                licenses,
                started(ledger, requests, verify_checksum, retries),
                schedule,
            ),
        ),
    decreases schedule.len(),
{
    let start = started(ledger, requests, verify_checksum, retries);
    if schedule.len() == 0 {
        lemma_addresses_finite(ledger, licenses[key].id);
        lemma_none_admitted_at_the_start(start.callers, start.callers.len());
    } else {
        assert forall|t: int| 0 <= t < schedule.drop_last().len() implies passes_at(
            licenses,
            verify_checksum,
            key,
            requests,
            (#[trigger] schedule.drop_last()[t]).1,
        ) by {
            assert(schedule.drop_last()[t] == schedule[t]);
        }
        lemma_turns_keep_step(
            licenses,
            ledger,
            verify_checksum,
            key,
            requests,
            retries,
            schedule.drop_last(),
        );
        let before = after_turns(licenses, start, schedule.drop_last());
        assert(passes_at(licenses, verify_checksum, key, requests, schedule.last().1)) by {
            assert(schedule.last() == schedule[schedule.len() - 1]);
        }
        if 0 <= schedule.last().0 < before.callers.len() {
            lemma_turn_keeps_step(
                licenses,
                ledger,
                verify_checksum,
                key,
                requests,
                retries,
                before,
                schedule.last().0,
                schedule.last().1,
            );
        }
    }
}

/// Where no caller has finished, none has been admitted.
proof fn lemma_none_admitted_at_the_start(callers: Seq<(Engine, Action)>, n: nat)
    requires
        n <= callers.len(),
        forall|k: int| 0 <= k < callers.len() ==> !is_admitted(#[trigger] callers[k]),
    ensures
        admitted_count(callers, n) == 0,
    decreases n,
{
    if n > 0 {
        lemma_none_admitted_at_the_start(callers, (n - 1) as nat);
    }
}

/// The limit holds under every interleaving: whatever the order in which
/// the engines of distinct new callers of one key take their turns, and at
/// every point of it, the license has no more addresses than its limit
/// allows; it has those that it had and one for each caller that has been
/// admitted; and a caller that has finished has been admitted anew or has
/// been told that the limit is reached, which it then is.
pub proof fn law_no_interleaving_exceeds_the_limit(
    licenses: Map<u128, LicenseView>,
    ledger: Map<(u32, i32), DateTimePlus>,
    verify_checksum: bool,
    key: u128,
    requests: Seq<Request>,
    retries: u32,
    schedule: Seq<(int, DateTimePlus)>,
)
    requires
        contend(licenses, ledger, key, requests),
        passes_throughout(licenses, verify_checksum, key, requests, schedule),
        retries >= 1,
    ensures
        ({
            let sys = after_turns(
                licenses,
                started(ledger, requests, verify_checksum, retries),
                schedule,
            );
            let has = addresses_of(sys.ledger, licenses[key].id);
            &&& sys.callers.len() == requests.len()
            &&& has.finite()
            &&& has.len() <= licenses[key].ip_limit
            &&& has.len() == addresses_of(ledger, licenses[key].id).len() + admitted_count(
                sys.callers,
                sys.callers.len(),
            )
            &&& forall|k: int|
                0 <= k < requests.len() ==> {
                    &&& is_admitted(#[trigger] sys.callers[k]) <==> sys.ledger.contains_key(
                        (requests[k].address, licenses[key].id),
                    )
                    &&& sys.callers[k].0.phase is Finished ==> is_admitted(sys.callers[k]) || (
                    is_refused(sys.callers[k]) && has.len() == licenses[key].ip_limit)
                }
        }),
{
    lemma_turns_keep_step(
        licenses,
        ledger,
        verify_checksum,
        key,
        requests,
        retries,
        schedule,
    );
    let sys = after_turns(
        licenses,
        started(ledger, requests, verify_checksum, retries),
        schedule,
    );
    assert forall|k: int| 0 <= k < requests.len() implies {
        &&& is_admitted(#[trigger] sys.callers[k]) <==> sys.ledger.contains_key(
            (requests[k].address, licenses[key].id),
        )
        &&& sys.callers[k].0.phase is Finished ==> is_admitted(sys.callers[k]) || (is_refused(
            sys.callers[k],
        ) && addresses_of(sys.ledger, licenses[key].id).len() == licenses[key].ip_limit)
    } by {
        assert(caller_in_step(
            licenses,
            verify_checksum,
            key,
            requests[k],
            retries,
            sys.ledger,
            sys.callers[k],
        ));
    }
}

/// Exactly as many are admitted as there are places, under every
/// interleaving: once the engines of distinct new callers of one key have
/// all finished, in whatever order they took their turns, as many callers
/// have been admitted as the license had places left, or all of them if
/// they were fewer, and every other caller has been told that the limit is
/// reached. So of N + 1 new callers of a license with the limit N and no
/// address, exactly N are admitted and exactly one is refused.
pub proof fn law_every_interleaving_fills_the_places(
    licenses: Map<u128, LicenseView>,
    ledger: Map<(u32, i32), DateTimePlus>,
    verify_checksum: bool,
    key: u128,
    requests: Seq<Request>,
    retries: u32,
    schedule: Seq<(int, DateTimePlus)>,
)
    requires
        contend(licenses, ledger, key, requests),
        passes_throughout(licenses, verify_checksum, key, requests, schedule),
        retries >= 1,
        all_finished(
            after_turns(
                licenses,
                started(ledger, requests, verify_checksum, retries),
                schedule,
            ).callers,
        ),
    ensures
        ({
            let sys = after_turns(
                licenses,
                started(ledger, requests, verify_checksum, retries),
                schedule,
            );
            let places = licenses[key].ip_limit - addresses_of(ledger, licenses[key].id).len();
            let admitted = admitted_count(sys.callers, sys.callers.len());
            &&& admitted == if requests.len() <= places {
                requests.len() as int
            } else {
                places
            }
            &&& forall|k: int|
                0 <= k < requests.len() ==> is_admitted(#[trigger] sys.callers[k]) || is_refused(
                    sys.callers[k],
                )
        }),
{
    law_no_interleaving_exceeds_the_limit(
        licenses,
        ledger,
        verify_checksum,
        key,
        requests,
        retries,
        schedule,
    );
    let sys = after_turns(
        licenses,
        started(ledger, requests, verify_checksum, retries),
        schedule,
    );
    lemma_count_bounds(sys.callers, sys.callers.len());
    if forall|k: int| 0 <= k < requests.len() ==> is_admitted(#[trigger] sys.callers[k]) {
    } else {
        let k = choose|k: int| 0 <= k < requests.len() && !is_admitted(#[trigger] sys.callers[k]);
        assert(sys.callers[k].0.phase is Finished);
        assert(is_refused(sys.callers[k]));
    }
}

} // verus!
