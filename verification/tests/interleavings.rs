use licenseptium::date::DateTimePlus;
use licenseptium::engine::{Action, Engine};
use licenseptium::error::ValidationError;
use licenseptium::request::Request;
use licenseptium::store::Store;

const NOW: DateTimePlus = DateTimePlus(1_000);

fn store_with_limit(limit: i32) -> (Store, i32) {
    let mut store = Store::new();
    let id = store
        .issue(9, "shared".to_owned(), limit, vec![], DateTimePlus::infinity(), NOW)
        .unwrap();
    (store, id)
}

fn callers(n: usize, retries: u32) -> Vec<(Engine, Action)> {
    (0..n)
        .map(|i| {
            let request = Request { key: 9, address: 100 + i as u32, checksum: None };
            Engine::start(request, false, retries)
        })
        .collect()
}

/// Lets the engines take their turns as `pick` chooses among those that
/// have not finished, and gives back their outcomes.
fn interleave(
    store: &mut Store,
    mut engines: Vec<(Engine, Action)>,
    mut pick: impl FnMut(usize) -> usize,
) -> Vec<Result<bool, ValidationError>> {
    loop {
        let waiting: Vec<usize> = (0..engines.len())
            .filter(|&i| !matches!(engines[i].1, Action::Finish(_)))
            .collect();
        if waiting.is_empty() {
            break;
        }
        let turn = waiting[pick(waiting.len()) % waiting.len()];
        let action = engines[turn].1;
        engines[turn].1 = store.take_turn(&mut engines[turn].0, action, NOW);
    }
    engines
        .iter()
        .map(|(_, action)| match action {
            Action::Finish(outcome) => *outcome,
            _ => unreachable!(),
        })
        .collect()
}

fn admitted(outcomes: &[Result<bool, ValidationError>]) -> usize {
    outcomes.iter().filter(|o| **o == Ok(true)).count()
}

fn refused(outcomes: &[Result<bool, ValidationError>]) -> usize {
    outcomes
        .iter()
        .filter(|o| **o == Err(ValidationError::ReachedActivationLimit))
        .count()
}

#[test]
fn engines_in_lockstep_fill_the_limit_and_no_more() {
    for limit in 1..6usize {
        let (mut store, id) = store_with_limit(limit as i32);
        let mut turn = 0;
        let outcomes = interleave(&mut store, callers(limit + 1, 1), |_| {
            turn += 1;
            turn - 1
        });
        assert_eq!(admitted(&outcomes), limit);
        assert_eq!(refused(&outcomes), 1);
        assert_eq!(store.activations(id), limit);
    }
}

#[test]
fn engines_in_any_order_fill_the_limit_and_no_more() {
    for seed in 0..200u64 {
        for limit in 1..5usize {
            let (mut store, id) = store_with_limit(limit as i32);
            let mut state = seed * 2_654_435_761 + limit as u64;
            let outcomes = interleave(&mut store, callers(limit + 1, 1), |_| {
                state = state
                    .wrapping_mul(6_364_136_223_846_793_005)
                    .wrapping_add(1_442_695_040_888_963_407);
                (state >> 33) as usize
            });
            assert_eq!(admitted(&outcomes), limit, "seed {} limit {}", seed, limit);
            assert_eq!(refused(&outcomes), 1, "seed {} limit {}", seed, limit);
            assert_eq!(store.activations(id), limit);
        }
    }
}

#[test]
fn more_callers_than_places_are_refused_in_any_order() {
    for seed in 0..50u64 {
        let (mut store, id) = store_with_limit(3);
        let mut state = seed;
        let outcomes = interleave(&mut store, callers(8, 1), |_| {
            state = state
                .wrapping_mul(6_364_136_223_846_793_005)
                .wrapping_add(1_442_695_040_888_963_407);
            (state >> 33) as usize
        });
        assert_eq!(admitted(&outcomes), 3);
        assert_eq!(refused(&outcomes), 5);
        assert_eq!(store.activations(id), 3);
    }
}

#[test]
fn without_a_retry_a_late_writer_is_told_of_a_store_failure() {
    let (mut store, id) = store_with_limit(1);
    let mut turn = 0;
    let outcomes = interleave(&mut store, callers(2, 0), |_| {
        turn += 1;
        turn - 1
    });
    assert_eq!(
        outcomes,
        vec![Ok(true), Err(ValidationError::DatabaseError)]
    );
    assert_eq!(store.activations(id), 1);
}

#[test]
fn a_record_for_a_revoked_license_is_a_conflict() {
    let (mut store, id) = store_with_limit(2);
    let (mut engine, action) = callers(1, 1).remove(0);
    let event = store.serve(action, NOW).unwrap();
    let action = engine.step(event, NOW);
    let event = store.serve(action, NOW).unwrap();
    let action = engine.step(event, NOW);
    assert_eq!(action, Action::Record { license_id: id, address: 100 });
    assert!(store.revoke(9));
    let event = store.serve(action, NOW).unwrap();
    let action = engine.step(event, NOW);
    assert_eq!(action, Action::FindLicense { key: 9 });
    let event = store.serve(action, NOW).unwrap();
    let action = engine.step(event, NOW);
    assert_eq!(action, Action::Finish(Err(ValidationError::InvalidKey)));
    assert_eq!(store.serve(action, NOW), None);
    assert_eq!(store.take_turn(&mut engine, action, NOW), action);
    assert_eq!(store.activations(id), 0);
}
