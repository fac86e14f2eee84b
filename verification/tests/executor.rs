use timely_query::executor::{Executor, ExecutorId, Executors, Message, QueryId};

fn registry() -> Executors {
    let mut executors = Executors::new();
    for id in 0..10u64 {
        executors.insert(1, Executor::new(ExecutorId(id)));
    }
    executors.insert(2, Executor::new(ExecutorId(100)));
    executors
}

fn ids(picked: &Vec<&Executor>) -> Vec<u64> {
    let mut ids: Vec<u64> = picked.iter().map(|e| e.id().0).collect();
    ids.sort();
    ids
}

#[test]
fn select_of_an_unknown_type_gives_none() {
    assert!(Executors::new().select(1, 3).is_none());
    assert!(registry().select(3, 1).is_none());
}

#[test]
fn select_draws_distinct_executors_of_the_type() {
    let executors = registry();
    for round in 0..50 {
        let amount = round % 11;
        let picked = executors.select(1, amount).unwrap();
        let mut seen = ids(&picked);
        assert_eq!(seen.len(), amount.min(10));
        assert!(seen.iter().all(|id| *id < 10));
        seen.dedup();
        assert_eq!(seen.len(), amount.min(10));
    }
}

#[test]
fn select_gives_all_where_more_are_asked_for() {
    let executors = registry();
    let picked = executors.select(1, 25).unwrap();
    assert_eq!(ids(&picked), (0..10).collect::<Vec<u64>>());
    let picked = executors.select(2, usize::MAX).unwrap();
    assert_eq!(ids(&picked), vec![100]);
    let picked = executors.select(2, 0).unwrap();
    assert!(picked.is_empty());
}

#[test]
fn select_reaches_every_executor() {
    let executors = registry();
    let mut seen = vec![false; 10];
    for _ in 0..400 {
        for executor in executors.select(1, 3).unwrap() {
            seen[executor.id().0 as usize] = true;
        }
    }
    assert!(seen.iter().all(|s| *s));
}

#[test]
fn insert_replaces_an_executor_with_the_same_id() {
    let mut executors = registry();
    executors.insert(2, Executor::new(ExecutorId(100)));
    let picked = executors.select(2, 5).unwrap();
    assert_eq!(ids(&picked), vec![100]);
}

#[test]
fn spawn_names_the_query_and_carries_its_configuration() {
    let executor = Executor::new(ExecutorId(4));
    assert_eq!(executor.id(), ExecutorId(4));
    let (to, msg) = executor.spawn(QueryId(9), &vec![1, 2, 3]);
    assert_eq!(to, ExecutorId(4));
    match msg {
        Message::Spawn(query, config) => {
            assert_eq!(query, QueryId(9));
            assert_eq!(config, vec![1, 2, 3]);
        }
    }
}
