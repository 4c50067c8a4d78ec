use sieve_engine::engine::Engine;
use sieve_engine::errors::{CompileFault, StoreError};

const ACCOUNT: u64 = 1;

fn script_source(n: usize) -> Vec<u8> {
    format!("require \"fileinto\"; fileinto \"{}\";", n).into_bytes()
}

fn engine_with_five() -> (Engine, Vec<u64>) {
    let mut e = Engine::new(1000);
    let mut ids = Vec::new();
    for i in 0..5 {
        let id = e
            .create(
                ACCOUNT,
                format!("script_{}", i + 1).into_bytes(),
                script_source(i + 1),
                false,
            )
            .unwrap();
        ids.push(id);
    }
    (e, ids)
}

#[test]
fn validate_ok_and_error() {
    let e = Engine::new(1000);
    assert!(e.validate(ACCOUNT, &b"keep;".to_vec()).is_ok());
    assert_eq!(
        e.validate(ACCOUNT, &b"frobnicate;".to_vec()),
        Err(CompileFault::UnknownCommand)
    );
}

#[test]
fn create_five_deactivated_query_sorted_by_name() {
    let (e, ids) = engine_with_five();
    let listed = e.store.query(ACCOUNT, Some(false));
    assert_eq!(listed.len(), 5);
    // created in name order, so creation order == name order
    assert_eq!(listed, ids);
    for (pos, id) in listed.iter().enumerate() {
        let sc = e.store.get(ACCOUNT, *id).unwrap();
        assert_eq!(sc.name, format!("script_{}", pos + 1).into_bytes());
        assert_eq!(sc.source, script_source(pos + 1));
        assert!(!sc.active);
    }
}

#[test]
fn query_orders_by_name_not_creation() {
    let mut e = Engine::new(1000);
    let id_b = e.create(ACCOUNT, b"bravo".to_vec(), b"keep;".to_vec(), false).unwrap();
    let id_a = e.create(ACCOUNT, b"alpha".to_vec(), b"keep;".to_vec(), false).unwrap();
    let id_c = e.create(ACCOUNT, b"charlie".to_vec(), b"keep;".to_vec(), false).unwrap();
    assert_eq!(e.store.query(ACCOUNT, None), vec![id_a, id_b, id_c]);
}

#[test]
fn activate_twice_leaves_exactly_that_script_active() {
    let (mut e, ids) = engine_with_five();
    for _ in 0..2 {
        e.activate(ACCOUNT, *ids.last().unwrap()).unwrap();
        assert_eq!(e.store.query(ACCOUNT, Some(true)), vec![*ids.last().unwrap()]);
    }
    e.activate(ACCOUNT, ids[0]).unwrap();
    assert_eq!(e.store.query(ACCOUNT, Some(true)), vec![ids[0]]);
}

#[test]
fn destroy_active_fails_inactive_succeeds() {
    let (mut e, ids) = engine_with_five();
    e.activate(ACCOUNT, ids[0]).unwrap();
    assert_eq!(e.destroy(ACCOUNT, ids[0]), Err(StoreError::ScriptIsActive));
    // still there
    assert!(e.store.get(ACCOUNT, ids[0]).is_some());
    // an inactive one goes away
    assert_eq!(e.destroy(ACCOUNT, ids[1]), Ok(()));
    assert!(e.store.get(ACCOUNT, ids[1]).is_none());
    assert!(!e.store.query(ACCOUNT, None).contains(&ids[1]));
}

#[test]
fn deactivate_all_is_idempotent() {
    let (mut e, ids) = engine_with_five();
    e.activate(ACCOUNT, ids[2]).unwrap();
    e.deactivate_all(ACCOUNT);
    assert_eq!(e.store.query(ACCOUNT, Some(true)), Vec::<u64>::new());
    e.deactivate_all(ACCOUNT);
    assert_eq!(e.store.query(ACCOUNT, Some(true)), Vec::<u64>::new());
}

#[test]
fn at_most_one_active_under_mixed_operations() {
    // exercise create/activate/deactivate/destroy across two accounts and
    // check the activation invariant after every step
    let mut e = Engine::new(1000);
    let mut ids: Vec<(u64, u64)> = Vec::new();
    for step in 0..40u64 {
        let account = step % 3;
        match step % 7 {
            0 | 3 => {
                if e.store.next_id < u64::MAX {
                    let id = e
                        .create(
                            account,
                            format!("s{}", step).into_bytes(),
                            b"keep;".to_vec(),
                            step % 2 == 0,
                        )
                        .unwrap();
                    ids.push((account, id));
                }
            }
            1 | 4 => {
                if let Some(&(a, id)) = ids.get((step as usize) % (ids.len().max(1))) {
                    let _ = e.activate(a, id);
                }
            }
            2 => {
                e.deactivate_all(account);
            }
            _ => {
                if let Some(&(a, id)) = ids.first() {
                    if e.destroy(a, id).is_ok() {
                        ids.remove(0);
                    }
                }
            }
        }
        for a in 0..3 {
            assert!(e.store.query(a, Some(true)).len() <= 1);
        }
    }
}

#[test]
fn create_rejects_invalid_script_and_stores_nothing() {
    let mut e = Engine::new(1000);
    let r = e.create(ACCOUNT, b"bad".to_vec(), b"fileinto \"unclosed".to_vec(), true);
    assert_eq!(r, Err(StoreError::InvalidScript(CompileFault::UnterminatedString)));
    assert_eq!(e.store.query(ACCOUNT, None), Vec::<u64>::new());
}

#[test]
fn create_rejects_duplicate_name() {
    let mut e = Engine::new(1000);
    e.create(ACCOUNT, b"one".to_vec(), b"keep;".to_vec(), false).unwrap();
    assert_eq!(
        e.create(ACCOUNT, b"one".to_vec(), b"discard;".to_vec(), false),
        Err(StoreError::ScriptNameInUse)
    );
}
