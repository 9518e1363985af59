use aikv::command::script::KeyLockManager;
use aikv::error::AikvError;
use std::time::Duration;

fn keys(items: &[&str]) -> Vec<String> {
    items.iter().map(|s| s.to_string()).collect()
}

#[test]
fn test_key_lock_manager_basic() {
    let mut manager = KeyLockManager::new(Duration::from_secs(5));

    // Lock some keys
    let guard = manager.lock_keys(&["key1".to_string(), "key2".to_string()]);
    assert!(guard.is_ok());

    // Locks are given back with the guard
    manager.release(guard.unwrap());

    // Can lock again
    let guard2 = manager.lock_keys(&["key1".to_string()]);
    assert!(guard2.is_ok());
}

#[test]
fn test_key_lock_manager_empty_keys() {
    let mut manager = KeyLockManager::new(Duration::from_secs(5));

    // Empty keys should work
    let guard = manager.lock_keys(&[]);
    assert!(guard.is_ok());
}

#[test]
fn test_key_lock_manager_duplicate_keys() {
    let mut manager = KeyLockManager::new(Duration::from_secs(5));

    // Duplicate keys should be deduplicated
    let guard = manager.lock_keys(&["key1".to_string(), "key2".to_string(), "key1".to_string()]);
    assert!(guard.is_ok());
    assert_eq!(guard.unwrap().keys(), &keys(&["key1", "key2"]));
}

#[test]
fn lock_order_sorts_and_dedups() {
    assert_eq!(
        KeyLockManager::lock_order(&keys(&["b", "a", "ab", "b", "A", ""])),
        keys(&["", "A", "a", "ab", "b"])
    );
    assert_eq!(KeyLockManager::lock_order(&keys(&["é", "z"])), keys(&["z", "é"]));
}

#[test]
fn held_key_blocks_other_requests() {
    let mut manager = KeyLockManager::new(Duration::from_secs(5));
    let g = manager.lock_keys(&keys(&["x", "y"])).unwrap();
    match manager.lock_keys(&keys(&["y", "z"])) {
        Err(AikvError::Script(m)) => assert_eq!(m, "Lock acquisition timeout after 5s"),
        other => panic!("unexpected {:?}", other.is_ok()),
    }
    assert!(manager.lock_keys(&keys(&["z"])).is_ok());
    manager.release(g);
    assert!(manager.lock_keys(&keys(&["y"])).is_ok());
}

#[test]
fn waiting_steps_keep_the_table() {
    let mut manager = KeyLockManager::new(Duration::from_millis(1500));
    let held = keys(&["k"]);
    assert!(manager.try_acquire(&held, None));
    assert!(!manager.try_acquire(&held, None));
    let ticket = manager.add_waiters(&held).unwrap();
    assert_eq!(ticket, 0);
    manager.unlock_keys(&held);
    // The waiter keeps its place; the key is free again, but a newcomer
    // must let the waiter go first.
    assert!(manager.keys_free(&held));
    assert!(!manager.is_turn(&held, None));
    assert!(manager.is_turn(&held, Some(ticket)));
    manager.remove_waiters(&held, ticket);
    assert!(manager.try_acquire(&held, None));
    match manager.lock_keys(&held) {
        Err(AikvError::Script(m)) => assert_eq!(m, "Lock acquisition timeout after 1.5s"),
        _ => panic!("expected a timeout"),
    }
}

#[test]
fn waiters_take_keys_first_come_first_served() {
    let mut manager = KeyLockManager::new(Duration::from_secs(5));
    let k = keys(&["k"]);
    let g = manager.lock_keys(&k).unwrap();
    let first = manager.add_waiters(&k).unwrap();
    let second = manager.add_waiters(&keys(&["j", "k"])).unwrap();
    assert!(first < second);
    // Nobody takes a held key.
    assert!(!manager.try_acquire(&k, Some(first)));
    manager.release(g);
    // The key is free: the later waiter and a newcomer wait for the first.
    assert!(!manager.try_acquire(&keys(&["j", "k"]), Some(second)));
    assert!(manager.lock_keys(&k).is_err());
    assert!(manager.try_acquire(&k, Some(first)));
    manager.unlock_keys(&k);
    // Now the second waiter is first in line for both of its keys.
    assert!(!manager.try_acquire(&k, None));
    assert!(manager.try_acquire(&keys(&["j", "k"]), Some(second)));
    manager.unlock_keys(&keys(&["j", "k"]));
    // No line is left: a newcomer goes at once.
    assert!(manager.lock_keys(&keys(&["j", "k"])).is_ok());
}

#[test]
fn a_waiter_that_gives_up_leaves_the_line() {
    let mut manager = KeyLockManager::new(Duration::from_secs(5));
    let k = keys(&["k"]);
    let g = manager.lock_keys(&k).unwrap();
    let first = manager.add_waiters(&k).unwrap();
    let second = manager.add_waiters(&k).unwrap();
    manager.remove_waiters(&k, first);
    manager.release(g);
    assert!(manager.try_acquire(&k, Some(second)));
}

#[test]
fn joining_and_leaving_a_line_changes_nothing() {
    let mut manager = KeyLockManager::new(Duration::from_secs(5));
    let k = keys(&["a", "b"]);
    let t = manager.add_waiters(&k).unwrap();
    assert!(!manager.lock_keys(&keys(&["a"])).is_ok());
    manager.remove_waiters(&k, t);
    assert!(manager.lock_keys(&keys(&["a"])).is_ok());
    assert!(manager.lock_keys(&keys(&["b"])).is_ok());
}
