use frp::In;
use frp::StoreLast;
use frp::Unbounded;

#[test]
fn latch_last_overwrite() {
    // three pushes before any round runs: only the most recent stays visible
    let mut slot: StoreLast<String> = StoreLast::default();
    assert!(slot.try_get().is_none());

    assert!(slot.push(&"e1".to_string()));
    assert!(slot.push(&"e2".to_string()));
    assert!(slot.push(&"e3".to_string()));

    assert_eq!(slot.try_get(), Some(&"e3".to_string()));
    assert_eq!(slot.get(), &"e3".to_string());
}

#[test]
fn store_last_new_take() {
    let mut slot = StoreLast::new(5u64);
    assert_eq!(slot.try_get(), Some(&5));
    assert_eq!(slot.take(), Some(5));
    assert_eq!(slot.take(), None);
    assert!(slot.try_get().is_none());
}

#[test]
fn unbounded_ordering() {
    // three pushes are buffered in arrival order
    let mut queue: Unbounded<String> = Unbounded::default();
    assert_eq!(queue.len(), 0);

    assert!(queue.push(&"e1".to_string()));
    assert!(queue.push(&"e2".to_string()));
    assert!(queue.push(&"e3".to_string()));

    assert_eq!(queue.len(), 3);
    assert_eq!(queue.get(0), &"e1".to_string());
    assert_eq!(queue.get(1), &"e2".to_string());
    assert_eq!(queue.get(2), &"e3".to_string());

    let drained = queue.take_all();
    assert_eq!(
        drained,
        vec!["e1".to_string(), "e2".to_string(), "e3".to_string()]
    );
    assert_eq!(queue.len(), 0);
}
