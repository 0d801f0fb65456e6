use irq_bridge::manager::{IrqError, IrqManager};

#[test]
fn new_manager_has_no_queues() {
    let mut manager = IrqManager::new();
    assert_eq!(manager.dequeue(0), None);
    assert_eq!(manager.dequeue(27), None);
}

#[test]
fn registered_empty_queue_dequeues_empty() {
    // Scenario: register sources {5, 9}; dequeue(5) reports empty.
    let mut manager = IrqManager::new();
    assert_eq!(manager.register_irq(5), Ok(()));
    assert_eq!(manager.register_irq(9), Ok(()));
    assert_eq!(manager.dequeue(5), None);
}

#[test]
fn fifo_order_on_one_source() {
    let mut manager = IrqManager::new();
    assert_eq!(manager.register_irq(5), Ok(()));
    assert_eq!(manager.inqueue(5, 1), Ok(()));
    assert_eq!(manager.inqueue(5, 2), Ok(()));
    assert_eq!(manager.inqueue(5, 3), Ok(()));
    assert_eq!(manager.dequeue(5), Some(1));
    assert_eq!(manager.dequeue(5), Some(2));
    assert_eq!(manager.dequeue(5), Some(3));
    assert_eq!(manager.dequeue(5), None);
}

#[test]
fn dequeue_on_unregistered_source_is_empty() {
    let mut manager = IrqManager::new();
    assert_eq!(manager.register_irq(5), Ok(()));
    assert_eq!(manager.inqueue(5, 1), Ok(()));
    assert_eq!(manager.dequeue(9), None);
    // The registered queue is untouched by the miss.
    assert_eq!(manager.dequeue(5), Some(1));
}

#[test]
fn inqueue_on_unregistered_source_drops_and_reports() {
    let mut manager = IrqManager::new();
    assert_eq!(manager.inqueue(9, 4), Err(IrqError::UnknownSource));
    // The task was dropped: registering the source afterwards finds an
    // empty queue, not the dropped task.
    assert_eq!(manager.register_irq(9), Ok(()));
    assert_eq!(manager.dequeue(9), None);
}

#[test]
fn double_registration_is_rejected_and_keeps_waiters() {
    let mut manager = IrqManager::new();
    assert_eq!(manager.register_irq(5), Ok(()));
    assert_eq!(manager.inqueue(5, 8), Ok(()));
    assert_eq!(manager.register_irq(5), Err(IrqError::AlreadyRegistered));
    // The waiting task survived the second registration attempt.
    assert_eq!(manager.dequeue(5), Some(8));
}

#[test]
fn queues_of_different_sources_are_independent() {
    let mut manager = IrqManager::new();
    assert_eq!(manager.register_irq(5), Ok(()));
    assert_eq!(manager.register_irq(9), Ok(()));
    assert_eq!(manager.inqueue(5, 1), Ok(()));
    assert_eq!(manager.inqueue(9, 2), Ok(()));
    assert_eq!(manager.dequeue(5), Some(1));
    assert_eq!(manager.dequeue(9), Some(2));
    assert_eq!(manager.dequeue(5), None);
    assert_eq!(manager.dequeue(9), None);
}
