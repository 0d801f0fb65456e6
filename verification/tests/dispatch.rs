use irq_bridge::manager::IrqManager;
use irq_bridge::protocol::{
    handler_ext, irq_init, wait_for_irq_and_run_next, BlockOutcome, Device, DispatchPlan, Task,
    TaskStatus, SERIAL_IRQ, STORAGE_IRQ,
};

#[test]
fn irq_init_registers_both_boot_sources() {
    let mut manager = IrqManager::new();
    irq_init(&mut manager);
    assert_eq!(manager.inqueue(STORAGE_IRQ, 1), Ok(()));
    assert_eq!(manager.inqueue(SERIAL_IRQ, 2), Ok(()));
    assert_eq!(manager.dequeue(STORAGE_IRQ), Some(1));
    assert_eq!(manager.dequeue(SERIAL_IRQ), Some(2));
}

#[test]
fn irq_init_twice_keeps_waiters() {
    let mut manager = IrqManager::new();
    irq_init(&mut manager);
    assert_eq!(manager.inqueue(SERIAL_IRQ, 3), Ok(()));
    irq_init(&mut manager);
    assert_eq!(manager.dequeue(SERIAL_IRQ), Some(3));
}

#[test]
fn dispatch_wakes_the_waiting_task() {
    // Scenario: register source, enqueue task X, dispatch for that source:
    // the device is acknowledged, X is woken and handed to the ready queue.
    let mut manager = IrqManager::new();
    irq_init(&mut manager);
    let outcome = wait_for_irq_and_run_next(
        &mut manager,
        SERIAL_IRQ,
        Some(Task { id: 7, status: TaskStatus::Running }),
    );
    assert_eq!(
        outcome,
        BlockOutcome::Suspended {
            task: Task { id: 7, status: TaskStatus::Waiting },
            enqueued: true,
        }
    );
    let plan = handler_ext(&mut manager, SERIAL_IRQ);
    assert_eq!(
        plan,
        DispatchPlan::Handled { device: Device::Serial, woken: Some(7), clear: SERIAL_IRQ }
    );
}

#[test]
fn spurious_dispatch_still_clears_the_source() {
    // Scenario: the controller reports a registered source whose queue is
    // empty; nothing is woken, nothing is fatal, the source is cleared.
    let mut manager = IrqManager::new();
    irq_init(&mut manager);
    let plan = handler_ext(&mut manager, STORAGE_IRQ);
    assert_eq!(
        plan,
        DispatchPlan::Handled { device: Device::Storage, woken: None, clear: STORAGE_IRQ }
    );
}

#[test]
fn dispatch_of_unknown_source_reports_the_fatal_fault() {
    // Scenario: the controller reports a source with no table entry.
    let mut manager = IrqManager::new();
    irq_init(&mut manager);
    let plan = handler_ext(&mut manager, 99);
    assert_eq!(plan, DispatchPlan::UnknownInterrupt { source: 99 });
}

#[test]
fn two_dispatches_wake_in_arrival_order() {
    // Scenario: enqueue X then Y; two successive dispatches wake X first,
    // then Y.
    let mut manager = IrqManager::new();
    irq_init(&mut manager);
    assert_eq!(manager.inqueue(SERIAL_IRQ, 10), Ok(()));
    assert_eq!(manager.inqueue(SERIAL_IRQ, 11), Ok(()));
    let first = handler_ext(&mut manager, SERIAL_IRQ);
    assert_eq!(
        first,
        DispatchPlan::Handled { device: Device::Serial, woken: Some(10), clear: SERIAL_IRQ }
    );
    let second = handler_ext(&mut manager, SERIAL_IRQ);
    assert_eq!(
        second,
        DispatchPlan::Handled { device: Device::Serial, woken: Some(11), clear: SERIAL_IRQ }
    );
}

#[test]
fn dispatch_leaves_unrelated_queues_alone() {
    let mut manager = IrqManager::new();
    irq_init(&mut manager);
    assert_eq!(manager.inqueue(STORAGE_IRQ, 4), Ok(()));
    assert_eq!(manager.inqueue(SERIAL_IRQ, 5), Ok(()));
    let plan = handler_ext(&mut manager, SERIAL_IRQ);
    assert_eq!(
        plan,
        DispatchPlan::Handled { device: Device::Serial, woken: Some(5), clear: SERIAL_IRQ }
    );
    // The storage queue still holds its waiter.
    assert_eq!(manager.dequeue(STORAGE_IRQ), Some(4));
}

#[test]
fn blocking_with_no_current_task_is_the_fatal_fault() {
    let mut manager = IrqManager::new();
    irq_init(&mut manager);
    let outcome = wait_for_irq_and_run_next(&mut manager, SERIAL_IRQ, None);
    assert_eq!(outcome, BlockOutcome::NoCurrentTask);
    // Nothing was queued by the failed call.
    assert_eq!(manager.dequeue(SERIAL_IRQ), None);
}

#[test]
fn blocking_on_unregistered_source_reports_the_dropped_task() {
    let mut manager = IrqManager::new();
    irq_init(&mut manager);
    let outcome = wait_for_irq_and_run_next(
        &mut manager,
        2,
        Some(Task { id: 6, status: TaskStatus::Running }),
    );
    assert_eq!(
        outcome,
        BlockOutcome::Suspended {
            task: Task { id: 6, status: TaskStatus::Waiting },
            enqueued: false,
        }
    );
}
