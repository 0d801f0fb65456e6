//! The blocking and dispatch paths of the bridge.
//!
//! Both paths decide here, under the manager's lock, and hand every hardware
//! action back to the host kernel as an explicit plan: which device to
//! acknowledge, which task to make ready, which source to clear at the
//! controller, or which fatal fault to report. The host performs the plan;
//! nothing here touches hardware.

use vstd::prelude::*;
use crate::manager::{IrqManager, spec_after_dequeue, spec_dequeued, spec_inqueue, spec_register};

verus! {

/// Interrupt source line of the storage device's completion interrupt.
pub const STORAGE_IRQ: usize = 27;

/// Interrupt source line of the serial device's receive interrupt.
pub const SERIAL_IRQ: usize = 33;

/// The scheduling states a task crosses inside this subsystem.
#[derive(Clone, Copy, Debug, PartialEq, Eq)]
pub enum TaskStatus {
    Running,
    Ready,
    Waiting,
}

/// A schedulable unit as the bridge sees it: a stable index into the
/// kernel's task arena, plus the status this subsystem transitions.
#[derive(Clone, Copy, Debug, PartialEq, Eq)]
pub struct Task {
    pub id: usize,
    pub status: TaskStatus,
}

/// The devices of the fixed, compile-time source-to-driver table.
#[derive(Clone, Copy, Debug, PartialEq, Eq)]
pub enum Device {
    Storage,
    Serial,
}

/// The fixed source-to-driver table: which device owns a source, if any.
pub open spec fn spec_device_for(source: usize) -> Option<Device> {
    if source == STORAGE_IRQ {
        Some(Device::Storage)
    } else if source == SERIAL_IRQ {
        Some(Device::Serial)
    } else {
        None
    }
}

/// Looks a pending source up in the fixed source-to-driver table.
pub fn device_for(source: usize) -> (r: Option<Device>)
    ensures
        r == spec_device_for(source),
{
    if source == STORAGE_IRQ {
        Some(Device::Storage)
    } else if source == SERIAL_IRQ {
        Some(Device::Serial)
    } else {
        None
    }
}

/// What the trap path must do after one dispatch decision.
#[derive(Clone, Copy, Debug, PartialEq, Eq)]
pub enum DispatchPlan {
    /// The controller reported a source with no table entry: an
    /// unrecoverable hardware or configuration fault. The host decides
    /// whether to halt, restart, or log; the queues were not touched.
    UnknownInterrupt { source: usize },
    /// The source belongs to `device`. The host must invoke that device's
    /// interrupt acknowledgement, hand `woken` (if any) to the scheduler's
    /// ready queue, and finally clear `clear` at the controller for this
    /// core — also when nobody was woken, so a spurious interrupt never
    /// leaves the controller stuck.
    Handled { device: Device, woken: Option<usize>, clear: usize },
}

/// What the blocking path must do after one suspend decision.
#[derive(Clone, Copy, Debug, PartialEq, Eq)]
pub enum BlockOutcome {
    /// No task is current on the calling core: a corrupted scheduler state,
    /// fatal for the host.
    NoCurrentTask,
    /// The calling task is now Waiting. The host must context-switch away
    /// via the scheduler. `enqueued` reports whether a queue held the task;
    /// a false means the source was never registered and the task will
    /// never be woken from here.
    Suspended { task: Task, enqueued: bool },
}

/// Top-level interrupt service, one call per external-interrupt trap:
/// decides, from the source the controller reported pending, which device
/// to acknowledge and which waiting task (the head of the source's queue,
/// if any) to wake. Queues of every other source are left exactly as they
/// were. An unknown source leaves the whole manager untouched.
pub fn handler_ext(manager: &mut IrqManager, pending: usize) -> (plan: DispatchPlan)
    requires
        old(manager).wf(),
    ensures
        final(manager).wf(),
        spec_device_for(pending) is None ==> final(manager)@ == old(manager)@ && plan
            == (DispatchPlan::UnknownInterrupt { source: pending }),
        spec_device_for(pending) matches Some(device) ==> final(manager)@ == spec_after_dequeue(
            old(manager)@,
            pending,
        ) && plan == (DispatchPlan::Handled {
            device,
            woken: spec_dequeued(old(manager)@, pending),
            clear: pending,
        }),
        forall|other: usize|
            other != pending && old(manager)@.dom().contains(other)
                ==> final(manager)@.dom().contains(other)
                && final(manager)@[other] == old(manager)@[other],
{
    match device_for(pending) {
        None => DispatchPlan::UnknownInterrupt { source: pending },
        Some(device) => {
            let woken = manager.dequeue(pending);
            DispatchPlan::Handled { device, woken, clear: pending }
        },
    }
}

/// Suspend-and-enqueue, called by the running task that must wait on
/// `source`: marks the task Waiting and appends it to the source's queue,
/// strictly before the host's context switch, so a firing interrupt can
/// never observe the task about to wait without it already being queued.
/// Called with no current task, it reports the fatal invariant violation
/// and touches nothing.
pub fn wait_for_irq_and_run_next(
    manager: &mut IrqManager,
    source: usize,
    current: Option<Task>,
) -> (r: BlockOutcome)
    requires
        old(manager).wf(),
        current matches Some(task) ==> task.status is Running,
    ensures
        final(manager).wf(),
        current is None ==> r == BlockOutcome::NoCurrentTask && final(manager)@ == old(manager)@,
        current matches Some(task) ==> final(manager)@ == spec_inqueue(
            old(manager)@,
            source,
            task.id,
        ) && r == (BlockOutcome::Suspended {
            task: Task { id: task.id, status: TaskStatus::Waiting },
            enqueued: old(manager)@.dom().contains(source),
        }),
{
    match current {
        None => BlockOutcome::NoCurrentTask,
        Some(task) => {
            let waiting = Task { id: task.id, status: TaskStatus::Waiting };
            let enqueued = match manager.inqueue(source, waiting.id) {
                Ok(_) => true,
                Err(_) => false,
            };
            BlockOutcome::Suspended { task: waiting, enqueued }
        },
    }
}

/// Registers the fixed set of boot-time sources — storage-device completion
/// and serial-device receive — giving each an empty wait queue. Queues that
/// already exist are kept, so a second core running initialization never
/// strands a waiting task. Per-core controller work (software-interrupt
/// enable, priority threshold, per-source enable) is the host's part and
/// must precede unmasking interrupts.
pub fn irq_init(manager: &mut IrqManager)
    requires
        old(manager).wf(),
    ensures
        final(manager).wf(),
        final(manager)@ == spec_register(spec_register(old(manager)@, STORAGE_IRQ), SERIAL_IRQ),
{
    let _ = manager.register_irq(STORAGE_IRQ);
    let _ = manager.register_irq(SERIAL_IRQ);
}

} // verus!
