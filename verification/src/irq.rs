//! Interrupt dispatch: a table of handlers by interrupt number.
//!
//! The numbers are the board's, the controller is the architecture's. A
//! handler is named by a number that its owner understands.
use crate::config;
use vstd::prelude::*;

verus! {

/// Interrupts that can have a handler.
pub const MAX_IRQS: usize = config::MAX_IRQS;

/// The handlers.
pub struct IrqTable {
    /// The handler of each interrupt.
    pub handlers: [Option<usize>; MAX_IRQS],
}

/// Why a handler could not be registered.
#[derive(Debug, Clone, Copy, PartialEq, Eq, Structural)]
pub enum IrqError {
    /// There is no such interrupt.
    OutOfRange,
}

/// What the interrupt controller is asked to do.
#[derive(Debug, Clone, Copy, PartialEq, Eq, Structural)]
pub enum ControllerRequest {
    /// Let the interrupt through.
    Enable {
        /// Its number.
        irq: u32,
    },
    /// Hold the interrupt back.
    Disable {
        /// Its number.
        irq: u32,
    },
    /// Set the interrupt's priority; zero is the highest.
    SetPriority {
        /// Its number.
        irq: u32,
        /// The priority, in the controller's own terms.
        priority: u8,
    },
}

impl IrqTable {
    /// The handler of an interrupt.
    pub open spec fn handler(&self, irq: int) -> Option<usize> {
        if 0 <= irq < MAX_IRQS {
            self.handlers[irq]
        } else {
            None
        }
    }

    /// No interrupt has a handler.
    pub open spec fn vacant(&self) -> bool {
        forall|i: int| 0 <= i < MAX_IRQS ==> #[trigger] self.handlers[i] is None
    }

    /// No handlers.
    pub fn new() -> (r: Self)
        ensures
            forall|i: int| r.handler(i) is None,
    {
        IrqTable { handlers: [None; MAX_IRQS] }
    }
}

/// Make `handler` the handler of an interrupt, in place of any before.
pub fn register(t: &mut IrqTable, irq_num: u32, handler: usize) -> (r: Result<(), IrqError>)
    ensures
        r is Err <==> irq_num >= MAX_IRQS,
        r is Err ==> r == Err::<(), IrqError>(IrqError::OutOfRange) && *final(t) == *old(t),
        r is Ok ==> final(t).handlers@ == old(t).handlers@.update(irq_num as int, Some(handler)),
        r is Ok ==> forall|i: int| #[trigger]
            final(t).handler(i) == (if i == irq_num {
                Some(handler)
            } else {
                old(t).handler(i)
            }),
{
    if irq_num as usize >= MAX_IRQS {
        return Err(IrqError::OutOfRange);
    }
    t.handlers[irq_num as usize] = Some(handler);
    Ok(())
}

/// Remove the handler of an interrupt, if there is one.
pub fn unregister(t: &mut IrqTable, irq_num: u32)
    ensures
        irq_num < MAX_IRQS ==> final(t).handlers@ == old(t).handlers@.update(irq_num as int, None),
        irq_num >= MAX_IRQS ==> *final(t) == *old(t),
        forall|i: int| #[trigger]
            final(t).handler(i) == (if i == irq_num {
                None
            } else {
                old(t).handler(i)
            }),
{
    if (irq_num as usize) < MAX_IRQS {
        t.handlers[irq_num as usize] = None;
    }
}

/// Ask the controller to let an interrupt through.
pub fn enable(irq_num: u32) -> (r: ControllerRequest)
    ensures
        r == (ControllerRequest::Enable { irq: irq_num }),
{
    ControllerRequest::Enable { irq: irq_num }
}

/// Ask the controller to hold an interrupt back.
pub fn disable(irq_num: u32) -> (r: ControllerRequest)
    ensures
        r == (ControllerRequest::Disable { irq: irq_num }),
{
    ControllerRequest::Disable { irq: irq_num }
}

/// Ask the controller for a priority.
pub fn set_priority(irq_num: u32, priority: u8) -> (r: ControllerRequest)
    ensures
        r == (ControllerRequest::SetPriority { irq: irq_num, priority }),
{
    ControllerRequest::SetPriority { irq: irq_num, priority }
}

/// The handler to call for an interrupt that fired; none for an interrupt
/// that has none, which is ignored.
pub fn dispatch(t: &IrqTable, irq_num: u32) -> (r: Option<usize>)
    ensures
        r == t.handler(irq_num as int),
{
    if irq_num as usize >= MAX_IRQS {
        return None;
    }
    t.handlers[irq_num as usize]
}

/// Forget every handler.
pub fn reset(t: &mut IrqTable)
    ensures
        forall|i: int| final(t).handler(i) is None,
        final(t).vacant(),
{
    *t = IrqTable::new();
    assert forall|i: int| 0 <= i < MAX_IRQS implies #[trigger] t.handlers[i] is None by {
        assert(t.handler(i) is None);
    }
}

/// An interrupt is dispatched to the handler that was last registered for it,
/// and to none once that was removed; other interrupts keep theirs.
pub proof fn law_interrupt_finds_its_handler(
    t: &mut IrqTable,
    u: &mut IrqTable,
    irq: u32,
    other: u32,
    handler: usize,
    r: Result<(), IrqError>,
    found: Option<usize>,
    found_before: Option<usize>,
    found_other: Option<usize>,
    gone: Option<usize>,
    gone_other: Option<usize>,
)
    requires
        call_ensures(dispatch, (&*old(t), other), found_before),
        call_ensures(register, (t, irq, handler), r),
        call_ensures(dispatch, (&*final(t), irq), found),
        call_ensures(dispatch, (&*final(t), other), found_other),
        *old(u) == *final(t),
        call_ensures(unregister, (u, irq), ()),
        call_ensures(dispatch, (&*final(u), irq), gone),
        call_ensures(dispatch, (&*final(u), other), gone_other),
        other != irq,
    ensures
        r is Ok <==> irq < 64,
        r is Ok ==> found == Some(handler),
        r is Err ==> found is None,
        gone is None,
        found_other == found_before,
        gone_other == found_before,
{
    if irq < MAX_IRQS {
        assert(final(t).handlers@[irq as int] == final(t).handlers[irq as int]);
        assert(final(u).handlers@[irq as int] == final(u).handlers[irq as int]);
    }
    if other < MAX_IRQS {
        assert(final(t).handlers@[other as int] == final(t).handlers[other as int]);
        assert(final(u).handlers@[other as int] == final(u).handlers[other as int]);
    }
    assert(final(t).handler(irq as int) == found);
    assert(final(t).handler(other as int) == found_other);
    assert(final(u).handler(irq as int) == gone);
    assert(final(u).handler(other as int) == gone_other);
}

/// After a reset no interrupt has a handler.
pub proof fn law_reset_forgets_handlers(t: &mut IrqTable, irq: u32, found: Option<usize>)
    requires
        call_ensures(reset, (t,), ()),
        call_ensures(dispatch, (&*final(t), irq), found),
    ensures
        found is None,
{
    let table = *final(t);
    if irq < MAX_IRQS {
        assert(table.handlers[irq as int] is None);
    }
}

/// What is asked of the controller names the interrupt, and the priority where
/// there is one.
pub proof fn law_requests_name_the_interrupt(
    irq_num: u32,
    priority: u8,
    on: ControllerRequest,
    off: ControllerRequest,
    rank: ControllerRequest,
)
    requires
        call_ensures(enable, (irq_num,), on),
        call_ensures(disable, (irq_num,), off),
        call_ensures(set_priority, (irq_num, priority), rank),
    ensures
        on == (ControllerRequest::Enable { irq: irq_num }),
        off == (ControllerRequest::Disable { irq: irq_num }),
        rank == (ControllerRequest::SetPriority { irq: irq_num, priority }),
{
}

} // verus!
