//! The interrupts of network devices that have no handler of their own.

use vstd::prelude::*;

verus! {

/// What a handler says of an interrupt.
#[derive(Clone, Copy, Debug, PartialEq, Eq, Structural)]
pub enum IrqReturn {
    /// It was not for the handler.
    NotHandled,
    /// It was for the handler.
    Handled,
}

/// What a handler asks for before it returns.
#[derive(Clone, Copy, Debug, PartialEq, Eq, Structural)]
pub enum IrqAction {
    /// Nothing.
    Nothing,
    /// That the thread be woken that polls the first network namespace.
    WakePollThread,
    /// That the instance with this number be polled.
    Schedule(u64),
}

/// A handler that lets all interfaces be polled.
#[derive(Clone, Copy, Debug, PartialEq, Eq, Structural)]
pub struct DefaultNetIrqHandler {}

impl DefaultNetIrqHandler {
    /// Every interrupt is for the handler, and has the interfaces polled.
    pub fn handle(&self) -> (r: (IrqReturn, IrqAction))
        ensures
            r == (IrqReturn::Handled, IrqAction::WakePollThread),
    {
        (IrqReturn::Handled, IrqAction::WakePollThread)
    }
}

} // verus!
