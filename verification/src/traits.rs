//! The status of an evaluation and the three capabilities of a behaviour.

use vstd::prelude::*;

verus! {

/// The result of evaluating a node, a service or a decorator.
#[derive(Debug, Clone, Copy, PartialEq, Eq, Structural)]
pub enum Status {
    Success,
    Failure,
    Running,
}

/// A behaviour that produces a status when it is ticked: one step of
/// evaluation. A behaviour that says no more succeeds.
pub trait Node {
    /// Whether the behaviour leaves its tick to the trait. A behaviour with a
    /// tick of its own that may do otherwise says no.
    open spec fn plain(&self) -> bool {
        true
    }

    fn tick(&self) -> (status: Status)
        ensures
            self.plain() ==> status == Status::Success,
    {
        Status::Success
    }
}

/// An action that runs whenever the node that owns it is ticked, whatever
/// that node's own result. A service that says no more succeeds.
pub trait Service {
    /// Whether the service leaves its serving to the trait. A service that
    /// may report otherwise says no.
    open spec fn plain(&self) -> bool {
        true
    }

    fn serve(&self) -> (status: Status)
        ensures
            self.plain() ==> status == Status::Success,
    {
        Status::Success
    }
}

/// A behaviour that turns the status of a single child into its own. A
/// decorator that says no more hands the status on.
pub trait Decorator {
    /// Whether the decorator leaves its decorating to the trait. A decorator
    /// that may change the status says no.
    open spec fn plain(&self) -> bool {
        true
    }

    fn decorate(&self, status: Status) -> (decorated: Status)
        ensures
            self.plain() ==> decorated == status,
    {
        status
    }
}

} // verus!
