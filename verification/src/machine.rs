//! Steps of a production line: machines and manual tasks.

use vstd::prelude::*;

verus! {

/// How can a machine be controlled?
/// Does it need to be controlled by a human or can it be controlled by a
/// computer?
#[derive(Debug, Clone, Copy, PartialEq, Eq, Structural)]
pub enum MachineControl {
    /// The machine is controlled by a human.
    Human,
    /// The machine is controlled by a computer.
    Computer,
}

/// The kind of a step.
#[derive(Debug, Clone, Copy, PartialEq, Eq, Structural)]
pub enum StepType {
    /// A machine that can be turned on and off.
    Machine,
    /// A task that can be done by a worker.
    Task,
}

} // verus!
