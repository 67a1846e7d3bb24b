use vstd::prelude::*;

use crate::coverage::Coverage;
use crate::error::Error;
use crate::types::Type;

verus! {

/// Drives the bytecode virtual machine: executes the current target with
/// typed arguments and reports the observed trace, or the partial trace
/// with a classified failure. Implementations live with the VM, outside
/// this library; nothing here is assumed of them.
pub trait Runner {
    /// Runs the selected target.
    fn execute(&mut self, inputs: Vec<Type>) -> Result<Option<Coverage>, (Option<Coverage>, Error)>;

    /// Sets the target function.
    fn set_target_function(&mut self, function: &Type);

    /// Returns the target parameters: a schema vector whose variants carry
    /// default values and declare the expected shape.
    fn get_target_parameters(&self) -> Vec<Type>;

    /// Returns the name of the targeted module.
    fn get_target_module(&self) -> String;

    /// Returns the targeted function.
    fn get_target_function(&self) -> Type;

    /// Returns an upper bound on reachable program counters, used only as
    /// a progress denominator.
    fn get_max_coverage(&self) -> usize;
}

/// A runner over a persistent world: `setup` republishes the module and
/// re-runs the world initializer, producing a fresh state between call
/// sequences.
pub trait StatefulRunner: Runner {
    /// Resets the world.
    fn setup(&mut self);
}

} // verus!
