//! One user's journey through the system under load.
use vstd::prelude::*;

verus! {

/// A scenario is a single unit of work that is run over and over.
pub trait Scenario {
    /// One run of the scenario, under way.
    type Run;

    /// Whether the scenario may be run.
    spec fn ready(&self) -> bool;

    /// Whether `run` is something that running the scenario may give.
    spec fn gives(&self, run: Self::Run) -> bool;

    /// Runs the scenario.
    fn run(&self) -> (run: Self::Run)
        requires
            self.ready(),
        ensures
            self.gives(run),
    ;
}

impl<F, Fut> Scenario for F where F: Fn() -> Fut {
    type Run = Fut;

    open spec fn ready(&self) -> bool {
        call_requires(*self, ())
    }

    open spec fn gives(&self, run: Fut) -> bool {
        call_ensures(*self, (), run)
    }

    fn run(&self) -> (run: Fut) {
        self()
    }
}

} // verus!
