//! The work that a run launches.
use vstd::prelude::*;

verus! {

/// A source of tasks: each call of `create` hands out one unit of work for
/// the run to launch.
pub trait TaskFactory {
    /// One unit of work.
    type Task;

    /// Whether the factory may be asked for a task.
    spec fn ready(&self) -> bool;

    /// Whether `task` is something the factory may hand out.
    spec fn makes(&self, task: Self::Task) -> bool;

    /// Creates a new task.
    fn create(&self) -> (task: Self::Task)
        requires
            self.ready(),
        ensures
            self.makes(task),
    ;
}

impl<F, Task> TaskFactory for F where F: Fn() -> Task {
    type Task = Task;

    open spec fn ready(&self) -> bool {
        call_requires(*self, ())
    }

    open spec fn makes(&self, task: Task) -> bool {
        call_ensures(*self, (), task)
    }

    fn create(&self) -> (task: Task) {
        self()
    }
}

} // verus!
