use vstd::prelude::*;

verus! {

/// How a long-running task of the service ended.
#[derive(Debug)]
pub enum TaskExit {
    /// It returned normally.
    Finished,
    /// It returned an error, described by the message.
    Failed(String),
    /// It panicked or was cancelled, described by the message.
    Aborted(String),
}

/// The log line for `name` ending with `outcome`.
pub open spec fn exit_message(name: Seq<char>, outcome: TaskExit) -> Seq<char> {
    match outcome {
        TaskExit::Finished => name + " has exited"@,
        TaskExit::Failed(_) => name + " failed"@,
        TaskExit::Aborted(_) => name + "' task failed to complete"@,
    }
}

/// The message to log when the task `task_name` ends with `outcome`.
pub fn report_exit(task_name: &str, outcome: &TaskExit) -> (r: String)
    ensures
        r@ == exit_message(task_name@, *outcome),
{
    let name = String::from_str(task_name);
    match outcome {
        TaskExit::Finished => name.concat(" has exited"),
        TaskExit::Failed(_) => name.concat(" failed"),
        TaskExit::Aborted(_) => name.concat("' task failed to complete"),
    }
}

} // verus!
