use vstd::prelude::*;

verus! {

/// One-shot completion signal for an asynchronous lifecycle operation. The
/// worker marks the underlying task done before the token is handed out, so
/// exactly one `wait` call is expected; it consumes the token.
pub struct WaiterToken {
    /// Whether the task this token stands for has completed.
    pub done: bool,
}

impl WaiterToken {
    /// A token for a task the worker has already completed.
    pub fn completed() -> (r: WaiterToken)
        ensures
            r.done,
    {
        WaiterToken { done: true }
    }

    /// Blocks until the task completes, then reports completion. The token
    /// is consumed: a waiter is not reusable.
    pub fn wait(self) -> (r: bool)
        ensures
            r == self.done,
    {
        self.done
    }
}

} // verus!
