//! Writing the managed file: update it in place, and create it when that fails.
use vstd::prelude::*;

verus! {

/// A primitive of the file store that writes the managed file.
#[derive(Clone, Copy, PartialEq, Eq, Structural, Debug)]
pub enum StoreOp {
    /// Open the existing file and overwrite it.
    Update,
    /// Create the file; fails when it already exists.
    Create,
}

/// Where a write of the managed file stands.
pub enum WriteState {
    /// Perform `op` with this content next.
    Attempt(StoreOp, String),
    /// The content is written.
    Done,
    /// The write failed at `op`, with the store's message.
    Failed(StoreOp, String),
}

/// The first step of writing `content`: try to update the existing file.
pub fn start_write(content: String) -> (r: WriteState)
    ensures
        r matches WriteState::Attempt(op, c) && op == StoreOp::Update && c@ == content@,
{
    WriteState::Attempt(StoreOp::Update, content)
}

/// The step after performing `op` with `content`, given what the store answered.
/// A failed update is taken for an absent file and falls back to a create of the
/// same content; a failed create ends the write.
pub fn write_step(op: StoreOp, content: String, outcome: Result<(), String>) -> (r: WriteState)
    ensures
        outcome is Ok ==> r is Done,
        outcome is Err && op == StoreOp::Update ==> (r matches WriteState::Attempt(next, c)
            && next == StoreOp::Create && c@ == content@),
        outcome is Err && op == StoreOp::Create ==> (r matches WriteState::Failed(at, m)
            && at == StoreOp::Create && m@ == outcome->Err_0@),
{
    match outcome {
        Ok(()) => WriteState::Done,
        Err(e) => match op {
            StoreOp::Update => WriteState::Attempt(StoreOp::Create, content),
            StoreOp::Create => WriteState::Failed(StoreOp::Create, e),
        },
    }
}

} // verus!
