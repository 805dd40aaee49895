//! Bringing one validator up to date before it answers a request.

use vstd::prelude::*;
use crate::base::BlockHeight;
use crate::error::NodeError;

verus! {

/// What to do after a validator answered.
#[derive(Clone, Copy, Debug, PartialEq, Eq, Structural)]
pub enum UpdateStep {
    /// Keep this answer.
    Finish,
    /// Upload the certificates the validator misses, from this height on, then
    /// send the request again.
    UploadAndRetry(BlockHeight),
    /// Wait for the cross-chain delay, then send the request again.
    WaitAndRetry,
}

/// The retries left for one request to one validator.
#[derive(Clone, Copy, Debug, PartialEq, Eq, Structural)]
pub struct ValidatorUpdater {
    pub retries_left: u64,
}

impl ValidatorUpdater {
    /// An updater that may send the request again `retries` times.
    pub fn new(retries: u64) -> (r: ValidatorUpdater)
        ensures
            r.retries_left == retries,
    {
        ValidatorUpdater { retries_left: retries }
    }

    /// Decides on an answer. While retries are left, a validator that misses
    /// an earlier block gets it uploaded and one that waits on another chain
    /// gets time; each retry uses one up. Any other answer, or any answer once
    /// no retry is left, is final.
    pub fn next_step<T>(&mut self, answer: &Result<T, NodeError>) -> (r: UpdateStep)
        ensures
            old(self).retries_left == 0 ==> r == UpdateStep::Finish && *final(self) == *old(self),
            old(self).retries_left > 0 ==> match answer {
                Err(NodeError::MissingPreviousBlock(h)) => r == UpdateStep::UploadAndRetry(*h)
                    && final(self).retries_left == old(self).retries_left - 1,
                Err(NodeError::MissingCrossChainUpdate) => r == UpdateStep::WaitAndRetry
                    && final(self).retries_left == old(self).retries_left - 1,
                _ => r == UpdateStep::Finish && *final(self) == *old(self),
            },
    {
        if self.retries_left == 0 {
            return UpdateStep::Finish;
        }
        match answer {
            Err(NodeError::MissingPreviousBlock(h)) => {
                self.retries_left = self.retries_left - 1;
                UpdateStep::UploadAndRetry(*h)
            },
            Err(NodeError::MissingCrossChainUpdate) => {
                self.retries_left = self.retries_left - 1;
                UpdateStep::WaitAndRetry
            },
            _ => UpdateStep::Finish,
        }
    }
}

} // verus!
