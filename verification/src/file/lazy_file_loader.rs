//! The loader's policy: how often a read is retried.

use crate::file::read_file::{retry_delay_millis, retry_step, ReadStep, MAX_RETRIES};
use crate::search::file::LoadError;
use vstd::prelude::*;

verus! {

/// The policy of the loader that reads files one at a time, on request: how
/// often it tries a read that failed again.
#[derive(Debug, Clone, Copy)]
pub struct LazyFileLoader {
    max_retries: u32,
}

impl LazyFileLoader {
    /// How often this loader tries a failed read again.
    pub closed spec fn retries(&self) -> u32 {
        self.max_retries
    }

    /// A loader that retries a failed read [`MAX_RETRIES`] times.
    pub fn new() -> (loader: Self)
        ensures
            loader.retries() == MAX_RETRIES,
    {
        LazyFileLoader { max_retries: MAX_RETRIES }
    }

    /// How often this loader tries a failed read again.
    pub fn max_retries(&self) -> (retries: u32)
        ensures
            retries == self.retries(),
    {
        self.max_retries
    }

    /// What this loader does after attempt number `attempt` (counted from 0)
    /// of a read.
    pub fn after_attempt(&self, attempt: u32, outcome: Result<String, String>) -> (step: ReadStep)
        ensures
            match outcome {
                Ok(content) => step == ReadStep::Done(content),
                Err(cause) => if attempt < self.retries() {
                    step == ReadStep::RetryAfter(retry_delay_millis(attempt) as u64)
                } else {
                    step == ReadStep::Failed(
                        LoadError::ReadFailed { attempts: (self.retries() + 1) as u64, cause },
                    )
                },
            },
    {
        retry_step(attempt, self.max_retries, outcome)
    }
}

impl Default for LazyFileLoader {
    fn default() -> (loader: Self)
        ensures
            loader.retries() == MAX_RETRIES,
    {
        Self::new()
    }
}

} // verus!
