//! Reading a file with a bounded number of retries: the decisions. The reads
//! themselves, and the pauses between them, are the caller's.

use crate::search::file::{File, LoadError};
use vstd::prelude::*;

verus! {

/// How often a read that failed is tried again.
pub const MAX_RETRIES: u32 = 3;

/// What follows an attempt to read a file.
#[derive(Debug)]
pub enum ReadStep {
    /// The file was read; this is its text.
    Done(String),
    /// Wait this many milliseconds, then read again.
    RetryAfter(u64),
    /// Give up with this error.
    Failed(LoadError),
}

/// The pause, in milliseconds, after the failed attempt number `attempt`
/// (the first attempt is number 0): 10, 20, 30, ...
pub open spec fn retry_delay_millis(attempt: u32) -> nat {
    (10 * (attempt + 1)) as nat
}

/// Decides what follows attempt number `attempt` (counted from 0) of a read
/// that may be retried `max_retries` times: the text where it was read, a
/// pause and another attempt where retries are left, else the failure with
/// the number of attempts made and the last cause.
pub fn retry_step(attempt: u32, max_retries: u32, outcome: Result<String, String>) -> (step:
    ReadStep)
    ensures
        match outcome {
            Ok(content) => step == ReadStep::Done(content),
            Err(cause) => if attempt < max_retries {
                step == ReadStep::RetryAfter(retry_delay_millis(attempt) as u64)
            } else {
                step == ReadStep::Failed(
                    LoadError::ReadFailed { attempts: (max_retries + 1) as u64, cause },
                )
            },
        },
{
    match outcome {
        Ok(content) => ReadStep::Done(content),
        Err(cause) => {
            if attempt < max_retries {
                ReadStep::RetryAfter(10 * (attempt as u64 + 1))
            } else {
                ReadStep::Failed(LoadError::ReadFailed { attempts: max_retries as u64 + 1, cause })
            }
        },
    }
}

/// The document for `path` from what reading it gave.
pub fn path_to_file(path: &str, read: Result<String, LoadError>) -> (r: Result<File, LoadError>)
    ensures
        match read {
            Ok(content) => r matches Ok(file) && file.path@ == path@ && file.content == content,
            Err(e) => r == Err::<File, LoadError>(e),
        },
{
    match read {
        Ok(content) => Ok(File::new(path.to_owned(), content)),
        Err(e) => Err(e),
    }
}

} // verus!
