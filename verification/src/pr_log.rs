//! The `pr-log` command, which is announced and not yet there.

use vstd::prelude::*;

verus! {

/// Arguments of the `pr-log` command.
#[derive(Clone, Debug, PartialEq, Eq)]
pub struct PrLogArgs {
    /// The tag to start from; the latest tag where there is none.
    pub since_tag: Option<String>,
    /// The file to write to; standard output where there is none.
    pub output: Option<String>,
    /// The owner of the repository.
    pub owner: Option<String>,
    /// The name of the repository.
    pub repo: Option<String>,
}

/// Errors of the `pr-log` command.
#[derive(Clone, Copy, Debug, PartialEq, Eq, Structural)]
pub enum PrLogError {
    /// The command does nothing yet.
    NotImplemented,
}

impl PrLogError {
    /// The message of this error.
    pub fn to_string(&self) -> (message: String)
        ensures
            message@
                == "PR log generation is not yet implemented. This feature will be available in a future release."@,
    {
        "PR log generation is not yet implemented. This feature will be available in a future release.".to_owned()
    }
}

/// Generates the log of merged pull requests: not yet. Whatever the
/// arguments, the answer is `NotImplemented`.
pub fn pr_log(_args: PrLogArgs) -> (result: Result<(), PrLogError>)
    ensures
        result == Err::<(), PrLogError>(PrLogError::NotImplemented),
{
    Err(PrLogError::NotImplemented)
}

} // verus!
