//! The `badges` command, which is announced and not yet there.

use vstd::prelude::*;

verus! {

/// Arguments of the `badges` command.
#[derive(Clone, Debug, PartialEq, Eq)]
pub struct BadgesArgs {
    /// The kind of badge to generate; `all` where none is asked for.
    pub kind: String,
    /// The file to write to; standard output where there is none.
    pub output: Option<String>,
}

/// Errors of the `badges` command.
#[derive(Clone, Copy, Debug, PartialEq, Eq, Structural)]
pub enum BadgesError {
    /// The command does nothing yet.
    NotImplemented,
}

impl BadgesError {
    /// The message of this error.
    pub fn to_string(&self) -> (message: String)
        ensures
            message@
                == "Badge generation is not yet implemented. This feature will be available in a future release."@,
    {
        "Badge generation is not yet implemented. This feature will be available in a future release.".to_owned()
    }
}

/// Generates badges: not yet. Whatever the arguments, the answer is
/// `NotImplemented`.
pub fn badges(_args: BadgesArgs) -> (result: Result<(), BadgesError>)
    ensures
        result == Err::<(), BadgesError>(BadgesError::NotImplemented),
{
    Err(BadgesError::NotImplemented)
}

} // verus!
