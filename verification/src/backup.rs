//! Backing up a history file into a git repository: the commit message.

use vstd::prelude::*;

verus! {

/// The commit message: the one given, else `update`.
pub fn commit_message(message: Option<String>) -> (res: String)
    ensures
        message is Some ==> res == message->0,
        message is None ==> res@ == "update"@,
{
    match message {
        Some(m) => m,
        None => String::from_str("update"),
    }
}

} // verus!
