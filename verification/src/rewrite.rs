//! Copying an object within the store, one rewrite call at a time.
//!
//! A rewrite call copies a limited number of bytes. As long as the copy
//! is not complete, the store answers with a token, and the next call
//! goes on from there by handing the token back.

use vstd::prelude::*;

verus! {

/// How far a rewrite has come after one call.
#[derive(Debug, PartialEq, Eq)]
pub enum RewriteProgress {
    /// The copy is not complete. The next call hands this token back.
    Incomplete(String),
    /// The copy is complete.
    Done,
}

/// How far a rewrite has come, from what the store answered to the last
/// call: whether the copy is done, and the token for the next call.
pub fn rewrite_progress(done: bool, rewrite_token: String) -> (progress: RewriteProgress)
    ensures
        match progress {
            RewriteProgress::Done => done,
            RewriteProgress::Incomplete(token) => !done && token@ == rewrite_token@,
        },
{
    if done {
        RewriteProgress::Done
    } else {
        RewriteProgress::Incomplete(rewrite_token)
    }
}

} // verus!
