//! A source of upload data that gives up part-way, to show how an upload
//! is ended by its source.

use vstd::prelude::*;
use vstd::string::StringExecFns;
use crate::text::append_decimal;
use crate::text::decimal;

verus! {

/// Why a source stopped delivering data.
#[derive(Clone, Copy, Debug, PartialEq, Eq, Structural)]
pub enum MyError {
    ExpectedProblem,
    OhNoes,
}

impl MyError {
    /// What the error says to a reader.
    pub open spec fn text(self) -> Seq<char> {
        match self {
            MyError::ExpectedProblem => "this kind of thing happens"@,
            MyError::OhNoes => "oh noes! something terrible happened"@,
        }
    }

    /// What the error says to a reader.
    pub fn message(&self) -> (message: String)
        ensures
            message@ == self.text(),
    {
        match self {
            MyError::ExpectedProblem => String::from_str("this kind of thing happens"),
            MyError::OhNoes => String::from_str("oh noes! something terrible happened"),
        }
    }
}

/// The number of the call at which the source fails.
pub const FAILING_CALL: u32 = 42;

/// Line `n` of the data that the source delivers.
pub open spec fn test_line(n: nat) -> Seq<char> {
    "test data for the example "@ + decimal(n) + "\n"@
}

/// What the source answers to its call number `n`: a line of data before
/// the failing call, the expected problem at it, and nothing after it.
pub open spec fn answer(n: nat) -> Option<Result<Seq<char>, MyError>> {
    if n < FAILING_CALL {
        Some(Ok(test_line(n)))
    } else if n == FAILING_CALL {
        Some(Err(MyError::ExpectedProblem))
    } else {
        None
    }
}

/// A source that delivers forty-one lines of data and then fails.
#[derive(Debug)]
pub struct MySource {
    calls: u32,
}

impl MySource {
    /// How many calls the source has answered. The count stops at the
    /// largest number that it can hold.
    pub closed spec fn calls(self) -> nat {
        self.calls as nat
    }

    /// A source that has not been called yet.
    pub fn new() -> (source: MySource)
        ensures
            source.calls() == 0,
    {
        MySource { calls: 0 }
    }

    /// Answers the next call.
    pub fn next(&mut self) -> (item: Option<Result<String, MyError>>)
        ensures
            final(self).calls() == (if old(self).calls() < u32::MAX {
                old(self).calls() + 1
            } else {
                old(self).calls()
            }),
            match answer(final(self).calls()) {
                Some(Ok(line)) => item matches Some(Ok(text)) && text@ == line,
                Some(Err(e)) => item == Some::<Result<String, MyError>>(Err(e)),
                None => item is None,
            },
    {
        if self.calls < u32::MAX {
            self.calls = self.calls + 1;
        }
        let n = self.calls;
        if n == FAILING_CALL {
            Some(Err(MyError::ExpectedProblem))
        } else if n > FAILING_CALL {
            None
        } else {
            let mut line = String::from_str("test data for the example ");
            append_decimal(&mut line, n as u64);
            line.append("\n");
            Some(Ok(line))
        }
    }
}

impl Default for MySource {
    fn default() -> (source: MySource)
        ensures
            source.calls() == 0,
    {
        MySource::new()
    }
}

} // verus!
