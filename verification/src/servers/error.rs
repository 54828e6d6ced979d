//! The error that a tool hands to its client.

use vstd::prelude::*;
use vstd::string::StringExecFns;

verus! {

/// An error in words, for the client to read.
#[derive(Debug, Clone)]
pub struct ServerError {
    message: String,
}

impl ServerError {
    /// The words of the error.
    pub closed spec fn text(&self) -> Seq<char> {
        self.message@
    }

    /// The error with the given words.
    pub fn new(message: String) -> (error: Self)
        ensures
            error.text() == message@,
    {
        ServerError { message }
    }

    /// The words of the error.
    pub fn message(&self) -> (message: String)
        ensures
            message@ == self.text(),
    {
        self.message.clone()
    }

    /// What the client is shown: one text, the words behind `Error: `.
    pub fn into_contents(self) -> (contents: Vec<String>)
        ensures
            contents@.len() == 1,
            contents@[0]@ == "Error: "@ + self.text(),
    {
        let mut shown = "Error: ".to_owned();
        shown.append(self.message.as_str());
        vec![shown]
    }
}

} // verus!
