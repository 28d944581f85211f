//! The error that commands report.
use vstd::prelude::*;
use vstd::string::*;

verus! {

/// An error of a command, with its message.
#[derive(Debug)]
pub struct CommandError {
    msg: String,
}

impl Clone for CommandError {
    fn clone(&self) -> (r: Self)
        ensures
            r@ == self@,
    {
        CommandError { msg: self.msg.clone() }
    }
}

impl View for CommandError {
    type V = Seq<char>;

    closed spec fn view(&self) -> Seq<char> {
        self.msg@
    }
}

impl CommandError {
    pub fn new(msg: &str) -> (r: CommandError)
        ensures
            r@ == msg@,
    {
        CommandError { msg: String::from_str(msg) }
    }

    /// An error with the message `msg`.
    pub fn from_message(msg: String) -> (r: CommandError)
        ensures
            r@ == msg@,
    {
        CommandError { msg }
    }

    /// The message.
    pub fn to_string(&self) -> (r: String)
        ensures
            r@ == self@,
    {
        self.msg.clone()
    }
}

} // verus!
