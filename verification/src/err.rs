//! The errors: of a record that cannot be read, and of a round that cannot
//! begin.

use vstd::prelude::*;
use vstd::std_specs::convert::FromSpecImpl;
use vstd::string::StringExecFns;

verus! {

/// A failure at run time, with the message that describes it.
#[derive(Debug)]
pub struct StarErr {
    msg: String,
}

impl View for StarErr {
    type V = Seq<char>;

    /// The message.
    closed spec fn view(&self) -> Seq<char> {
        self.msg@
    }
}

impl From<&str> for StarErr {
    fn from(msg: &str) -> (r: StarErr)
        ensures
            r@ == msg@,
    {
        StarErr { msg: String::from_str(msg) }
    }
}

impl FromSpecImpl<&str> for StarErr {
    open spec fn obeys_from_spec() -> bool {
        false
    }

    open spec fn from_spec(msg: &str) -> StarErr {
        arbitrary()
    }
}

impl From<String> for StarErr {
    fn from(msg: String) -> (r: StarErr)
        ensures
            r@ == msg@,
    {
        StarErr { msg }
    }
}

impl FromSpecImpl<String> for StarErr {
    open spec fn obeys_from_spec() -> bool {
        false
    }

    open spec fn from_spec(msg: String) -> StarErr {
        arbitrary()
    }
}

impl StarErr {
    /// The message, without the prefix that `to_string` puts before it.
    pub fn message(&self) -> (r: &str)
        ensures
            r@ == self@,
    {
        self.msg.as_str()
    }

    /// The text shown for this error: the message after `Runtime error: `.
    pub fn to_string(&self) -> (r: String)
        ensures
            r@ == "Runtime error: "@ + self@,
    {
        String::from_str("Runtime error: ").concat(self.msg.as_str())
    }
}

/// Why a record could not be read.
#[derive(Copy, Clone, Debug, PartialEq, Eq, Structural)]
pub enum ParseError {
    /// The record does not fall into a position, a velocity and a rest, or
    /// the rest lacks the radius.
    TooFewArguments,
    /// A field that has to be a number is not one.
    CannotParse,
    /// A vector was given other than three fields.
    BadVector,
}

impl ParseError {
    /// The text that describes the error.
    pub open spec fn text(self) -> Seq<char> {
        match self {
            ParseError::TooFewArguments => "Cannot parse input; Too few arguments"@,
            ParseError::CannotParse => "Cannot parse"@,
            ParseError::BadVector => "Too few arguments for ve3"@,
        }
    }

    /// The text that describes the error.
    pub fn message(&self) -> (r: String)
        ensures
            r@ == self.text(),
    {
        match self {
            ParseError::TooFewArguments => String::from_str(
                "Cannot parse input; Too few arguments",
            ),
            ParseError::CannotParse => String::from_str("Cannot parse"),
            ParseError::BadVector => String::from_str("Too few arguments for ve3"),
        }
    }
}

} // verus!
