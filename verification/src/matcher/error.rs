use vstd::prelude::*;

use crate::text::push_str;

verus! {

/// An error that can occur when parsing a matcher expression.
#[derive(Debug)]
pub struct ParseMatcherError(pub(crate) String);

impl View for ParseMatcherError {
    type V = Seq<char>;

    closed spec fn view(&self) -> Seq<char> {
        self.0@
    }
}

/// The message of an error on the input: `invalid <what> '<input>'`.
pub open spec fn invalid_message(what: Seq<char>, input: Seq<char>) -> Seq<char> {
    "invalid "@ + what + " '"@ + input + "'"@
}

impl ParseMatcherError {
    /// The error for an input that is not a valid `what`.
    pub(crate) fn invalid(what: &str, input: &str) -> (r: Self)
        ensures
            r@ == invalid_message(what@, input@),
    {
        let mut msg = String::new();
        push_str(&mut msg, "invalid ");
        push_str(&mut msg, what);
        push_str(&mut msg, " '");
        push_str(&mut msg, input);
        push_str(&mut msg, "'");
        assert(msg@ =~= invalid_message(what@, input@));
        ParseMatcherError(msg)
    }

    /// The message of the error.
    pub fn to_string(&self) -> (r: String)
        ensures
            r@ == self@,
    {
        self.0.clone()
    }
}

} // verus!
