//! The access token: who may ask the homeserver for something.

use vstd::prelude::*;
use vstd::string::*;

use crate::outside::{reveal_token, seal_token, token_text, AccessToken};

verus! {

impl View for AccessToken {
    type V = Seq<char>;

    open spec fn view(&self) -> Seq<char> {
        token_text(*self)
    }
}

impl AccessToken {
    /// The token with the characters of `text`.
    pub fn new(text: String) -> (token: AccessToken)
        ensures
            token@ == text@,
    {
        seal_token(text)
    }

    /// The characters of the token.
    pub fn text(&self) -> (text: &str)
        ensures
            text@ == self@,
    {
        reveal_token(self)
    }

    /// Another token with the same characters, wiped like this one.
    pub fn copy(&self) -> (token: AccessToken)
        ensures
            token@ == self@,
    {
        seal_token(reveal_token(self).to_owned())
    }
}

} // verus!
