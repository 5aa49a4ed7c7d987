use std::borrow::Cow;

use vstd::prelude::*;
use vstd::string::StringExecFns;

use crate::text::{clone_cow, cow_str};

verus! {

/// The characters git picks from to start comment lines when it chooses one itself.
pub open spec fn legal_comment_char(c: char) -> bool {
    c == '#' || c == ';' || c == '@' || c == '!' || c == '$' || c == '%' || c == '^' || c == '&'
        || c == '|' || c == ':'
}

/// A single comment from a commit message.
#[derive(Debug, PartialEq, Eq)]
pub struct Comment<'a> {
    comment: Cow<'a, str>,
}

impl<'a> View for Comment<'a> {
    type V = Seq<char>;

    closed spec fn view(&self) -> Seq<char> {
        self.comment@
    }
}

impl<'a> Comment<'a> {
    /// Append one comment onto another: the two texts separated by a newline.
    pub fn append(&self, additional: &Self) -> (r: Self)
        ensures
            r@ == self@ + seq!['\n'] + additional@,
    {
        let mut s = String::from_str(cow_str(&self.comment));
        proof {
            reveal_strlit("\n");
        }
        s.append("\n");
        s.append(cow_str(&additional.comment));
        Comment { comment: Cow::Owned(s) }
    }

    /// Is `character` one of the characters git may pick to start comment lines?
    pub fn is_legal_comment_char(character: char) -> (r: bool)
        ensures
            r == legal_comment_char(character),
    {
        match character {
            '#' | ';' | '@' | '!' | '$' | '%' | '^' | '&' | '|' | ':' => true,
            _ => false,
        }
    }

    /// The text of the comment, borrowed.
    pub(crate) fn as_str(&self) -> (r: &str)
        ensures
            r@ == self@,
    {
        cow_str(&self.comment)
    }
}

impl<'a> Clone for Comment<'a> {
    fn clone(&self) -> (r: Self)
        ensures
            r == *self,
    {
        Comment { comment: clone_cow(&self.comment) }
    }
}

impl<'a> From<Cow<'a, str>> for Comment<'a> {
    fn from(comment: Cow<'a, str>) -> (r: Self)
        ensures
            r@ == comment@,
    {
        Comment { comment: comment }
    }
}

impl<'a> vstd::std_specs::convert::FromSpecImpl<Cow<'a, str>> for Comment<'a> {
    open spec fn obeys_from_spec() -> bool {
        true
    }

    closed spec fn from_spec(comment: Cow<'a, str>) -> Self {
        Comment { comment: comment }
    }
}

impl<'a> From<&'a str> for Comment<'a> {
    fn from(comment: &'a str) -> (r: Self)
        ensures
            r@ == comment@,
    {
        Comment { comment: Cow::Borrowed(comment) }
    }
}

impl<'a> vstd::std_specs::convert::FromSpecImpl<&'a str> for Comment<'a> {
    open spec fn obeys_from_spec() -> bool {
        true
    }

    closed spec fn from_spec(comment: &'a str) -> Self {
        Comment { comment: Cow::Borrowed(comment) }
    }
}

impl<'a> From<String> for Comment<'a> {
    fn from(comment: String) -> (r: Self)
        ensures
            r@ == comment@,
    {
        Comment { comment: Cow::Owned(comment) }
    }
}

impl<'a> vstd::std_specs::convert::FromSpecImpl<String> for Comment<'a> {
    open spec fn obeys_from_spec() -> bool {
        true
    }

    closed spec fn from_spec(comment: String) -> Self {
        Comment { comment: Cow::Owned(comment) }
    }
}

impl<'a> From<Comment<'a>> for String {
    fn from(comment: Comment<'a>) -> (r: String)
        ensures
            r@ == comment@,
    {
        match comment.comment {
            Cow::Borrowed(s) => s.to_owned(),
            Cow::Owned(s) => s,
        }
    }
}

impl<'a> vstd::std_specs::convert::FromSpecImpl<Comment<'a>> for String {
    open spec fn obeys_from_spec() -> bool {
        false
    }

    open spec fn from_spec(comment: Comment<'a>) -> Self {
        arbitrary()
    }
}

} // verus!
