use std::borrow::Cow;

use vstd::prelude::*;
use vstd::string::StringExecFns;

use crate::text::{clone_cow, cow_str};

verus! {

/// A single contiguous block of commit message text.
#[derive(Debug, PartialEq, Eq)]
pub struct Body<'a> {
    text: Cow<'a, str>,
}

impl<'a> View for Body<'a> {
    type V = Seq<char>;

    closed spec fn view(&self) -> Seq<char> {
        self.text@
    }
}

impl<'a> Body<'a> {
    /// Append one body onto another: the two texts separated by a newline.
    pub fn append(&self, additional: &Self) -> (r: Self)
        ensures
            r@ == self@ + seq!['\n'] + additional@,
    {
        let mut s = String::from_str(cow_str(&self.text));
        proof {
            reveal_strlit("\n");
        }
        s.append("\n");
        s.append(cow_str(&additional.text));
        Body { text: Cow::Owned(s) }
    }

    /// Is this body empty?
    pub fn is_empty(&self) -> (r: bool)
        ensures
            r == (self@.len() == 0),
    {
        cow_str(&self.text).is_empty()
    }

    /// The text of the body, as its display form.
    pub fn to_string(&self) -> (r: String)
        ensures
            r@ == self@,
    {
        cow_str(&self.text).to_owned()
    }

    /// The text of the body, borrowed.
    pub(crate) fn as_str(&self) -> (r: &str)
        ensures
            r@ == self@,
    {
        cow_str(&self.text)
    }
}

impl<'a> Clone for Body<'a> {
    fn clone(&self) -> (r: Self)
        ensures
            r == *self,
    {
        Body { text: clone_cow(&self.text) }
    }
}

impl<'a> Default for Body<'a> {
    fn default() -> (r: Self)
        ensures
            r@ == Seq::<char>::empty(),
    {
        Body { text: Cow::Owned(String::new()) }
    }
}

impl<'a> From<Cow<'a, str>> for Body<'a> {
    fn from(body: Cow<'a, str>) -> (r: Self)
        ensures
            r@ == body@,
    {
        Body { text: body }
    }
}

impl<'a> vstd::std_specs::convert::FromSpecImpl<Cow<'a, str>> for Body<'a> {
    open spec fn obeys_from_spec() -> bool {
        true
    }

    closed spec fn from_spec(body: Cow<'a, str>) -> Self {
        Body { text: body }
    }
}

impl<'a> From<&'a str> for Body<'a> {
    fn from(body: &'a str) -> (r: Self)
        ensures
            r@ == body@,
    {
        Body { text: Cow::Borrowed(body) }
    }
}

impl<'a> vstd::std_specs::convert::FromSpecImpl<&'a str> for Body<'a> {
    open spec fn obeys_from_spec() -> bool {
        true
    }

    closed spec fn from_spec(body: &'a str) -> Self {
        Body { text: Cow::Borrowed(body) }
    }
}

impl<'a> From<String> for Body<'a> {
    fn from(body: String) -> (r: Self)
        ensures
            r@ == body@,
    {
        Body { text: Cow::Owned(body) }
    }
}

impl<'a> vstd::std_specs::convert::FromSpecImpl<String> for Body<'a> {
    open spec fn obeys_from_spec() -> bool {
        true
    }

    closed spec fn from_spec(body: String) -> Self {
        Body { text: Cow::Owned(body) }
    }
}

impl<'a> From<Body<'a>> for String {
    fn from(body: Body<'a>) -> (r: String)
        ensures
            r@ == body@,
    {
        match body.text {
            Cow::Borrowed(s) => s.to_owned(),
            Cow::Owned(s) => s,
        }
    }
}

impl<'a> vstd::std_specs::convert::FromSpecImpl<Body<'a>> for String {
    open spec fn obeys_from_spec() -> bool {
        false
    }

    open spec fn from_spec(body: Body<'a>) -> Self {
        arbitrary()
    }
}

impl<'a> From<Body<'a>> for Cow<'a, str> {
    fn from(body: Body<'a>) -> (r: Cow<'a, str>)
        ensures
            r@ == body@,
    {
        body.text
    }
}

impl<'a> vstd::std_specs::convert::FromSpecImpl<Body<'a>> for Cow<'a, str> {
    open spec fn obeys_from_spec() -> bool {
        true
    }

    closed spec fn from_spec(body: Body<'a>) -> Self {
        body.text
    }
}

} // verus!
