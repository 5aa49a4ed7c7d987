use std::borrow::Cow;
use std::str::Chars;

use vstd::prelude::*;
use vstd::std_specs::iter::IteratorSpec;
use vstd::string::StrSliceExecFns;

use crate::fragment::{fragment_views, FragmentView};
use crate::text::{clone_cow, cow_str};
use crate::{Body, Fragment};

verus! {

/// The text of the first body fragment, or nothing when there is none.
pub open spec fn first_body(fs: Seq<FragmentView>) -> Seq<char>
    decreases fs.len(),
{
    if fs.len() == 0 {
        Seq::empty()
    } else {
        match fs[0] {
            FragmentView::Body(t) => t,
            FragmentView::Comment(_) => first_body(fs.drop_first()),
        }
    }
}

/// The subject line of a commit message.
#[derive(Debug, PartialEq, Eq)]
pub struct Subject<'a> {
    text: Cow<'a, str>,
}

impl<'a> View for Subject<'a> {
    type V = Seq<char>;

    closed spec fn view(&self) -> Seq<char> {
        self.text@
    }
}

impl<'a> Subject<'a> {
    /// The number of characters in the subject.
    pub fn len(&self) -> (r: usize)
        ensures
            r == self@.len(),
    {
        cow_str(&self.text).unicode_len()
    }

    /// Is the subject empty?
    pub fn is_empty(&self) -> (r: bool)
        ensures
            r == (self@.len() == 0),
    {
        cow_str(&self.text).is_empty()
    }

    /// The characters of the subject.
    pub fn chars(&self) -> (r: Chars<'_>)
        ensures
            r.remaining() == self@,
    {
        cow_str(&self.text).chars()
    }

    /// The text of the subject, as its display form.
    pub fn to_string(&self) -> (r: String)
        ensures
            r@ == self@,
    {
        cow_str(&self.text).to_owned()
    }
}

impl<'a> Clone for Subject<'a> {
    fn clone(&self) -> (r: Self)
        ensures
            r == *self,
    {
        Subject { text: clone_cow(&self.text) }
    }
}

impl<'a> Default for Subject<'a> {
    fn default() -> (r: Self)
        ensures
            r@ == Seq::<char>::empty(),
    {
        Subject { text: Cow::Owned(String::new()) }
    }
}

impl<'a> From<&'a str> for Subject<'a> {
    fn from(subject: &'a str) -> (r: Self)
        ensures
            r@ == subject@,
    {
        Subject { text: Cow::Borrowed(subject) }
    }
}

impl<'a> vstd::std_specs::convert::FromSpecImpl<&'a str> for Subject<'a> {
    open spec fn obeys_from_spec() -> bool {
        true
    }

    closed spec fn from_spec(subject: &'a str) -> Self {
        Subject { text: Cow::Borrowed(subject) }
    }
}

impl<'a> From<String> for Subject<'a> {
    fn from(subject: String) -> (r: Self)
        ensures
            r@ == subject@,
    {
        Subject { text: Cow::Owned(subject) }
    }
}

impl<'a> vstd::std_specs::convert::FromSpecImpl<String> for Subject<'a> {
    open spec fn obeys_from_spec() -> bool {
        true
    }

    closed spec fn from_spec(subject: String) -> Self {
        Subject { text: Cow::Owned(subject) }
    }
}

impl<'a> From<Cow<'a, str>> for Subject<'a> {
    fn from(subject: Cow<'a, str>) -> (r: Self)
        ensures
            r@ == subject@,
    {
        Subject { text: subject }
    }
}

impl<'a> vstd::std_specs::convert::FromSpecImpl<Cow<'a, str>> for Subject<'a> {
    open spec fn obeys_from_spec() -> bool {
        true
    }

    closed spec fn from_spec(subject: Cow<'a, str>) -> Self {
        Subject { text: subject }
    }
}

impl<'a> From<Subject<'a>> for String {
    fn from(subject: Subject<'a>) -> (r: String)
        ensures
            r@ == subject@,
    {
        match subject.text {
            Cow::Borrowed(s) => s.to_owned(),
            Cow::Owned(s) => s,
        }
    }
}

impl<'a> vstd::std_specs::convert::FromSpecImpl<Subject<'a>> for String {
    open spec fn obeys_from_spec() -> bool {
        false
    }

    open spec fn from_spec(subject: Subject<'a>) -> Self {
        arbitrary()
    }
}

impl<'a> From<Body<'a>> for Subject<'a> {
    fn from(body: Body<'a>) -> (r: Self)
        ensures
            r@ == body@,
    {
        Subject { text: Cow::Owned(String::from(body)) }
    }
}

impl<'a> vstd::std_specs::convert::FromSpecImpl<Body<'a>> for Subject<'a> {
    open spec fn obeys_from_spec() -> bool {
        false
    }

    open spec fn from_spec(body: Body<'a>) -> Self {
        arbitrary()
    }
}

impl<'a> From<Vec<Fragment<'a>>> for Subject<'a> {
    /// The subject is the first body fragment.
    fn from(ast: Vec<Fragment<'a>>) -> (r: Self)
        ensures
            r@ == first_body(fragment_views(ast@)),
    {
        let ghost fs = fragment_views(ast@);
        let mut i: usize = 0;
        assert(fs.skip(0) =~= fs);
        while i < ast.len()
            invariant
                i <= ast.len(),
                fs == fragment_views(ast@),
                first_body(fs) == first_body(fs.skip(i as int)),
            decreases ast.len() - i,
        {
            match &ast[i] {
                Fragment::Body(b) => {
                    proof {
                        assert(fs.skip(i as int)[0] == fs[i as int]);
                    }
                    return Subject { text: Cow::Owned(b.to_string()) };
                },
                Fragment::Comment(_) => {
                    proof {
                        assert(fs.skip(i as int).drop_first() =~= fs.skip(i + 1));
                    }
                },
            }
            i = i + 1;
        }
        proof {
            assert(fs.skip(i as int).len() == 0);
        }
        Subject { text: Cow::Owned(String::new()) }
    }
}

impl<'a> vstd::std_specs::convert::FromSpecImpl<Vec<Fragment<'a>>> for Subject<'a> {
    open spec fn obeys_from_spec() -> bool {
        false
    }

    open spec fn from_spec(ast: Vec<Fragment<'a>>) -> Self {
        arbitrary()
    }
}

} // verus!
