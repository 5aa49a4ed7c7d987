use vstd::prelude::*;

use crate::{Body, Comment};

verus! {

/// A fragment of a commit message, either a comment or body.
#[derive(Debug, PartialEq, Eq)]
pub enum Fragment<'a> {
    /// A fragment that is going to appear in the git log
    Body(Body<'a>),
    /// A fragment that is a comment
    Comment(Comment<'a>),
}

/// The abstract content of a fragment: its kind and its text.
pub enum FragmentView {
    Body(Seq<char>),
    Comment(Seq<char>),
}

/// The text a fragment holds, whatever its kind.
pub open spec fn fragment_text(f: FragmentView) -> Seq<char> {
    match f {
        FragmentView::Body(t) => t,
        FragmentView::Comment(t) => t,
    }
}

/// The texts of a sequence of fragments.
pub open spec fn fragment_texts(fs: Seq<FragmentView>) -> Seq<Seq<char>> {
    fs.map_values(|f: FragmentView| fragment_text(f))
}

/// The views of a sequence of fragments.
pub open spec fn fragment_views<'a>(fs: Seq<Fragment<'a>>) -> Seq<FragmentView> {
    fs.map_values(|f: Fragment<'a>| f@)
}

impl<'a> View for Fragment<'a> {
    type V = FragmentView;

    open spec fn view(&self) -> FragmentView {
        match self {
            Fragment::Body(b) => FragmentView::Body(b@),
            Fragment::Comment(c) => FragmentView::Comment(c@),
        }
    }
}

impl<'a> Fragment<'a> {
    /// The text of the fragment, whatever its kind.
    pub(crate) fn text(&self) -> (r: &str)
        ensures
            r@ == fragment_text(self@),
    {
        match self {
            Fragment::Body(b) => b.as_str(),
            Fragment::Comment(c) => c.as_str(),
        }
    }
}

impl<'a> Clone for Fragment<'a> {
    fn clone(&self) -> (r: Self)
        ensures
            r == *self,
    {
        match self {
            Fragment::Body(b) => Fragment::Body(b.clone()),
            Fragment::Comment(c) => Fragment::Comment(c.clone()),
        }
    }
}

/// A copy of a list of fragments.
pub fn clone_fragments<'a>(v: &Vec<Fragment<'a>>) -> (r: Vec<Fragment<'a>>)
    ensures
        r@ == v@,
{
    let mut r: Vec<Fragment<'a>> = Vec::new();
    for i in 0..v.len()
        invariant
            r@ == v@.take(i as int),
    {
        r.push(v[i].clone());
        assert(r@ =~= v@.take(i + 1));
    }
    assert(v@.take(v.len() as int) =~= v@);
    r
}

impl<'a> From<Body<'a>> for Fragment<'a> {
    /// Create a Fragment from a Body
    fn from(body: Body<'a>) -> (r: Self)
        ensures
            r == Fragment::Body(body),
    {
        Fragment::Body(body)
    }
}

impl<'a> vstd::std_specs::convert::FromSpecImpl<Body<'a>> for Fragment<'a> {
    open spec fn obeys_from_spec() -> bool {
        true
    }

    open spec fn from_spec(body: Body<'a>) -> Self {
        Fragment::Body(body)
    }
}

impl<'a> From<Comment<'a>> for Fragment<'a> {
    /// Create a Fragment from a Comment
    fn from(comment: Comment<'a>) -> (r: Self)
        ensures
            r == Fragment::Comment(comment),
    {
        Fragment::Comment(comment)
    }
}

impl<'a> vstd::std_specs::convert::FromSpecImpl<Comment<'a>> for Fragment<'a> {
    open spec fn obeys_from_spec() -> bool {
        true
    }

    open spec fn from_spec(comment: Comment<'a>) -> Self {
        Fragment::Comment(comment)
    }
}

} // verus!
