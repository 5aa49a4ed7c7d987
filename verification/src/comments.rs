use std::slice::Iter;
use std::vec::IntoIter;

use vstd::prelude::*;
use vstd::std_specs::iter::IteratorSpec;

use crate::fragment::{fragment_views, FragmentView};
use crate::text::{join, join_all, string_views};
use crate::{Comment, Fragment};

verus! {

/// The texts of the comment fragments, in order.
pub open spec fn comment_texts(fs: Seq<FragmentView>) -> Seq<Seq<char>>
    decreases fs.len(),
{
    if fs.len() == 0 {
        Seq::empty()
    } else {
        comment_texts(fs.drop_last()) + match fs.last() {
            FragmentView::Comment(t) => seq![t],
            FragmentView::Body(_) => Seq::empty(),
        }
    }
}

/// The views of a list of comments.
pub open spec fn comment_views<'a>(v: Seq<Comment<'a>>) -> Seq<Seq<char>> {
    v.map_values(|c: Comment<'a>| c@)
}

/// The comments of a commit message.
#[derive(Debug, PartialEq, Eq)]
pub struct Comments<'a> {
    comments: Vec<Comment<'a>>,
}

impl<'a> View for Comments<'a> {
    type V = Seq<Seq<char>>;

    closed spec fn view(&self) -> Seq<Seq<char>> {
        comment_views(self.comments@)
    }
}

impl<'a> Comments<'a> {
    /// Iterate over the comments, in order.
    pub fn iter(&self) -> (r: Iter<'_, Comment<'a>>)
        ensures
            comment_views(r.remaining().map_values(|c: &Comment<'a>| *c)) == self@,
    {
        let it = self.comments.iter();
        proof {
            assert(it.remaining().map_values(|c: &Comment<'a>| *c) =~= self.comments@);
        }
        it
    }

    /// The first comment, if there is one.
    pub(crate) fn first(&self) -> (r: Option<&Comment<'a>>)
        ensures
            match r {
                Some(c) => self@.len() > 0 && c@ == self@[0],
                None => self@.len() == 0,
            },
    {
        if self.comments.len() == 0 {
            None
        } else {
            Some(&self.comments[0])
        }
    }

    /// The comments as text, separated by blank lines.
    pub(crate) fn to_string(&self) -> (r: String)
        ensures
            r@ == join(self@, seq!['\n', '\n']),
    {
        let mut parts: Vec<String> = Vec::new();
        for i in 0..self.comments.len()
            invariant
                string_views(parts@) == comment_views(self.comments@).take(i as int),
        {
            let ghost prev = parts@;
            let t = self.comments[i].as_str().to_owned();
            parts.push(t);
            proof {
                assert(string_views(parts@) =~= string_views(prev).push(t@));
                assert(comment_views(self.comments@).take(i + 1) =~= comment_views(
                    self.comments@,
                ).take(i as int).push(self.comments@[i as int]@));
            }
        }
        proof {
            assert(comment_views(self.comments@).take(self.comments.len() as int) =~= self@);
            reveal_strlit("\n\n");
            assert("\n\n"@ =~= seq!['\n', '\n']);
        }
        join_all(&parts, "\n\n")
    }
}

impl<'a> Clone for Comments<'a> {
    fn clone(&self) -> (r: Self)
        ensures
            r@ == self@,
    {
        let mut v: Vec<Comment<'a>> = Vec::new();
        for i in 0..self.comments.len()
            invariant
                v@ == self.comments@.take(i as int),
        {
            v.push(self.comments[i].clone());
            assert(v@ =~= self.comments@.take(i + 1));
        }
        assert(self.comments@.take(self.comments.len() as int) =~= self.comments@);
        Comments { comments: v }
    }
}

impl<'a> Default for Comments<'a> {
    fn default() -> (r: Self)
        ensures
            r@ == Seq::<Seq<char>>::empty(),
    {
        let r = Comments { comments: Vec::new() };
        assert(r@ =~= Seq::<Seq<char>>::empty());
        r
    }
}

impl<'a> IntoIterator for Comments<'a> {
    type Item = Comment<'a>;
    type IntoIter = IntoIter<Comment<'a>>;

    /// Iterate over the comments, taking ownership of them.
    fn into_iter(self) -> (r: Self::IntoIter)
        ensures
            comment_views(r.remaining()) == self@,
    {
        self.comments.into_iter()
    }
}

impl<'a> IntoIterator for &'a Comments<'a> {
    type Item = &'a Comment<'a>;
    type IntoIter = Iter<'a, Comment<'a>>;

    /// Iterate over references to the comments.
    fn into_iter(self) -> (r: Self::IntoIter)
        ensures
            comment_views(r.remaining().map_values(|x: &'a Comment<'a>| *x)) == self@,
    {
        let it = self.comments.iter();
        proof {
            assert(it.remaining().map_values(|x: &'a Comment<'a>| *x) =~= self.comments@);
        }
        it
    }
}

impl<'a> From<Vec<Comment<'a>>> for Comments<'a> {
    fn from(comments: Vec<Comment<'a>>) -> (r: Self)
        ensures
            r@ == comment_views(comments@),
    {
        Comments { comments }
    }
}

impl<'a> vstd::std_specs::convert::FromSpecImpl<Vec<Comment<'a>>> for Comments<'a> {
    open spec fn obeys_from_spec() -> bool {
        true
    }

    closed spec fn from_spec(comments: Vec<Comment<'a>>) -> Self {
        Comments { comments }
    }
}

impl<'a> From<Comments<'a>> for String {
    /// The comments as text, separated by blank lines.
    fn from(comments: Comments<'a>) -> (r: String)
        ensures
            r@ == join(comments@, seq!['\n', '\n']),
    {
        comments.to_string()
    }
}

impl<'a> vstd::std_specs::convert::FromSpecImpl<Comments<'a>> for String {
    open spec fn obeys_from_spec() -> bool {
        false
    }

    open spec fn from_spec(comments: Comments<'a>) -> Self {
        arbitrary()
    }
}

impl<'a> From<Vec<Fragment<'a>>> for Comments<'a> {
    /// The comment fragments among `ast`, in order.
    fn from(ast: Vec<Fragment<'a>>) -> (r: Self)
        ensures
            r@ == comment_texts(fragment_views(ast@)),
    {
        let ghost fs = fragment_views(ast@);
        let mut v: Vec<Comment<'a>> = Vec::new();
        for i in 0..ast.len()
            invariant
                fs == fragment_views(ast@),
                comment_views(v@) == comment_texts(fs.take(i as int)),
        {
            proof {
                assert(fs.take(i + 1).drop_last() =~= fs.take(i as int));
            }
            match &ast[i] {
                Fragment::Comment(c) => {
                    let ghost prev = v@;
                    let c2 = c.clone();
                    v.push(c2);
                    proof {
                        assert(v@ == prev.push(c2));
                        assert(comment_views(v@) =~= comment_texts(fs.take(i as int)) + seq![c@]);
                    }
                },
                Fragment::Body(_) => {
                    proof {
                        assert(comment_texts(fs.take(i as int)) + Seq::empty() =~= comment_texts(
                            fs.take(i as int),
                        ));
                    }
                },
            }
        }
        proof {
            assert(fs.take(ast.len() as int) =~= fs);
        }
        Comments { comments: v }
    }
}

impl<'a> vstd::std_specs::convert::FromSpecImpl<Vec<Fragment<'a>>> for Comments<'a> {
    open spec fn obeys_from_spec() -> bool {
        false
    }

    open spec fn from_spec(ast: Vec<Fragment<'a>>) -> Self {
        arbitrary()
    }
}

} // verus!
