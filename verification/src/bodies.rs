use std::slice::Iter;
use std::vec::IntoIter;

use vstd::prelude::*;
use vstd::std_specs::iter::IteratorSpec;

use crate::fragment::{fragment_views, FragmentView};
use crate::text::{join, join_all, string_views};
use crate::trailer::parse_trailer_spec;
use crate::{Body, Fragment, Trailer};

verus! {

/// The texts of the body fragments, in order.
pub open spec fn body_texts(fs: Seq<FragmentView>) -> Seq<Seq<char>>
    decreases fs.len(),
{
    if fs.len() == 0 {
        Seq::empty()
    } else {
        body_texts(fs.drop_last()) + match fs.last() {
            FragmentView::Body(t) => seq![t],
            FragmentView::Comment(_) => Seq::empty(),
        }
    }
}

/// A body that may stand in the trailer block at the end of a message: an
/// empty one, or one that parses as a trailer.
pub open spec fn trailer_like(t: Seq<char>) -> bool {
    t.len() == 0 || parse_trailer_spec(t) is Some
}

/// How many of the last bodies are trailer-like, counted from the end.
pub open spec fn trailer_like_suffix(bs: Seq<Seq<char>>) -> nat
    decreases bs.len(),
{
    if bs.len() > 0 && trailer_like(bs.last()) {
        1 + trailer_like_suffix(bs.drop_last())
    } else {
        0
    }
}

pub proof fn lemma_trailer_like_suffix_bound(bs: Seq<Seq<char>>)
    ensures
        trailer_like_suffix(bs) <= bs.len(),
    decreases bs.len(),
{
    if bs.len() > 0 && trailer_like(bs.last()) {
        lemma_trailer_like_suffix_bound(bs.drop_last());
    }
}

/// The body paragraphs of a message: the body fragments after the subject,
/// without the trailer block (and the empty lines around it) at the end.
pub open spec fn bodies_spec(fs: Seq<FragmentView>) -> Seq<Seq<char>> {
    let raw = body_texts(fs);
    if raw.len() == 0 {
        Seq::empty()
    } else {
        raw.subrange(1, raw.len() - trailer_like_suffix(raw.skip(1)))
    }
}

/// The views of a list of bodies.
pub open spec fn body_views<'a>(v: Seq<Body<'a>>) -> Seq<Seq<char>> {
    v.map_values(|b: Body<'a>| b@)
}

/// The body paragraphs of a commit message.
#[derive(Debug, PartialEq, Eq)]
pub struct Bodies<'a> {
    bodies: Vec<Body<'a>>,
}

impl<'a> View for Bodies<'a> {
    type V = Seq<Seq<char>>;

    closed spec fn view(&self) -> Seq<Seq<char>> {
        body_views(self.bodies@)
    }
}

/// The texts of a list of bodies, as owned strings.
fn body_strings<'a>(v: &Vec<Body<'a>>) -> (r: Vec<String>)
    ensures
        string_views(r@) == body_views(v@),
{
    let mut r: Vec<String> = Vec::new();
    for i in 0..v.len()
        invariant
            string_views(r@) == body_views(v@).take(i as int),
    {
        r.push(v[i].to_string());
        proof {
            assert(body_views(v@).take(i + 1) =~= body_views(v@).take(i as int).push(v@[i as int]@));
            assert(string_views(r@) =~= body_views(v@).take(i + 1));
        }
    }
    assert(body_views(v@).take(v.len() as int) =~= body_views(v@));
    r
}

/// A copy of a list of bodies.
fn clone_bodies<'a>(v: &Vec<Body<'a>>) -> (r: Vec<Body<'a>>)
    ensures
        r@ == v@,
{
    let mut r: Vec<Body<'a>> = Vec::new();
    for i in 0..v.len()
        invariant
            r@ == v@.take(i as int),
    {
        r.push(v[i].clone());
        assert(r@ =~= v@.take(i + 1));
    }
    assert(v@.take(v.len() as int) =~= v@);
    r
}

impl<'a> Bodies<'a> {
    /// The first body, if there is one.
    pub fn first(&self) -> (r: Option<Body<'a>>)
        ensures
            match r {
                Some(b) => self@.len() > 0 && b@ == self@[0],
                None => self@.len() == 0,
            },
    {
        if self.bodies.len() == 0 {
            None
        } else {
            Some(self.bodies[0].clone())
        }
    }

    /// How many bodies are there?
    pub(crate) fn count(&self) -> (r: usize)
        ensures
            r == self@.len(),
    {
        self.bodies.len()
    }

    /// Is the body at `i` empty?
    pub(crate) fn is_empty_at(&self, i: usize) -> (r: bool)
        requires
            i < self@.len(),
        ensures
            r == (self@[i as int].len() == 0),
    {
        self.bodies[i].is_empty()
    }

    /// Iterate over the bodies, in order.
    pub fn iter(&self) -> (r: Iter<'_, Body<'a>>)
        ensures
            body_views(r.remaining().map_values(|b: &Body<'a>| *b)) == self@,
    {
        let it = self.bodies.iter();
        proof {
            assert(it.remaining().map_values(|b: &Body<'a>| *b) =~= self.bodies@);
        }
        it
    }

    /// The bodies as text, separated by blank lines.
    pub fn to_string(&self) -> (r: String)
        ensures
            r@ == join(self@, seq!['\n', '\n']),
    {
        let parts = body_strings(&self.bodies);
        proof {
            reveal_strlit("\n\n");
            assert("\n\n"@ =~= seq!['\n', '\n']);
        }
        join_all(&parts, "\n\n")
    }
}

impl<'a> Clone for Bodies<'a> {
    fn clone(&self) -> (r: Self)
        ensures
            r@ == self@,
    {
        Bodies { bodies: clone_bodies(&self.bodies) }
    }
}

impl<'a> Default for Bodies<'a> {
    fn default() -> (r: Self)
        ensures
            r@ == Seq::<Seq<char>>::empty(),
    {
        let r = Bodies { bodies: Vec::new() };
        assert(r@ =~= Seq::<Seq<char>>::empty());
        r
    }
}

impl<'a> IntoIterator for Bodies<'a> {
    type Item = Body<'a>;
    type IntoIter = IntoIter<Body<'a>>;

    /// Iterate over the bodies, taking ownership of them.
    fn into_iter(self) -> (r: Self::IntoIter)
        ensures
            body_views(r.remaining()) == self@,
    {
        self.bodies.into_iter()
    }
}

impl<'a> IntoIterator for &'a Bodies<'a> {
    type Item = &'a Body<'a>;
    type IntoIter = Iter<'a, Body<'a>>;

    /// Iterate over references to the bodies.
    fn into_iter(self) -> (r: Self::IntoIter)
        ensures
            body_views(r.remaining().map_values(|x: &'a Body<'a>| *x)) == self@,
    {
        let it = self.bodies.iter();
        proof {
            assert(it.remaining().map_values(|x: &'a Body<'a>| *x) =~= self.bodies@);
        }
        it
    }
}

impl<'a> From<Vec<Body<'a>>> for Bodies<'a> {
    fn from(bodies: Vec<Body<'a>>) -> (r: Self)
        ensures
            r@ == body_views(bodies@),
    {
        Bodies { bodies }
    }
}

impl<'a> vstd::std_specs::convert::FromSpecImpl<Vec<Body<'a>>> for Bodies<'a> {
    open spec fn obeys_from_spec() -> bool {
        true
    }

    closed spec fn from_spec(bodies: Vec<Body<'a>>) -> Self {
        Bodies { bodies }
    }
}

impl<'a> From<Bodies<'a>> for String {
    /// The bodies as text, separated by blank lines.
    fn from(bodies: Bodies<'a>) -> (r: String)
        ensures
            r@ == join(bodies@, seq!['\n', '\n']),
    {
        bodies.to_string()
    }
}

impl<'a> vstd::std_specs::convert::FromSpecImpl<Bodies<'a>> for String {
    open spec fn obeys_from_spec() -> bool {
        false
    }

    open spec fn from_spec(bodies: Bodies<'a>) -> Self {
        arbitrary()
    }
}

/// The body fragments of a list of fragments, in order.
fn collect_bodies<'a>(fragments: &Vec<Fragment<'a>>) -> (r: Vec<Body<'a>>)
    ensures
        body_views(r@) == body_texts(fragment_views(fragments@)),
{
    let ghost fs = fragment_views(fragments@);
    let mut r: Vec<Body<'a>> = Vec::new();
    for i in 0..fragments.len()
        invariant
            fs == fragment_views(fragments@),
            body_views(r@) == body_texts(fs.take(i as int)),
    {
        proof {
            assert(fs.take(i + 1).drop_last() =~= fs.take(i as int));
        }
        match &fragments[i] {
            Fragment::Body(b) => {
                r.push(b.clone());
                proof {
                    assert(body_views(r@) =~= body_texts(fs.take(i as int)) + seq![b@]);
                }
            },
            Fragment::Comment(_) => {
                proof {
                    assert(body_texts(fs.take(i as int)) + Seq::empty() =~= body_texts(fs.take(i as int)));
                }
            },
        }
    }
    proof {
        assert(fs.take(fragments.len() as int) =~= fs);
    }
    r
}

impl<'a> From<Vec<Fragment<'a>>> for Bodies<'a> {
    /// The body paragraphs among fragments: the body fragments after the
    /// subject line, without the trailers (and empty lines) at the end.
    fn from(fragments: Vec<Fragment<'a>>) -> (r: Self)
        ensures
            r@ == bodies_spec(fragment_views(fragments@)),
    {
        let raw = collect_bodies(&fragments);
        let ghost rv = body_views(raw@);
        let n = raw.len();
        if n == 0 {
            let r = Bodies { bodies: Vec::new() };
            assert(r@ =~= Seq::<Seq<char>>::empty());
            return r;
        }
        let mut i: usize = n;
        let mut count: usize = 0;
        let mut done = false;
        proof {
            assert(rv.skip(1) =~= rv.subrange(1, n as int));
        }
        while i > 1 && !done
            invariant
                1 <= i <= n,
                n == raw.len(),
                rv == body_views(raw@),
                count == n - i,
                trailer_like_suffix(rv.skip(1)) == count + trailer_like_suffix(
                    rv.subrange(1, i as int),
                ),
                done ==> trailer_like_suffix(rv.subrange(1, i as int)) == 0,
            decreases 2 * i + if done { 0int } else { 1int },
        {
            let b = &raw[i - 1];
            let like = b.is_empty() || Trailer::try_from(b.clone()).is_ok();
            proof {
                assert(rv.subrange(1, i as int).drop_last() =~= rv.subrange(1, i - 1));
                assert(rv.subrange(1, i as int).last() == b@);
                assert(like == trailer_like(b@));
            }
            if like {
                count = count + 1;
                i = i - 1;
            } else {
                done = true;
            }
        }
        proof {
            lemma_trailer_like_suffix_bound(rv.skip(1));
            if i == 1 {
                assert(rv.subrange(1, 1).len() == 0);
            }
            assert(trailer_like_suffix(rv.skip(1)) == count);
        }
        let mut kept: Vec<Body<'a>> = Vec::new();
        let mut k: usize = 1;
        while k < n - count
            invariant
                1 <= k <= n - count,
                count < n,
                n == raw.len(),
                rv == body_views(raw@),
                body_views(kept@) == rv.subrange(1, k as int),
            decreases n - count - k,
        {
            let ghost old_kept = kept@;
            let c = raw[k].clone();
            kept.push(c);
            proof {
                assert(rv[k as int] == raw@[k as int]@);
                assert(kept@ == old_kept.push(c));
                assert(body_views(kept@) =~= body_views(old_kept).push(c@));
                assert(body_views(kept@) =~= rv.subrange(1, k + 1));
            }
            k = k + 1;
        }
        Bodies { bodies: kept }
    }
}

impl<'a> vstd::std_specs::convert::FromSpecImpl<Vec<Fragment<'a>>> for Bodies<'a> {
    open spec fn obeys_from_spec() -> bool {
        false
    }

    open spec fn from_spec(fragments: Vec<Fragment<'a>>) -> Self {
        arbitrary()
    }
}

} // verus!
