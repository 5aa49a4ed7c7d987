use std::convert::TryFrom;
use std::slice::Iter;
use std::vec::IntoIter;

use vstd::prelude::*;
use vstd::std_specs::iter::IteratorSpec;

use crate::bodies::body_texts;
use crate::fragment::{fragment_views, FragmentView};
use crate::text::{join, join_all, newline, string_views};
use crate::trailer::{parse_trailer_spec, trailer_text, TrailerView};
use crate::{Fragment, Trailer};

verus! {

/// The trailers at the end of a list of body texts: read from the end,
/// skipping empty texts, for as long as each text parses as a trailer.
pub open spec fn trailer_run(bs: Seq<Seq<char>>) -> Seq<TrailerView>
    decreases bs.len(),
{
    if bs.len() == 0 {
        Seq::empty()
    } else if bs.last().len() == 0 {
        trailer_run(bs.drop_last())
    } else {
        match parse_trailer_spec(bs.last()) {
            Some(t) => trailer_run(bs.drop_last()).push(t),
            None => Seq::empty(),
        }
    }
}

/// The trailers of a list of fragments: the trailer run among the body
/// fragments after the first fragment.
pub open spec fn trailers_spec(fs: Seq<FragmentView>) -> Seq<TrailerView> {
    if fs.len() == 0 {
        Seq::empty()
    } else {
        trailer_run(body_texts(fs.skip(1)))
    }
}

/// The views of a list of trailers.
pub open spec fn trailer_views<'a>(v: Seq<Trailer<'a>>) -> Seq<TrailerView> {
    v.map_values(|t: Trailer<'a>| t@)
}

/// The trailers of a commit message.
#[derive(Debug, PartialEq, Eq)]
pub struct Trailers<'a> {
    trailers: Vec<Trailer<'a>>,
    iterator_index: usize,
}

impl<'a> View for Trailers<'a> {
    type V = Seq<TrailerView>;

    closed spec fn view(&self) -> Seq<TrailerView> {
        trailer_views(self.trailers@)
    }
}

impl<'a> Trailers<'a> {
    /// Iterate over the trailers, in order.
    pub fn iter(&self) -> (r: Iter<'_, Trailer<'a>>)
        ensures
            trailer_views(r.remaining().map_values(|t: &Trailer<'a>| *t)) == self@,
    {
        let it = self.trailers.iter();
        proof {
            assert(it.remaining().map_values(|t: &Trailer<'a>| *t) =~= self.trailers@);
        }
        it
    }

    /// How many trailers are there?
    pub fn len(&self) -> (r: usize)
        ensures
            r == self@.len(),
    {
        self.trailers.len()
    }

    /// Are there no trailers?
    pub fn is_empty(&self) -> (r: bool)
        ensures
            r == (self@.len() == 0),
    {
        self.trailers.len() == 0
    }
}

impl<'a> Clone for Trailers<'a> {
    fn clone(&self) -> (r: Self)
        ensures
            r@ == self@,
    {
        let mut v: Vec<Trailer<'a>> = Vec::new();
        for i in 0..self.trailers.len()
            invariant
                trailer_views(v@) == trailer_views(self.trailers@).take(i as int),
        {
            let ghost prev = v@;
            let t = self.trailers[i].clone();
            v.push(t);
            proof {
                assert(trailer_views(v@) =~= trailer_views(prev).push(t@));
                assert(trailer_views(self.trailers@).take(i + 1) =~= trailer_views(
                    self.trailers@,
                ).take(i as int).push(self.trailers@[i as int]@));
            }
        }
        assert(trailer_views(self.trailers@).take(self.trailers.len() as int) =~= self@);
        Trailers { trailers: v, iterator_index: self.iterator_index }
    }
}

impl<'a> Default for Trailers<'a> {
    fn default() -> (r: Self)
        ensures
            r@ == Seq::<TrailerView>::empty(),
    {
        let r = Trailers { trailers: Vec::new(), iterator_index: 0 };
        assert(r@ =~= Seq::<TrailerView>::empty());
        r
    }
}

impl<'a> IntoIterator for Trailers<'a> {
    type Item = Trailer<'a>;
    type IntoIter = IntoIter<Trailer<'a>>;

    /// Iterate over the trailers, taking ownership of them.
    fn into_iter(self) -> (r: Self::IntoIter)
        ensures
            trailer_views(r.remaining()) == self@,
    {
        self.trailers.into_iter()
    }
}

impl<'a> IntoIterator for &'a Trailers<'a> {
    type Item = &'a Trailer<'a>;
    type IntoIter = Iter<'a, Trailer<'a>>;

    /// Iterate over references to the trailers.
    fn into_iter(self) -> (r: Self::IntoIter)
        ensures
            trailer_views(r.remaining().map_values(|x: &'a Trailer<'a>| *x)) == self@,
    {
        let it = self.trailers.iter();
        proof {
            assert(it.remaining().map_values(|x: &'a Trailer<'a>| *x) =~= self.trailers@);
        }
        it
    }
}

impl<'a> From<Vec<Trailer<'a>>> for Trailers<'a> {
    fn from(trailers: Vec<Trailer<'a>>) -> (r: Self)
        ensures
            r@ == trailer_views(trailers@),
    {
        Trailers { trailers, iterator_index: 0 }
    }
}

impl<'a> vstd::std_specs::convert::FromSpecImpl<Vec<Trailer<'a>>> for Trailers<'a> {
    open spec fn obeys_from_spec() -> bool {
        true
    }

    closed spec fn from_spec(trailers: Vec<Trailer<'a>>) -> Self {
        Trailers { trailers, iterator_index: 0 }
    }
}

impl<'a> From<Trailers<'a>> for String {
    /// The trailers as text, one per line.
    fn from(trailers: Trailers<'a>) -> (r: String)
        ensures
            r@ == join(trailers@.map_values(|t: TrailerView| trailer_text(t)), newline()),
    {
        let mut parts: Vec<String> = Vec::new();
        let ghost texts = trailers@.map_values(|t: TrailerView| trailer_text(t));
        for i in 0..trailers.trailers.len()
            invariant
                texts == trailers@.map_values(|t: TrailerView| trailer_text(t)),
                trailers@ == trailer_views(trailers.trailers@),
                string_views(parts@) == texts.take(i as int),
        {
            let ghost prev = parts@;
            let t = trailers.trailers[i].to_text();
            parts.push(t);
            proof {
                assert(string_views(parts@) =~= string_views(prev).push(t@));
                assert(texts.take(i + 1) =~= texts.take(i as int).push(texts[i as int]));
            }
        }
        proof {
            assert(texts.take(trailers.trailers.len() as int) =~= texts);
            reveal_strlit("\n");
            assert("\n"@ =~= newline());
        }
        join_all(&parts, "\n")
    }
}

impl<'a> vstd::std_specs::convert::FromSpecImpl<Trailers<'a>> for String {
    open spec fn obeys_from_spec() -> bool {
        false
    }

    open spec fn from_spec(trailers: Trailers<'a>) -> Self {
        arbitrary()
    }
}

impl<'a> From<Vec<Fragment<'a>>> for Trailers<'a> {
    /// The trailers at the end of `ast`: read from the last fragment back,
    /// skipping comments and empty bodies, for as long as each body parses
    /// as a trailer; the first fragment is never one.
    fn from(ast: Vec<Fragment<'a>>) -> (r: Self)
        ensures
            r@ == trailers_spec(fragment_views(ast@)),
    {
        let ghost fs = fragment_views(ast@);
        let n = ast.len();
        let mut found: Vec<Trailer<'a>> = Vec::new();
        if n == 0 {
            let r = Trailers { trailers: found, iterator_index: 0 };
            assert(r@ =~= Seq::<TrailerView>::empty());
            return r;
        }
        let mut i: usize = n;
        let mut done = false;
        proof {
            assert(fs.skip(1) =~= fs.subrange(1, n as int));
            assert(trailer_views(found@) =~= Seq::<TrailerView>::empty());
        }
        while i > 1 && !done
            invariant
                1 <= i <= n,
                n == ast.len(),
                fs == fragment_views(ast@),
                trailers_spec(fs) == if done {
                    trailer_views(found@)
                } else {
                    trailer_run(body_texts(fs.subrange(1, i as int))) + trailer_views(found@)
                },
            decreases 2 * i + if done { 0int } else { 1int },
        {
            let ghost sub = fs.subrange(1, i as int);
            let ghost before = fs.subrange(1, i - 1);
            proof {
                assert(sub.drop_last() =~= before);
                assert(sub.last() == fs[i - 1]);
            }
            match &ast[i - 1] {
                Fragment::Comment(_) => {
                    proof {
                        assert(body_texts(sub) =~= body_texts(before));
                    }
                    i = i - 1;
                },
                Fragment::Body(b) => {
                    proof {
                        assert(body_texts(sub) =~= body_texts(before).push(b@));
                        assert(body_texts(sub).drop_last() =~= body_texts(before));
                    }
                    if b.is_empty() {
                        i = i - 1;
                    } else {
                        match Trailer::try_from(b.clone()) {
                            Ok(t) => {
                                let ghost prev = found@;
                                found.insert(0, t);
                                proof {
                                    assert(trailer_views(found@) =~= seq![t@] + trailer_views(prev));
                                    assert(trailer_run(body_texts(sub)) == trailer_run(
                                        body_texts(before),
                                    ).push(t@));
                                    assert(trailer_run(body_texts(sub)) + trailer_views(prev)
                                        =~= trailer_run(body_texts(before)) + trailer_views(
                                        found@,
                                    ));
                                }
                                i = i - 1;
                            },
                            Err(_) => {
                                proof {
                                    assert(trailer_run(body_texts(sub)) =~= Seq::<
                                        TrailerView,
                                    >::empty());
                                    assert(Seq::<TrailerView>::empty() + trailer_views(found@)
                                        =~= trailer_views(found@));
                                }
                                done = true;
                            },
                        }
                    }
                },
            }
        }
        proof {
            if !done {
                assert(fs.subrange(1, 1).len() == 0);
                assert(body_texts(fs.subrange(1, 1)).len() == 0);
                assert(Seq::<TrailerView>::empty() + trailer_views(found@) =~= trailer_views(
                    found@,
                ));
            }
        }
        Trailers { trailers: found, iterator_index: 0 }
    }
}

impl<'a> vstd::std_specs::convert::FromSpecImpl<Vec<Fragment<'a>>> for Trailers<'a> {
    open spec fn obeys_from_spec() -> bool {
        false
    }

    open spec fn from_spec(ast: Vec<Fragment<'a>>) -> Self {
        arbitrary()
    }
}

} // verus!
