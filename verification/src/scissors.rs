use std::borrow::Cow;

use vstd::prelude::*;

use crate::comment::legal_comment_char;
use crate::text::{
    chars_end_with, chars_match_at, clone_cow, cow_str, ends_with, ends_with_newline, join, join_lines,
    lines, newline, split_lines, str_ends_with_newline, string_views, to_chars,
};
use crate::Comment;

verus! {

const SCISSORS_MARKER: &'static str = "------------------------ >8 ------------------------";

/// The marker git writes on the line above the part of the message it discards.
pub open spec fn scissors_marker() -> Seq<char> {
    Seq::new(24, |i: int| '-') + seq![' ', '>', '8', ' '] + Seq::new(24, |i: int| '-')
}

/// The comment character a scissors line announces: a legal comment character,
/// a space, and then exactly the marker.
pub open spec fn scissors_line_char(line: Seq<char>) -> Option<char> {
    if line.len() >= 2 && legal_comment_char(line[0]) && line[1] == ' ' && line.skip(2)
        == scissors_marker() {
        Some(line[0])
    } else {
        None
    }
}

/// The first character of a line, when it is a legal comment character.
pub open spec fn legal_first_char(line: Seq<char>) -> Option<char> {
    if line.len() > 0 && legal_comment_char(line[0]) {
        Some(line[0])
    } else {
        None
    }
}

/// The answer of `f` for the last line on which it has one.
pub open spec fn last_answer(ls: Seq<Seq<char>>, f: spec_fn(Seq<char>) -> Option<char>) -> Option<
    char,
>
    decreases ls.len(),
{
    if ls.len() == 0 {
        None
    } else {
        match f(ls.last()) {
            Some(c) => Some(c),
            None => last_answer(ls.drop_last(), f),
        }
    }
}

/// The comment character of a message: announced by its last scissors line,
/// or else the first character of its last line that starts with a legal one.
pub open spec fn guess_comment_character_spec(message: Seq<char>) -> Option<char> {
    match last_answer(lines(message), |l: Seq<char>| scissors_line_char(l)) {
        Some(c) => Some(c),
        None => last_answer(lines(message), |l: Seq<char>| legal_first_char(l)),
    }
}

/// The index of the first line that ends with the scissors marker.
pub open spec fn scissors_position(ls: Seq<Seq<char>>) -> Option<nat>
    decreases ls.len(),
{
    if ls.len() == 0 {
        None
    } else if ends_with(ls[0], scissors_marker()) {
        Some(0)
    } else {
        match scissors_position(ls.drop_first()) {
            Some(p) => Some(p + 1),
            None => None,
        }
    }
}

/// Split a message into the text above its scissors line and the scissors
/// section itself (which keeps the message's final newline).
pub open spec fn parse_sections_spec(message: Seq<char>) -> (Seq<char>, Option<Seq<char>>) {
    let ls = lines(message);
    match scissors_position(ls) {
        Some(p) => (
            join(ls.take(p as int), newline()),
            Some(
                join(ls.skip(p as int), newline()) + if ends_with_newline(message) {
                    newline()
                } else {
                    Seq::empty()
                },
            ),
        ),
        None => (message, None),
    }
}

/// The scissors section of a commit message: the scissors line and everything
/// below it, which git does not keep in the commit.
#[derive(Debug, PartialEq, Eq)]
pub struct Scissors<'a> {
    scissors: Cow<'a, str>,
}

impl<'a> View for Scissors<'a> {
    type V = Seq<char>;

    closed spec fn view(&self) -> Seq<char> {
        self.scissors@
    }
}

/// The characters of the scissors marker.
fn marker_chars() -> (r: Vec<char>)
    ensures
        r@ == scissors_marker(),
{
    let r = to_chars(SCISSORS_MARKER);
    proof {
        reveal_strlit("------------------------ >8 ------------------------");
        assert(r@ =~= scissors_marker());
    }
    r
}

impl<'a> Scissors<'a> {
    /// Guess the comment character a commit message uses.
    pub fn guess_comment_character(message: &str) -> (r: Option<char>)
        ensures
            r == guess_comment_character_spec(message@),
    {
        let ls = split_lines(message);
        match Self::guess_comment_char_from_scissors(&ls) {
            Some(c) => Some(c),
            None => Self::guess_comment_char_from_last_possibility(&ls),
        }
    }

    /// The first character of the last line that starts with a legal comment character.
    fn guess_comment_char_from_last_possibility(ls: &Vec<String>) -> (r: Option<char>)
        ensures
            r == last_answer(string_views(ls@), |l: Seq<char>| legal_first_char(l)),
    {
        let mut found: Option<char> = None;
        for i in 0..ls.len()
            invariant
                found == last_answer(
                    string_views(ls@).take(i as int),
                    |l: Seq<char>| legal_first_char(l),
                ),
        {
            let line = to_chars(ls[i].as_str());
            let cand = if line.len() > 0 && Comment::is_legal_comment_char(line[0]) {
                Some(line[0])
            } else {
                None
            };
            proof {
                let v = string_views(ls@);
                assert(v.take(i + 1).drop_last() =~= v.take(i as int));
                assert(v.take(i + 1).last() == ls@[i as int]@);
                assert(line@ == ls@[i as int]@);
                assert(cand == legal_first_char(line@));
            }
            if cand.is_some() {
                found = cand;
            }
        }
        proof {
            assert(string_views(ls@).take(ls.len() as int) =~= string_views(ls@));
        }
        found
    }

    /// The comment character announced by the last scissors line.
    fn guess_comment_char_from_scissors(ls: &Vec<String>) -> (r: Option<char>)
        ensures
            r == last_answer(string_views(ls@), |l: Seq<char>| scissors_line_char(l)),
    {
        let marker = marker_chars();
        let mut found: Option<char> = None;
        for i in 0..ls.len()
            invariant
                marker@ == scissors_marker(),
                found == last_answer(
                    string_views(ls@).take(i as int),
                    |l: Seq<char>| scissors_line_char(l),
                ),
        {
            let line = to_chars(ls[i].as_str());
            let cand = if line.len() >= 2 && Comment::is_legal_comment_char(line[0]) && line[1]
                == ' ' && chars_match_at(&line, 2, &marker) {
                Some(line[0])
            } else {
                None
            };
            proof {
                let v = string_views(ls@);
                assert(v.take(i + 1).drop_last() =~= v.take(i as int));
                assert(v.take(i + 1).last() == ls@[i as int]@);
                assert(line@ == ls@[i as int]@);
                assert(cand == scissors_line_char(line@));
            }
            if cand.is_some() {
                found = cand;
            }
        }
        proof {
            assert(string_views(ls@).take(ls.len() as int) =~= string_views(ls@));
        }
        found
    }

    /// Split a commit message into the text above its scissors line and the
    /// scissors section, if it has one.
    pub fn parse_sections(message: &str) -> (r: (Cow<'a, str>, Option<Self>))
        ensures
            r.0@ == parse_sections_spec(message@).0,
            match (r.1, parse_sections_spec(message@).1) {
                (Some(s), Some(t)) => s@ == t,
                (None, None) => true,
                _ => false,
            },
    {
        let ls = split_lines(message);
        let marker = marker_chars();
        let ghost v = string_views(ls@);
        let mut p: usize = 0;
        assert(v.skip(0) =~= v);
        while p < ls.len()
            invariant
                p <= ls.len(),
                v == string_views(ls@),
                v == lines(message@),
                marker@ == scissors_marker(),
                scissors_position(v) == match scissors_position(v.skip(p as int)) {
                    Some(q) => Some((q + p) as nat),
                    None => None,
                },
            decreases ls.len() - p,
        {
            let line = to_chars(ls[p].as_str());
            if chars_end_with(&line, &marker) {
                proof {
                    assert(v.skip(p as int)[0] == v[p as int]);
                }
                let body = join_lines(&ls, 0, p);
                let mut section = join_lines(&ls, p, ls.len());
                if str_ends_with_newline(message) {
                    proof {
                        reveal_strlit("\n");
                    }
                    section.append("\n");
                }
                proof {
                    assert(v.subrange(0, p as int) =~= v.take(p as int));
                    assert(v.subrange(p as int, v.len() as int) =~= v.skip(p as int));
                }
                return (Cow::Owned(body), Some(Scissors { scissors: Cow::Owned(section) }));
            }
            proof {
                assert(v.skip(p as int).drop_first() =~= v.skip(p + 1));
            }
            p = p + 1;
        }
        proof {
            assert(v.skip(p as int).len() == 0);
        }
        (Cow::Owned(message.to_owned()), None)
    }

    /// The text of the scissors section, borrowed.
    pub(crate) fn as_str(&self) -> (r: &str)
        ensures
            r@ == self@,
    {
        cow_str(&self.scissors)
    }
}

impl<'a> Clone for Scissors<'a> {
    fn clone(&self) -> (r: Self)
        ensures
            r == *self,
    {
        Scissors { scissors: clone_cow(&self.scissors) }
    }
}

impl<'a> From<Cow<'a, str>> for Scissors<'a> {
    fn from(scissors: Cow<'a, str>) -> (r: Self)
        ensures
            r@ == scissors@,
    {
        Scissors { scissors }
    }
}

impl<'a> vstd::std_specs::convert::FromSpecImpl<Cow<'a, str>> for Scissors<'a> {
    open spec fn obeys_from_spec() -> bool {
        true
    }

    closed spec fn from_spec(scissors: Cow<'a, str>) -> Self {
        Scissors { scissors }
    }
}

impl<'a> From<&'a str> for Scissors<'a> {
    fn from(scissors: &'a str) -> (r: Self)
        ensures
            r@ == scissors@,
    {
        Scissors { scissors: Cow::Borrowed(scissors) }
    }
}

impl<'a> vstd::std_specs::convert::FromSpecImpl<&'a str> for Scissors<'a> {
    open spec fn obeys_from_spec() -> bool {
        true
    }

    closed spec fn from_spec(scissors: &'a str) -> Self {
        Scissors { scissors: Cow::Borrowed(scissors) }
    }
}

impl<'a> From<String> for Scissors<'a> {
    fn from(scissors: String) -> (r: Self)
        ensures
            r@ == scissors@,
    {
        Scissors { scissors: Cow::Owned(scissors) }
    }
}

impl<'a> vstd::std_specs::convert::FromSpecImpl<String> for Scissors<'a> {
    open spec fn obeys_from_spec() -> bool {
        true
    }

    closed spec fn from_spec(scissors: String) -> Self {
        Scissors { scissors: Cow::Owned(scissors) }
    }
}

impl<'a> From<Scissors<'a>> for String {
    fn from(scissors: Scissors<'a>) -> (r: String)
        ensures
            r@ == scissors@,
    {
        match scissors.scissors {
            Cow::Borrowed(s) => s.to_owned(),
            Cow::Owned(s) => s,
        }
    }
}

impl<'a> vstd::std_specs::convert::FromSpecImpl<Scissors<'a>> for String {
    open spec fn obeys_from_spec() -> bool {
        false
    }

    open spec fn from_spec(scissors: Scissors<'a>) -> Self {
        arbitrary()
    }
}

} // verus!
