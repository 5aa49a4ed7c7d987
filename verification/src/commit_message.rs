use std::borrow::Cow;

use regex::Regex;
use vstd::prelude::*;
use vstd::string::StrSliceExecFns;
use vstd::string::StringExecFns;

use crate::bodies::{bodies_spec, body_texts};
use crate::comments::comment_texts;
use crate::fragment::{clone_fragments, fragment_texts, fragment_views, FragmentView};
use crate::scissors::{guess_comment_character_spec, parse_sections_spec};
use crate::subject::first_body;
use crate::text::{
    cow_str, ends_with_newline, join, join_all, lines, newline, split_lines,
    str_ends_with_newline, string_views,
};
use crate::trailer::{trailer_text, TrailerView};
use crate::trailers::trailers_spec;
use crate::{Bodies, Body, Comment, Comments, Fragment, Scissors, Subject, Trailer, Trailers};

verus! {

/// The abstract content of a commit message.
pub struct CommitMessageView {
    pub scissors: Option<Seq<char>>,
    pub ast: Seq<FragmentView>,
    pub subject: Seq<char>,
    pub trailers: Seq<TrailerView>,
    pub comments: Seq<Seq<char>>,
    pub bodies: Seq<Seq<char>>,
}

/// A line as a fragment: a comment when it starts with the comment character.
pub open spec fn classify_line(comment_char: Option<char>, line: Seq<char>) -> FragmentView {
    match comment_char {
        Some(c) => if line.len() > 0 && line[0] == c {
            FragmentView::Comment(line)
        } else {
            FragmentView::Body(line)
        },
        None => FragmentView::Body(line),
    }
}

/// One fragment per line.
pub open spec fn per_line_ast(comment_char: Option<char>, ls: Seq<Seq<char>>) -> Seq<FragmentView> {
    ls.map_values(|l: Seq<char>| classify_line(comment_char, l))
}

/// Add a fragment to grouped fragments: consecutive comments join into one,
/// and so do consecutive non-empty bodies; anything else stands on its own.
pub open spec fn merge_fragment(acc: Seq<FragmentView>, f: FragmentView) -> Seq<FragmentView> {
    if acc.len() == 0 {
        seq![f]
    } else {
        match (acc.last(), f) {
            (FragmentView::Comment(a), FragmentView::Comment(b)) => acc.drop_last().push(
                FragmentView::Comment(a + newline() + b),
            ),
            (FragmentView::Body(a), FragmentView::Body(b)) => if a.len() == 0 || b.len() == 0 {
                acc.push(f)
            } else {
                acc.drop_last().push(FragmentView::Body(a + newline() + b))
            },
            _ => acc.push(f),
        }
    }
}

/// Group per-line fragments into paragraphs and comment blocks, from the first on.
pub open spec fn group_ast_spec(fs: Seq<FragmentView>) -> Seq<FragmentView>
    decreases fs.len(),
{
    if fs.len() == 0 {
        Seq::empty()
    } else {
        merge_fragment(group_ast_spec(fs.drop_last()), fs.last())
    }
}

/// The fragments of a message: its grouped lines above the scissors, and one
/// empty body more when it ends in a newline and has no scissors section.
pub open spec fn message_ast(message: Seq<char>) -> Seq<FragmentView> {
    let (rest, scissors) = parse_sections_spec(message);
    let grouped = group_ast_spec(
        per_line_ast(guess_comment_character_spec(message), lines(rest)),
    );
    if scissors is None && ends_with_newline(message) {
        grouped.push(FragmentView::Body(Seq::empty()))
    } else {
        grouped
    }
}

/// What parsing a message gives.
pub open spec fn parse_message(message: Seq<char>) -> CommitMessageView {
    let (rest, scissors) = parse_sections_spec(message);
    let per_line = per_line_ast(guess_comment_character_spec(message), lines(rest));
    let ast = message_ast(message);
    CommitMessageView {
        scissors,
        ast,
        subject: first_body(ast),
        trailers: trailers_spec(per_line),
        comments: comment_texts(ast),
        bodies: bodies_spec(ast),
    }
}

/// The fragments of a message that keeps a blank line ending the text above
/// its scissors line: one empty body more whenever that text (the whole
/// message, when it has no scissors section) ends in a newline.
pub open spec fn kept_message_ast(message: Seq<char>) -> Seq<FragmentView> {
    let rest = parse_sections_spec(message).0;
    let grouped = group_ast_spec(
        per_line_ast(guess_comment_character_spec(message), lines(rest)),
    );
    if ends_with_newline(rest) {
        grouped.push(FragmentView::Body(Seq::empty()))
    } else {
        grouped
    }
}

/// What parsing a message gives when the blank line that ends the text above
/// its scissors line is kept as a fragment.
pub open spec fn parse_message_keeping_blank(message: Seq<char>) -> CommitMessageView {
    let ast = kept_message_ast(message);
    CommitMessageView {
        ast,
        subject: first_body(ast),
        comments: comment_texts(ast),
        bodies: bodies_spec(ast),
        ..parse_message(message)
    }
}

/// The text of fragments and an optional scissors section: the fragments'
/// texts one per line, then the scissors section on the line after.
pub open spec fn render(ast: Seq<FragmentView>, scissors: Option<Seq<char>>) -> Seq<char> {
    join(fragment_texts(ast), newline()) + match scissors {
        Some(s) => newline() + s,
        None => Seq::empty(),
    }
}

/// The view of an optional scissors section.
pub open spec fn scissors_view<'a>(s: Option<Scissors<'a>>) -> Option<Seq<char>> {
    match s {
        Some(x) => Some(x@),
        None => None,
    }
}

/// Is this fragment a body with text in it?
pub open spec fn is_full_body(f: FragmentView) -> bool {
    f matches FragmentView::Body(t) && t.len() > 0
}

/// The index of the last non-empty body fragment.
pub open spec fn last_full_body(fs: Seq<FragmentView>) -> Option<nat>
    decreases fs.len(),
{
    if fs.len() == 0 {
        None
    } else if is_full_body(fs.last()) {
        Some((fs.len() - 1) as nat)
    } else {
        last_full_body(fs.drop_last())
    }
}

/// Where new fragments go: right after the last non-empty body, or at the top.
pub open spec fn insert_position(fs: Seq<FragmentView>) -> nat {
    match last_full_body(fs) {
        Some(p) => p + 1,
        None => 0,
    }
}

/// The message with `fragments` inserted after its last non-empty body.
pub open spec fn insert_spec(m: CommitMessageView, fragments: Seq<FragmentView>) -> CommitMessageView {
    let k = insert_position(m.ast) as int;
    parse_message(render(m.ast.take(k) + fragments + m.ast.skip(k), m.scissors))
}

/// The fragments that adding a trailer inserts: a blank line to start the
/// trailer block when there is none yet (two when there is no body text
/// either), then the trailer itself.
pub open spec fn trailer_insertion(m: CommitMessageView, t: TrailerView) -> Seq<FragmentView> {
    let empty_bodies = forall|i: int| 0 <= i < m.bodies.len() ==> #[trigger] m.bodies[i].len() == 0;
    let no_trailers = m.trailers.len() == 0;
    (if empty_bodies && no_trailers {
        seq![FragmentView::Body(Seq::empty())]
    } else {
        Seq::empty()
    }) + (if no_trailers {
        seq![FragmentView::Body(Seq::empty())]
    } else {
        Seq::empty()
    }) + seq![FragmentView::Body(trailer_text(t))]
}

/// The message with its first fragment replaced by (or, when it has none,
/// given) a body holding `subject`, and its subject set to it.
pub open spec fn with_subject_spec(m: CommitMessageView, subject: Seq<char>) -> CommitMessageView {
    CommitMessageView {
        ast: seq![FragmentView::Body(subject)] + if m.ast.len() > 0 {
            m.ast.skip(1)
        } else {
            m.ast
        },
        subject,
        ..m
    }
}

/// The text that stands before new body contents.
pub open spec fn unused_subject_prefix() -> Seq<char> {
    seq!['U', 'n', 'u', 's', 'e', 'd', '\n', '\n']
}

/// The first character of the first comment.
pub open spec fn comment_char_spec(m: CommitMessageView) -> Option<char> {
    if m.comments.len() > 0 && m.comments[0].len() > 0 {
        Some(m.comments[0][0])
    } else {
        None
    }
}

/// The text that a commit keeps: the body fragments, one per line.
pub open spec fn visible_text(m: CommitMessageView) -> Seq<char> {
    join(body_texts(m.ast), newline())
}

/// A commit message, the primary entry point to the library
#[derive(Debug, PartialEq, Eq)]
pub struct CommitMessage<'a> {
    scissors: Option<Scissors<'a>>,
    ast: Vec<Fragment<'a>>,
    subject: Subject<'a>,
    trailers: Trailers<'a>,
    comments: Comments<'a>,
    bodies: Bodies<'a>,
}

impl<'a> View for CommitMessage<'a> {
    type V = CommitMessageView;

    closed spec fn view(&self) -> CommitMessageView {
        CommitMessageView {
            scissors: scissors_view(self.scissors),
            ast: fragment_views(self.ast@),
            subject: self.subject@,
            trailers: self.trailers@,
            comments: self.comments@,
            bodies: self.bodies@,
        }
    }
}

/// A copy of an optional scissors section.
fn clone_scissors<'a>(s: &Option<Scissors<'a>>) -> (r: Option<Scissors<'a>>)
    ensures
        scissors_view(r) == scissors_view(*s),
{
    match s {
        Some(x) => Some(x.clone()),
        None => None,
    }
}

/// The text of fragments and an optional scissors section.
fn render_text<'b, 'c>(fragments: &Vec<Fragment<'b>>, scissors: &Option<Scissors<'c>>) -> (r: String)
    ensures
        r@ == render(fragment_views(fragments@), scissors_view(*scissors)),
{
    let ghost fs = fragment_views(fragments@);
    let mut parts: Vec<String> = Vec::new();
    for i in 0..fragments.len()
        invariant
            fs == fragment_views(fragments@),
            string_views(parts@) == fragment_texts(fs).take(i as int),
    {
        let ghost prev = parts@;
        let t = fragments[i].text().to_owned();
        parts.push(t);
        proof {
            assert(string_views(parts@) =~= string_views(prev).push(t@));
            assert(fragment_texts(fs).take(i + 1) =~= fragment_texts(fs).take(i as int).push(
                fragment_texts(fs)[i as int],
            ));
        }
    }
    proof {
        assert(fragment_texts(fs).take(fragments.len() as int) =~= fragment_texts(fs));
        reveal_strlit("\n");
        assert("\n"@ =~= newline());
    }
    let mut r = join_all(&parts, "\n");
    match scissors {
        Some(s) => {
            r.append("\n");
            r.append(s.as_str());
            proof {
                assert(r@ =~= render(fs, scissors_view(*scissors)));
            }
        },
        None => {
            proof {
                assert(r@ =~= render(fs, scissors_view(*scissors)));
            }
        },
    }
    r
}

/// A compiled regular expression of the regex crate.
#[verifier::external_type_specification]
#[verifier::external_body]
pub struct ExRegex(Regex);

/// Whether the compiled regular expression `re` matches anywhere in
/// `haystack`, as `Regex::is_match` answers: a function of the regular
/// expression and the haystack alone.
pub uninterp spec fn regex_matches(re: Regex, haystack: Seq<char>) -> bool;

/// `Regex::is_match`: whether the regular expression matches anywhere in the
/// haystack. The contract names the answer only; which texts a regular
/// expression matches is left to the regex crate, which documents that this
/// call never panics.
#[verifier::external_body]
fn regex_is_match(re: &Regex, haystack: &str) -> (r: bool)
    ensures
        r == regex_matches(*re, haystack@),
{
    re.is_match(haystack)
}

impl<'a> CommitMessage<'a> {
    /// Parse a commit message.
    fn parse(message: &str) -> (r: Self)
        ensures
            r@ == parse_message(message@),
    {
        Self::parse_with(message, false)
    }

    /// Parse a commit message; with `keep_blank`, a blank line that ends the
    /// text above the scissors line stays as an empty body.
    fn parse_with(message: &str, keep_blank: bool) -> (r: Self)
        ensures
            r@ == if keep_blank {
                parse_message_keeping_blank(message@)
            } else {
                parse_message(message@)
            },
    {
        let (rest, scissors) = Scissors::<'a>::parse_sections(message);
        let comment_character = Scissors::<'a>::guess_comment_character(message);
        let per_line_ast = Self::convert_to_per_line_ast(comment_character, cow_str(&rest));
        let trailers = Trailers::from(clone_fragments(&per_line_ast));
        let mut ast = Self::group_ast(per_line_ast);
        let add_blank = if keep_blank {
            str_ends_with_newline(cow_str(&rest))
        } else {
            scissors.is_none() && str_ends_with_newline(message)
        };
        if add_blank {
            ast.push(Fragment::Body(Body::default()));
        }
        let subject = Subject::from(clone_fragments(&ast));
        let comments = Comments::from(clone_fragments(&ast));
        let bodies = Bodies::from(clone_fragments(&ast));
        let r = CommitMessage { scissors, ast, subject, trailers, comments, bodies };
        proof {
            assert(r@.scissors == parse_message(message@).scissors);
            if keep_blank {
                assert(r@.ast =~= kept_message_ast(message@));
            } else {
                assert(r@.ast =~= parse_message(message@).ast);
            }
        }
        r
    }

    /// Convert fragments (usually edited ones) and a scissors section back into
    /// a commit message: their text, parsed again.
    pub fn from_fragments(fragments: Vec<Fragment<'_>>, scissors: Option<Scissors<'_>>) -> (r: Self)
        ensures
            r@ == parse_message(render(fragment_views(fragments@), scissors_view(scissors))),
    {
        let text = render_text(&fragments, &scissors);
        Self::parse(text.as_str())
    }

    /// Insert a trailer: after the existing trailers, or in a new trailer
    /// block after the last body text.
    pub fn add_trailer(&self, trailer: Trailer<'_>) -> (r: Self)
        ensures
            r@ == insert_spec(self@, trailer_insertion(self@, trailer@)),
    {
        let mut all_empty = true;
        let mut i: usize = 0;
        let n = self.bodies.count();
        while i < n
            invariant
                i <= n,
                n == self@.bodies.len(),
                all_empty == forall|k: int| 0 <= k < i ==> #[trigger] self@.bodies[k].len() == 0,
            decreases n - i,
        {
            let e = self.bodies.is_empty_at(i);
            proof {
                if all_empty && e {
                    assert forall|k: int| 0 <= k < i + 1 implies #[trigger] self@.bodies[k].len()
                        == 0 by {
                        if k < i {
                        } else {
                            assert(k == i);
                        }
                    }
                }
                if !e {
                    assert(self@.bodies[i as int].len() != 0);
                }
            }
            if !e {
                all_empty = false;
            }
            i = i + 1;
        }
        let no_trailers = self.trailers.is_empty();
        let ghost empty_body = FragmentView::Body(Seq::<char>::empty());
        let mut fragments: Vec<Fragment<'_>> = Vec::new();
        if all_empty && no_trailers {
            fragments.push(Fragment::Body(Body::default()));
            fragments.push(Fragment::Body(Body::default()));
            proof {
                assert(fragment_views(fragments@) =~= seq![empty_body, empty_body]);
            }
        } else if no_trailers {
            fragments.push(Fragment::Body(Body::default()));
            proof {
                assert(fragment_views(fragments@) =~= seq![empty_body]);
            }
        } else {
            proof {
                assert(fragment_views(fragments@) =~= Seq::<FragmentView>::empty());
            }
        }
        let ghost before = fragment_views(fragments@);
        let f = Fragment::from(trailer);
        fragments.push(f);
        proof {
            assert(fragment_views(fragments@) =~= before.push(f@));
            assert(fragment_views(fragments@) =~= trailer_insertion(self@, trailer@));
        }
        self.insert_after_last_full_body(fragments)
    }

    /// Insert fragments right after the last non-empty body, or at the top
    /// when there is none.
    pub fn insert_after_last_full_body(&self, fragment: Vec<Fragment<'_>>) -> (r: Self)
        ensures
            r@ == insert_spec(self@, fragment_views(fragment@)),
    {
        let ghost fs = fragment_views(self.ast@);
        let n = self.ast.len();
        let mut k: usize = n;
        let mut found = false;
        assert(fs.take(n as int) =~= fs);
        while k > 0 && !found
            invariant
                k <= n,
                n == self.ast.len(),
                fs == fragment_views(self.ast@),
                last_full_body(fs) == if found {
                    Some((k - 1) as nat)
                } else {
                    last_full_body(fs.take(k as int))
                },
                found ==> k > 0,
            decreases 2 * k + if found { 0int } else { 1int },
        {
            proof {
                assert(fs.take(k as int).drop_last() =~= fs.take(k - 1));
                assert(fs.take(k as int).last() == fs[k - 1]);
            }
            let full = match &self.ast[k - 1] {
                Fragment::Body(b) => !b.is_empty(),
                Fragment::Comment(_) => false,
            };
            if full {
                found = true;
            } else {
                k = k - 1;
            }
        }
        proof {
            assert(fs.take(n as int) =~= fs);
            if !found {
                assert(fs.take(0).len() == 0);
            }
        }
        let position: usize = if found { k } else { 0 };
        let ghost inserted = fragment_views(fragment@);
        let mut combined: Vec<Fragment<'_>> = Vec::new();
        for i in 0..position
            invariant
                position <= n,
                n == self.ast.len(),
                fs == fragment_views(self.ast@),
                fragment_views(combined@) == fs.take(i as int),
        {
            let ghost prev = combined@;
            let c = self.ast[i].clone();
            combined.push(c);
            proof {
                assert(fragment_views(combined@) =~= fragment_views(prev).push(c@));
                assert(fs.take(i + 1) =~= fs.take(i as int).push(fs[i as int]));
            }
        }
        let mut extra = fragment;
        let ghost before_extra = fragment_views(combined@);
        combined.append(&mut extra);
        proof {
            assert(fragment_views(combined@) =~= fs.take(position as int) + inserted);
        }
        for i in position..n
            invariant
                position <= n,
                n == self.ast.len(),
                fs == fragment_views(self.ast@),
                fragment_views(combined@) == fs.take(position as int) + inserted + fs.subrange(
                    position as int,
                    i as int,
                ),
        {
            let ghost prev = combined@;
            let c = self.ast[i].clone();
            combined.push(c);
            proof {
                assert(fragment_views(combined@) =~= fragment_views(prev).push(c@));
                assert(fs.subrange(position as int, i + 1) =~= fs.subrange(position as int, i as int).push(
                    fs[i as int],
                ));
                assert(fs.take(position as int) + inserted + fs.subrange(position as int, i + 1)
                    =~= (fs.take(position as int) + inserted + fs.subrange(position as int, i as int)).push(
                    fs[i as int],
                ));
            }
        }
        proof {
            assert(fs.subrange(position as int, n as int) =~= fs.skip(position as int));
            assert(position == insert_position(fs));
        }
        Self::from_fragments(combined, self.get_scissors())
    }

    /// One fragment per line: a comment when the line starts with the comment
    /// character, a body otherwise.
    fn convert_to_per_line_ast(comment_character: Option<char>, rest: &str) -> (r: Vec<Fragment<'a>>)
        ensures
            fragment_views(r@) == per_line_ast(comment_character, lines(rest@)),
    {
        let ls = split_lines(rest);
        let ghost lv = string_views(ls@);
        let mut r: Vec<Fragment<'a>> = Vec::new();
        for i in 0..ls.len()
            invariant
                lv == string_views(ls@),
                fragment_views(r@) == per_line_ast(comment_character, lv.take(i as int)),
        {
            let line = ls[i].as_str();
            let is_comment = match comment_character {
                Some(c) => line.unicode_len() > 0 && line.get_char(0) == c,
                None => false,
            };
            let f = if is_comment {
                Fragment::Comment(Comment::from(line.to_owned()))
            } else {
                Fragment::Body(Body::from(line.to_owned()))
            };
            let ghost prev = r@;
            r.push(f);
            proof {
                assert(f@ == classify_line(comment_character, lv[i as int]));
                assert(fragment_views(r@) =~= fragment_views(prev).push(f@));
                assert(per_line_ast(comment_character, lv.take(i + 1)) =~= per_line_ast(
                    comment_character,
                    lv.take(i as int),
                ).push(classify_line(comment_character, lv[i as int])));
            }
        }
        proof {
            assert(lv.take(ls.len() as int) =~= lv);
        }
        r
    }

    /// Group per-line fragments into paragraphs and comment blocks.
    fn group_ast(ungrouped_ast: Vec<Fragment<'a>>) -> (r: Vec<Fragment<'a>>)
        ensures
            fragment_views(r@) == group_ast_spec(fragment_views(ungrouped_ast@)),
    {
        let ghost fs = fragment_views(ungrouped_ast@);
        let mut acc: Vec<Fragment<'a>> = Vec::new();
        for i in 0..ungrouped_ast.len()
            invariant
                fs == fragment_views(ungrouped_ast@),
                fragment_views(acc@) == group_ast_spec(fs.take(i as int)),
        {
            proof {
                assert(fs.take(i + 1).drop_last() =~= fs.take(i as int));
                assert(fs.take(i + 1).last() == fs[i as int]);
            }
            let ghost g = fragment_views(acc@);
            let new_fragment = ungrouped_ast[i].clone();
            match acc.pop() {
                None => {
                    acc.push(new_fragment);
                    proof {
                        assert(fragment_views(acc@) =~= seq![new_fragment@]);
                    }
                },
                Some(last) => {
                    let ghost rest = acc@;
                    proof {
                        assert(g =~= fragment_views(rest).push(last@));
                        assert(g.drop_last() =~= fragment_views(rest));
                    }
                    match (last, new_fragment) {
                        (Fragment::Comment(existing), Fragment::Comment(new)) => {
                            let merged = existing.append(&new);
                            acc.push(Fragment::Comment(merged));
                            proof {
                                assert(fragment_views(acc@) =~= fragment_views(rest).push(
                                    FragmentView::Comment(existing@ + newline() + new@),
                                ));
                            }
                        },
                        (Fragment::Body(existing), Fragment::Body(new)) => {
                            if new.is_empty() || existing.is_empty() {
                                let ghost e = existing@;
                                let ghost nv = new@;
                                acc.push(Fragment::Body(existing));
                                acc.push(Fragment::Body(new));
                                proof {
                                    assert(fragment_views(acc@) =~= g.push(FragmentView::Body(nv)));
                                }
                            } else {
                                let merged = existing.append(&new);
                                acc.push(Fragment::Body(merged));
                                proof {
                                    assert(fragment_views(acc@) =~= fragment_views(rest).push(
                                        FragmentView::Body(existing@ + newline() + new@),
                                    ));
                                }
                            }
                        },
                        (l, n) => {
                            let ghost lv = l@;
                            let ghost nv = n@;
                            acc.push(l);
                            acc.push(n);
                            proof {
                                assert(fragment_views(acc@) =~= g.push(nv));
                            }
                        },
                    }
                },
            }
        }
        proof {
            assert(fs.take(ungrouped_ast.len() as int) =~= fs);
        }
        acc
    }

    /// The subject line.
    pub fn get_subject(&self) -> (r: Subject<'a>)
        ensures
            r@ == self@.subject,
    {
        self.subject.clone()
    }

    /// The fragments of the message, without the scissors section.
    pub fn get_ast(&self) -> (r: Vec<Fragment<'a>>)
        ensures
            fragment_views(r@) == self@.ast,
    {
        clone_fragments(&self.ast)
    }

    /// The body paragraphs.
    pub fn get_body(&self) -> (r: Bodies<'a>)
        ensures
            r@ == self@.bodies,
    {
        self.bodies.clone()
    }

    /// The comments.
    pub fn get_comments(&self) -> (r: Comments<'a>)
        ensures
            r@ == self@.comments,
    {
        self.comments.clone()
    }

    /// The scissors section: the part `git commit --verbose` adds below the
    /// scissors line, which is not kept in the commit.
    pub fn get_scissors(&self) -> (r: Option<Scissors<'a>>)
        ensures
            scissors_view(r) == self@.scissors,
    {
        clone_scissors(&self.scissors)
    }

    /// The trailers.
    pub fn get_trailers(&self) -> (r: Trailers<'a>)
        ensures
            r@ == self@.trailers,
    {
        self.trailers.clone()
    }

    /// Does the regular expression match the part of the message the commit
    /// keeps: its body fragments, one per line, without comments or scissors?
    pub fn matches_pattern(&self, re: &Regex) -> (r: bool)
        ensures
            r == regex_matches(*re, visible_text(self@)),
    {
        let text = self.visible_text();
        regex_is_match(re, text.as_str())
    }

    /// The text that the commit keeps: its body fragments, one per line.
    fn visible_text(&self) -> (r: String)
        ensures
            r@ == visible_text(self@),
    {
        let ghost fs = fragment_views(self.ast@);
        let mut parts: Vec<String> = Vec::new();
        for i in 0..self.ast.len()
            invariant
                fs == fragment_views(self.ast@),
                string_views(parts@) == body_texts(fs.take(i as int)),
        {
            proof {
                assert(fs.take(i + 1).drop_last() =~= fs.take(i as int));
            }
            match &self.ast[i] {
                Fragment::Body(b) => {
                    let ghost prev = parts@;
                    let t = b.to_string();
                    parts.push(t);
                    proof {
                        assert(string_views(parts@) =~= body_texts(fs.take(i as int)) + seq![b@]);
                    }
                },
                Fragment::Comment(_) => {
                    proof {
                        assert(body_texts(fs.take(i as int)) + Seq::empty() =~= body_texts(
                            fs.take(i as int),
                        ));
                    }
                },
            }
        }
        proof {
            assert(fs.take(self.ast.len() as int) =~= fs);
            reveal_strlit("\n");
            assert("\n"@ =~= newline());
        }
        join_all(&parts, "\n")
    }

    /// The message with the given subject: its first fragment becomes a body
    /// holding the subject.
    pub fn with_subject(self, subject: Subject<'a>) -> (r: Self)
        ensures
            r@ == with_subject_spec(self@, subject@),
    {
        let mut ast = self.ast;
        let ghost old_ast = fragment_views(ast@);
        if ast.len() > 0 {
            ast.remove(0);
        }
        let ghost mid = fragment_views(ast@);
        proof {
            if old_ast.len() > 0 {
                assert(mid =~= old_ast.skip(1));
            }
        }
        let f = Fragment::Body(Body::from(subject.to_string()));
        ast.insert(0, f);
        let r = CommitMessage {
            scissors: self.scissors,
            ast,
            subject,
            trailers: self.trailers,
            comments: self.comments,
            bodies: self.bodies,
        };
        proof {
            assert(r@.ast =~= with_subject_spec(self@, subject@).ast);
        }
        r
    }

    /// The message with new body contents under its existing subject: the
    /// contents are kept as written, a blank line right above a scissors
    /// line included.
    pub fn with_body_contents(self, contents: &'a str) -> (r: Self)
        ensures
            r@ == with_subject_spec(
                parse_message_keeping_blank(unused_subject_prefix() + contents@),
                self@.subject,
            ),
    {
        let existing_subject = self.get_subject();
        let mut body = String::from_str("Unused\n\n");
        body.append(contents);
        proof {
            reveal_strlit("Unused\n\n");
            assert(body@ =~= unused_subject_prefix() + contents@);
        }
        let commit = Self::parse_with(body.as_str(), true);
        commit.with_subject(existing_subject)
    }

    /// The comment character: the first character of the first comment.
    pub fn get_comment_char(&self) -> (r: Option<char>)
        ensures
            r == comment_char_spec(self@),
    {
        match self.comments.first() {
            Some(c) => {
                let s = c.as_str();
                if s.unicode_len() > 0 {
                    Some(s.get_char(0))
                } else {
                    None
                }
            },
            None => None,
        }
    }

    /// The text of the message: its fragments one per line, then its scissors
    /// section.
    pub(crate) fn to_text(&self) -> (r: String)
        ensures
            r@ == render(self@.ast, self@.scissors),
    {
        render_text(&self.ast, &self.scissors)
    }
}

impl<'a> Clone for CommitMessage<'a> {
    fn clone(&self) -> (r: Self)
        ensures
            r@ == self@,
    {
        let r = CommitMessage {
            scissors: clone_scissors(&self.scissors),
            ast: clone_fragments(&self.ast),
            subject: self.subject.clone(),
            trailers: self.trailers.clone(),
            comments: self.comments.clone(),
            bodies: self.bodies.clone(),
        };
        r
    }
}

impl<'a> Default for CommitMessage<'a> {
    fn default() -> (r: Self)
        ensures
            r@ == (CommitMessageView {
                scissors: None,
                ast: Seq::empty(),
                subject: Seq::empty(),
                trailers: Seq::empty(),
                comments: Seq::empty(),
                bodies: Seq::empty(),
            }),
    {
        let r = CommitMessage {
            scissors: None,
            ast: Vec::new(),
            subject: Subject::default(),
            trailers: Trailers::default(),
            comments: Comments::default(),
            bodies: Bodies::default(),
        };
        proof {
            assert(r@.ast =~= Seq::<FragmentView>::empty());
        }
        r
    }
}

impl<'a> From<CommitMessage<'a>> for String {
    /// The text of the message: its fragments one per line, then its scissors
    /// section.
    fn from(commit_message: CommitMessage<'a>) -> (r: String)
        ensures
            r@ == render(commit_message@.ast, commit_message@.scissors),
    {
        commit_message.to_text()
    }
}

impl<'a> vstd::std_specs::convert::FromSpecImpl<CommitMessage<'a>> for String {
    open spec fn obeys_from_spec() -> bool {
        false
    }

    open spec fn from_spec(commit_message: CommitMessage<'a>) -> Self {
        arbitrary()
    }
}

impl<'a> From<Cow<'a, str>> for CommitMessage<'a> {
    /// Parse a commit message, as read in a git hook.
    fn from(message: Cow<'a, str>) -> (r: Self)
        ensures
            r@ == parse_message(message@),
    {
        Self::parse(cow_str(&message))
    }
}

impl<'a> vstd::std_specs::convert::FromSpecImpl<Cow<'a, str>> for CommitMessage<'a> {
    open spec fn obeys_from_spec() -> bool {
        false
    }

    open spec fn from_spec(message: Cow<'a, str>) -> Self {
        arbitrary()
    }
}

impl<'a> From<&'a str> for CommitMessage<'a> {
    /// Parse a commit message, as read in a git hook.
    fn from(message: &'a str) -> (r: Self)
        ensures
            r@ == parse_message(message@),
    {
        Self::parse(message)
    }
}

impl<'a> vstd::std_specs::convert::FromSpecImpl<&'a str> for CommitMessage<'a> {
    open spec fn obeys_from_spec() -> bool {
        false
    }

    open spec fn from_spec(message: &'a str) -> Self {
        arbitrary()
    }
}

impl<'a> From<String> for CommitMessage<'a> {
    /// Parse a commit message, as read in a git hook.
    fn from(message: String) -> (r: Self)
        ensures
            r@ == parse_message(message@),
    {
        Self::parse(message.as_str())
    }
}

impl<'a> vstd::std_specs::convert::FromSpecImpl<String> for CommitMessage<'a> {
    open spec fn obeys_from_spec() -> bool {
        false
    }

    open spec fn from_spec(message: String) -> Self {
        arbitrary()
    }
}

} // verus!
