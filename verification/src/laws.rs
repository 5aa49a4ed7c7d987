//! Properties of the library as a whole: what printing a parsed message gives
//! back, and how the parts of a parsed message relate.

use vstd::prelude::*;

use crate::comment::legal_comment_char;
use crate::comments::comment_texts;
use crate::bodies::{bodies_spec, body_texts, trailer_like, trailer_like_suffix};
use crate::commit_message::{
    comment_char_spec, group_ast_spec, insert_position, is_full_body, kept_message_ast,
    last_full_body, merge_fragment, message_ast, parse_message, parse_message_keeping_blank,
    per_line_ast, render, unused_subject_prefix, with_subject_spec, CommitMessageView,
};
use crate::fragment::{fragment_text, fragment_texts, FragmentView};
use crate::scissors::{
    guess_comment_character_spec, last_answer, legal_first_char, parse_sections_spec,
    scissors_line_char, scissors_marker, scissors_position,
};
use crate::text::{
    ends_with, ends_with_cr, ends_with_newline, join, lemma_join_concat, lemma_join_last,
    lemma_join_no_crlf, lemma_join_push, lemma_lines_clean, lemma_lines_join, lemma_lines_of_join,
    lemma_lines_of_join_trim, lemma_lines_prefix, lemma_lines_rejoin, lemma_lines_reprint, lines,
    lines_reprintable, newline, no_cr_before_crlf, no_crlf, no_newline, lemma_count_prefix_is,
    lemma_count_suffix_is, differs_from, index_of, trim, trim_end, trim_start, unicode_alphanumeric,
    unicode_whitespace,
};
use crate::trailers::trailers_spec;
use crate::trailer::{
    find_colon_space, parse_colon_trailer_spec, parse_trailer_spec, trailer_text, TrailerView,
};

verus! {

/// The scissors line, when there is one, is not the first line, and it is
/// the second line or follows a line with text on it.
pub open spec fn scissors_well_placed(message: Seq<char>) -> bool {
    let ls = lines(message);
    match scissors_position(ls) {
        Some(p) => p > 0 && (p == 1 || ls[p - 1].len() > 0),
        None => true,
    }
}

proof fn lemma_scissors_position_bound(ls: Seq<Seq<char>>)
    ensures
        scissors_position(ls) matches Some(p) ==> p < ls.len(),
    decreases ls.len(),
{
    if ls.len() > 0 {
        lemma_scissors_position_bound(ls.drop_first());
    }
}

proof fn lemma_per_line_texts(cc: Option<char>, ls: Seq<Seq<char>>)
    ensures
        fragment_texts(per_line_ast(cc, ls)) == ls,
{
    assert(fragment_texts(per_line_ast(cc, ls)) =~= ls);
}

proof fn lemma_texts_push(fs: Seq<FragmentView>, f: FragmentView)
    ensures
        fragment_texts(fs.push(f)) == fragment_texts(fs).push(fragment_text(f)),
{
    assert(fragment_texts(fs.push(f)) =~= fragment_texts(fs).push(fragment_text(f)));
}

/// Merging a fragment keeps the joined text of the fragments.
proof fn lemma_merge_join(g: Seq<FragmentView>, f: FragmentView)
    ensures
        join(fragment_texts(merge_fragment(g, f)), newline()) == join(
            fragment_texts(g).push(fragment_text(f)),
            newline(),
        ),
        merge_fragment(g, f).len() > 0,
{
    lemma_texts_push(g, f);
    if g.len() > 0 {
        let g2 = g.drop_last();
        assert(g =~= g2.push(g.last()));
        lemma_texts_push(g2, g.last());
        match (g.last(), f) {
            (FragmentView::Comment(a), FragmentView::Comment(b)) => {
                merge_texts(g2, a, b, FragmentView::Comment(a + newline() + b));
            },
            (FragmentView::Body(a), FragmentView::Body(b)) => {
                if !(a.len() == 0 || b.len() == 0) {
                    merge_texts(g2, a, b, FragmentView::Body(a + newline() + b));
                }
            },
            _ => {},
        }
    } else {
        assert(fragment_texts(seq![f]) =~= fragment_texts(g).push(fragment_text(f)));
    }
}

proof fn merge_texts(g2: Seq<FragmentView>, a: Seq<char>, b: Seq<char>, merged: FragmentView)
    requires
        fragment_text(merged) == a + newline() + b,
    ensures
        join(fragment_texts(g2.push(merged)), newline()) == join(
            fragment_texts(g2).push(a).push(b),
            newline(),
        ),
{
    lemma_texts_push(g2, merged);
    let t2 = fragment_texts(g2);
    lemma_join_push(t2, a + newline() + b, newline());
    lemma_join_push(t2.push(a), b, newline());
    lemma_join_push(t2, a, newline());
    if t2.len() == 0 {
        assert(join(t2.push(a), newline()) == a);
    } else {
        assert(join(t2, newline()) + newline() + (a + newline() + b) =~= join(t2, newline())
            + newline() + a + newline() + b);
    }
}

/// Grouping keeps the joined text of the fragments, and keeps them non-empty.
proof fn lemma_group_join(fs: Seq<FragmentView>)
    ensures
        join(fragment_texts(group_ast_spec(fs)), newline()) == join(fragment_texts(fs), newline()),
        group_ast_spec(fs).len() > 0 <==> fs.len() > 0,
    decreases fs.len(),
{
    if fs.len() > 0 {
        let f2 = fs.drop_last();
        lemma_group_join(f2);
        let g = group_ast_spec(f2);
        lemma_merge_join(g, fs.last());
        assert(fs =~= f2.push(fs.last()));
        lemma_texts_push(f2, fs.last());
        lemma_join_push(fragment_texts(g), fragment_text(fs.last()), newline());
        lemma_join_push(fragment_texts(f2), fragment_text(fs.last()), newline());
    }
}

/// The joined text of the grouped lines of `rest` is `rest`, but for a final newline.
proof fn lemma_ast_text(cc: Option<char>, rest: Seq<char>)
    requires
        no_crlf(rest),
    ensures
        join(fragment_texts(group_ast_spec(per_line_ast(cc, lines(rest)))), newline()) + (
        if ends_with_newline(rest) {
            newline()
        } else {
            Seq::empty()
        }) == rest,
        group_ast_spec(per_line_ast(cc, lines(rest))).len() > 0 <==> rest.len() > 0,
{
    lemma_group_join(per_line_ast(cc, lines(rest)));
    lemma_per_line_texts(cc, lines(rest));
    lemma_lines_join(rest);
    lemma_lines_clean(rest);
}

/// Printing a parsed message gives the message back. This holds of every
/// message with no carriage return right before a newline whose scissors
/// line, if it has one, is placed as `scissors_well_placed` says.
pub proof fn lemma_parse_render_roundtrip(message: Seq<char>)
    requires
        no_crlf(message),
        scissors_well_placed(message),
    ensures
        render(parse_message(message).ast, parse_message(message).scissors) == message,
{
    let ls = lines(message);
    let cc = guess_comment_character_spec(message);
    let m = parse_message(message);
    lemma_lines_join(message);
    lemma_lines_clean(message);
    lemma_scissors_position_bound(ls);
    match scissors_position(ls) {
        Some(p) => {
            let before = ls.take(p as int);
            let after = ls.skip(p as int);
            let rest = join(before, newline());
            assert(parse_sections_spec(message).0 == rest);
            assert(before.last() == ls[p - 1]);
            assert(no_newline(ls[p - 1]));
            if ls[p - 1].len() > 0 {
                lemma_join_last(before, newline());
            } else {
                assert(before =~= seq![ls[0]]);
                assert(rest == ls[0]);
            }
            assert forall|i: int| 0 <= i < before.len() implies no_crlf(#[trigger] before[i]) by {
                assert(before[i] == ls[i]);
            }
            assert forall|i: int| 0 <= i < before.len() - 1 implies !ends_with_cr(
                #[trigger] before[i],
            ) by {
                assert(before[i] == ls[i]);
            }
            lemma_join_no_crlf(before);
            lemma_ast_text(cc, rest);
            assert(!ends_with_newline(rest));
            assert(m.ast == group_ast_spec(per_line_ast(cc, lines(rest))));
            assert(join(fragment_texts(m.ast), newline()) + Seq::<char>::empty() == rest);
            assert(join(fragment_texts(m.ast), newline()) =~= rest);
            lemma_join_concat(before, after, newline());
            assert(before + after =~= ls);
            let e = if ends_with_newline(message) {
                newline()
            } else {
                Seq::<char>::empty()
            };
            assert(render(m.ast, m.scissors) =~= rest + newline() + (join(after, newline()) + e));
            assert(render(m.ast, m.scissors) =~= join(ls, newline()) + e);
        },
        None => {
            assert(parse_sections_spec(message).0 == message);
            lemma_ast_text(cc, message);
            let g = group_ast_spec(per_line_ast(cc, lines(message)));
            if ends_with_newline(message) {
                assert(m.ast == g.push(FragmentView::Body(Seq::empty())));
                lemma_texts_push(g, FragmentView::Body(Seq::empty()));
                lemma_join_push(fragment_texts(g), Seq::empty(), newline());
                assert(render(m.ast, m.scissors) =~= join(fragment_texts(g), newline()) + newline());
            } else {
                assert(m.ast == g);
                assert(render(m.ast, m.scissors) =~= join(fragment_texts(g), newline()) + Seq::<
                    char,
                >::empty());
            }
        },
    }
}

/// Two blank lines do not stand right above the scissors line.
pub open spec fn no_blank_pair_above_scissors(message: Seq<char>) -> bool {
    let ls = lines(message);
    match scissors_position(ls) {
        Some(p) => !(p >= 2 && ls[p - 1].len() == 0 && ls[p - 2].len() == 0),
        None => true,
    }
}

proof fn lemma_scissors_position_facts(ls: Seq<Seq<char>>)
    ensures
        match scissors_position(ls) {
            Some(p) => p < ls.len() && ends_with(ls[p as int], scissors_marker()) && forall|i: int|
                0 <= i < p ==> !ends_with(#[trigger] ls[i], scissors_marker()),
            None => forall|i: int| 0 <= i < ls.len() ==> !ends_with(#[trigger] ls[i], scissors_marker()),
        },
    decreases ls.len(),
{
    if ls.len() > 0 {
        let t = ls.drop_first();
        lemma_scissors_position_facts(t);
        if !ends_with(ls[0], scissors_marker()) {
            assert forall|i: int| 1 <= i < ls.len() implies ls[i] == t[i - 1] by {}
        }
    }
}

proof fn lemma_scissors_position_append(a: Seq<Seq<char>>, b: Seq<Seq<char>>)
    requires
        forall|i: int| 0 <= i < a.len() ==> !ends_with(#[trigger] a[i], scissors_marker()),
    ensures
        scissors_position(a + b) == match scissors_position(b) {
            Some(q) => Some(q + a.len()),
            None => None::<nat>,
        },
    decreases a.len(),
{
    if a.len() == 0 {
        assert(a + b =~= b);
    } else {
        let a2 = a.drop_first();
        assert forall|i: int| 0 <= i < a2.len() implies !ends_with(#[trigger] a2[i], scissors_marker()) by {
            assert(a2[i] == a[i + 1]);
        }
        lemma_scissors_position_append(a2, b);
        assert((a + b)[0] == a[0]);
        assert((a + b).drop_first() =~= a2 + b);
    }
}

proof fn lemma_last_answer_append(
    a: Seq<Seq<char>>,
    b: Seq<Seq<char>>,
    f: spec_fn(Seq<char>) -> Option<char>,
)
    ensures
        last_answer(a + b, f) == match last_answer(b, f) {
            Some(c) => Some(c),
            None => last_answer(a, f),
        },
    decreases b.len(),
{
    if b.len() == 0 {
        assert(a + b =~= a);
    } else {
        lemma_last_answer_append(a, b.drop_last(), f);
        assert((a + b).drop_last() =~= a + b.drop_last());
        assert((a + b).last() == b.last());
    }
}

/// Lines that differ only by empty lines at their end give the same guess.
proof fn lemma_guess_ignores_empty_tail(a: Seq<Seq<char>>, b: Seq<Seq<char>>, w: Seq<Seq<char>>)
    requires
        a == b || a == b.push(Seq::<char>::empty()) || b == a.push(Seq::<char>::empty()),
    ensures
        last_answer(a + w, |l: Seq<char>| scissors_line_char(l)) == last_answer(
            b + w,
            |l: Seq<char>| scissors_line_char(l),
        ),
        last_answer(a + w, |l: Seq<char>| legal_first_char(l)) == last_answer(
            b + w,
            |l: Seq<char>| legal_first_char(l),
        ),
{
    let f1 = |l: Seq<char>| scissors_line_char(l);
    let f2 = |l: Seq<char>| legal_first_char(l);
    let e = Seq::<char>::empty();
    assert(f1(e) is None);
    assert(f2(e) is None);
    lemma_last_answer_append(a, w, f1);
    lemma_last_answer_append(b, w, f1);
    lemma_last_answer_append(a, w, f2);
    lemma_last_answer_append(b, w, f2);
    if a == b.push(e) {
        assert(a.drop_last() =~= b);
    } else if b == a.push(e) {
        assert(b.drop_last() =~= a);
    }
}

/// The text that rebuilding a message from its parts writes out, when the
/// message has no scissors section.
proof fn lemma_render_without_scissors(message: Seq<char>)
    requires
        no_cr_before_crlf(message),
        scissors_position(lines(message)) is None,
    ensures
        ({
            let pm = parse_message(message);
            let s = render(pm.ast, pm.scissors);
            lines(s) == lines(message) && ends_with_newline(s) == ends_with_newline(message)
        }),
{
    let ls = lines(message);
    let cc = guess_comment_character_spec(message);
    let pm = parse_message(message);
    let s = render(pm.ast, pm.scissors);
    lemma_lines_clean(message);
    lemma_lines_reprint(message);
    let g = group_ast_spec(per_line_ast(cc, ls));
    assert(parse_sections_spec(message).0 == message);
    lemma_group_join(per_line_ast(cc, ls));
    lemma_per_line_texts(cc, ls);
    assert(join(fragment_texts(g), newline()) == join(ls, newline()));
    let nl = ends_with_newline(message);
    if ls.len() == 0 {
        assert(message.len() == 0);
        assert(pm.ast == g);
        assert(g.len() == 0);
        assert(s =~= message);
    } else {
        if nl {
            assert(pm.ast == g.push(FragmentView::Body(Seq::empty())));
            lemma_texts_push(g, FragmentView::Body(Seq::empty()));
            lemma_join_push(fragment_texts(g), Seq::empty(), newline());
            assert(s =~= join(ls, newline()) + newline());
        } else {
            assert(pm.ast == g);
            assert(s =~= join(ls, newline()) + Seq::<char>::empty());
        }
        lemma_lines_rejoin(ls, nl);
    }
}

/// The text that rebuilding a message from its parts writes out, when the
/// message has a scissors section: the lines above the scissors line as the
/// parser keeps them (a blank line when it keeps none), then the scissors section.
proof fn lemma_render_with_scissors(message: Seq<char>, p: nat)
    requires
        no_cr_before_crlf(message),
        scissors_position(lines(message)) == Some(p),
    ensures
        ({
            let ls = lines(message);
            let t = ls.take(p as int);
            let v = lines(join(t, newline()));
            let v2 = if v.len() == 0 {
                seq![Seq::<char>::empty()]
            } else {
                v
            };
            let pm = parse_message(message);
            let s = render(pm.ast, pm.scissors);
            &&& v == if t.len() > 0 && t.last().len() == 0 {
                t.drop_last()
            } else {
                t
            }
            &&& lines(s) == v2 + ls.skip(p as int)
            &&& ends_with_newline(s) == ends_with_newline(message)
        }),
{
    let ls = lines(message);
    let cc = guess_comment_character_spec(message);
    let pm = parse_message(message);
    let s = render(pm.ast, pm.scissors);
    let nl = ends_with_newline(message);
    lemma_lines_clean(message);
    lemma_lines_reprint(message);
    lemma_scissors_position_facts(ls);
    let t = ls.take(p as int);
    let w = ls.skip(p as int);
    let rest = join(t, newline());
    let sc = join(w, newline()) + if nl {
        newline()
    } else {
        Seq::empty()
    };
    assert(lines_reprintable(t)) by {
        assert forall|i: int| 0 <= i < t.len() implies no_newline(#[trigger] t[i])
            && !ends_with_cr(t[i]) by {
            assert(t[i] == ls[i]);
        }
    }
    lemma_lines_of_join_trim(t);
    let v = lines(rest);
    assert(parse_sections_spec(message).0 == rest);
    assert(pm.scissors == Some(sc));
    let g = group_ast_spec(per_line_ast(cc, v));
    assert(pm.ast == g);
    lemma_group_join(per_line_ast(cc, v));
    lemma_per_line_texts(cc, v);
    assert(s == join(v, newline()) + newline() + sc);
    assert forall|i: int| 0 <= i < w.len() implies no_newline(#[trigger] w[i]) by {
        assert(w[i] == ls[i + p]);
    }
    assert forall|i: int| 0 <= i < w.len() - 1 implies !ends_with_cr(#[trigger] w[i]) by {
        assert(w[i] == ls[i + p]);
    }
    assert(w.last() == ls.last());
    lemma_lines_rejoin(w, nl);
    if v.len() == 0 {
        assert(join(v, newline()) == Seq::<char>::empty());
        lemma_lines_prefix(Seq::<char>::empty(), sc);
        assert(s =~= Seq::<char>::empty() + newline() + sc);
    } else {
        assert(lines_reprintable(v)) by {
            assert forall|i: int| 0 <= i < v.len() implies no_newline(#[trigger] v[i])
                && !ends_with_cr(v[i]) by {
                assert(v[i] == t[i]);
            }
        }
        lemma_lines_of_join(v, sc);
    }
    assert(s.last() == sc.last());
}

/// The lines kept above the scissors line, and the blank line written out
/// when none is kept, differ from the lines above it in the message only by
/// one empty line at their end.
proof fn lemma_kept_lines_shape(t: Seq<Seq<char>>, v: Seq<Seq<char>>)
    requires
        v == if t.len() > 0 && t.last().len() == 0 {
            t.drop_last()
        } else {
            t
        },
    ensures
        ({
            let v2 = if v.len() == 0 {
                seq![Seq::<char>::empty()]
            } else {
                v
            };
            v2 == t || v2 == t.push(Seq::<char>::empty()) || t == v2.push(Seq::<char>::empty())
        }),
{
    let e = Seq::<char>::empty();
    if t.len() > 0 && t.last().len() == 0 {
        assert(t.last() =~= e);
        assert(t =~= t.drop_last().push(e));
        if v.len() == 0 {
            assert(t =~= seq![e]);
        }
    } else if v.len() == 0 {
        assert(seq![e] =~= t.push(e));
    }
}

/// Two messages whose text above the scissors line has the same lines, with
/// the same scissors section and the same guessed comment character, and
/// that end alike when they have no scissors section, parse alike.
proof fn lemma_parse_congruence(a: Seq<char>, b: Seq<char>)
    requires
        lines(parse_sections_spec(a).0) == lines(parse_sections_spec(b).0),
        parse_sections_spec(a).1 == parse_sections_spec(b).1,
        guess_comment_character_spec(a) == guess_comment_character_spec(b),
        parse_sections_spec(a).1 is None ==> ends_with_newline(a) == ends_with_newline(b),
    ensures
        parse_message(a) == parse_message(b),
{
    assert(message_ast(a) == message_ast(b));
}

/// Rebuilding a message with a scissors section from its parts gives the same message.
proof fn lemma_from_fragments_with_scissors(message: Seq<char>, p: nat)
    requires
        no_cr_before_crlf(message),
        no_blank_pair_above_scissors(message),
        scissors_position(lines(message)) == Some(p),
    ensures
        parse_message(render(parse_message(message).ast, parse_message(message).scissors))
            == parse_message(message),
{
    let pm = parse_message(message);
    let s = render(pm.ast, pm.scissors);
    let ls = lines(message);
    lemma_render_with_scissors(message, p);
    let t = ls.take(p as int);
    let w = ls.skip(p as int);
    let v = lines(join(t, newline()));
    let v2 = if v.len() == 0 {
        seq![Seq::<char>::empty()]
    } else {
        v
    };
    let ls2 = lines(s);
    assert(ls2 == v2 + w);
    assert(p < ls.len() && ends_with(w[0], scissors_marker()) && lines_reprintable(v2) && forall|
        i: int,
    | 0 <= i < v2.len() ==> !ends_with(#[trigger] v2[i], scissors_marker())) by {
        lemma_scissors_position_facts(ls);
        lemma_lines_clean(message);
        lemma_lines_reprint(message);
        assert(w[0] == ls[p as int]);
        assert forall|i: int| 0 <= i < v2.len() implies no_newline(#[trigger] v2[i])
            && !ends_with_cr(v2[i]) && !ends_with(v2[i], scissors_marker()) by {
            if v.len() > 0 {
                assert(v2[i] == t[i]);
                assert(t[i] == ls[i]);
            }
        }
    }
    let p2 = v2.len();
    assert(scissors_position(ls2) == Some(p2)) by {
        lemma_scissors_position_append(v2, w);
        assert(scissors_position(w) == Some(0nat));
    }
    assert(parse_sections_spec(s).0 == join(v2, newline()) && parse_sections_spec(s).1
        == parse_sections_spec(message).1) by {
        assert(ls2.take(p2 as int) =~= v2);
        assert(ls2.skip(p2 as int) =~= w);
    }
    assert(guess_comment_character_spec(s) == guess_comment_character_spec(message)) by {
        assert(t + w =~= ls);
        lemma_kept_lines_shape(t, v);
        lemma_guess_ignores_empty_tail(v2, t, w);
    }
    assert(lines(join(v2, newline())) == v) by {
        lemma_lines_of_join_trim(v2);
        if v.len() > 0 && t.last().len() == 0 {
            assert(ls[p - 1] == t.last());
            assert(ls[p - 2] == t[t.len() - 2]);
            assert(v.last() == t[t.len() - 2]);
        }
    }
    lemma_parse_congruence(s, message);
}

/// Rebuilding a parsed message from its fragments and scissors section gives
/// the same message. This holds of every message with no carriage return
/// right before a carriage return and a newline, and without two blank lines
/// right above its scissors line.
pub proof fn lemma_from_fragments_roundtrip(message: Seq<char>)
    requires
        no_cr_before_crlf(message),
        no_blank_pair_above_scissors(message),
    ensures
        parse_message(render(parse_message(message).ast, parse_message(message).scissors))
            == parse_message(message),
{
    let pm = parse_message(message);
    let s = render(pm.ast, pm.scissors);
    match scissors_position(lines(message)) {
        None => {
            lemma_render_without_scissors(message);
            assert(parse_sections_spec(s).0 == s);
            assert(guess_comment_character_spec(s) == guess_comment_character_spec(message));
            assert(message_ast(s) == message_ast(message));
        },
        Some(p) => {
            lemma_from_fragments_with_scissors(message, p);
        },
    }
}

proof fn lemma_find_colon_space_found(s: Seq<char>)
    ensures
        find_colon_space(s) matches Some(i) ==> i + 2 <= s.len() && s[i as int] == ':' && s[(i + 1) as int]
            == ' ',
    decreases s.len(),
{
    if s.len() >= 2 && !(s[0] == ':' && s[1] == ' ') {
        let t = s.drop_first();
        lemma_find_colon_space_found(t);
        if let Some(i) = find_colon_space(t) {
            assert(s[(i + 1) as int] == t[i as int]);
            assert(s[(i + 2) as int] == t[(i + 1) as int]);
        }
    }
}

/// Parsing a line as a `Key: value` trailer and writing the trailer out again
/// gives the line back: the key, the separator and the value keep every
/// character, spaces and later `": "` included.
pub proof fn lemma_colon_trailer_reprint(s: Seq<char>)
    ensures
        parse_colon_trailer_spec(s) matches Some(t) ==> trailer_text(t) == s,
{
    lemma_find_colon_space_found(s);
    if let Some(t) = parse_colon_trailer_spec(s) {
        let i = find_colon_space(s)->0;
        assert(trailer_text(t) =~= s.take(i as int) + seq![':', ' '] + s.skip((i + 2) as int));
        assert(s.take(i as int) + seq![':', ' '] + s.skip((i + 2) as int) =~= s);
    }
}

proof fn lemma_find_colon_space_after_key(key: Seq<char>, rest: Seq<char>)
    requires
        find_colon_space(key) is None,
        rest.len() >= 2,
        rest[0] == ':',
        rest[1] == ' ',
    ensures
        find_colon_space(key + rest) == Some(key.len()),
    decreases key.len(),
{
    let s = key + rest;
    if key.len() > 0 {
        assert(s[0] == key[0]);
        if key.len() >= 2 {
            assert(s[1] == key[1]);
            lemma_find_colon_space_after_key(key.drop_first(), rest);
        } else {
            assert(s[1] == rest[0]);
            assert(key.drop_first().len() == 0);
            lemma_find_colon_space_after_key(key.drop_first(), rest);
        }
        assert(s.drop_first() =~= key.drop_first() + rest);
    } else {
        assert(s =~= rest);
    }
}

/// A trailer written out with the `": "` separator parses back to itself,
/// whenever its key is not empty and holds no `": "`.
pub proof fn lemma_trailer_text_roundtrip(key: Seq<char>, value: Seq<char>)
    requires
        key.len() > 0,
        find_colon_space(key) is None,
    ensures
        parse_trailer_spec(trailer_text(TrailerView { key, value, separator: seq![':', ' '] }))
            == Some(TrailerView { key, value, separator: seq![':', ' '] }),
{
    let t = TrailerView { key, value, separator: seq![':', ' '] };
    let s = trailer_text(t);
    lemma_find_colon_space_after_key(key, seq![':', ' '] + value);
    assert(s =~= key + (seq![':', ' '] + value));
    assert(s.take(key.len() as int) =~= key);
    assert(s.skip((key.len() + 2) as int) =~= value);
}

/// Every comment fragment starts with the comment character `cc`.
pub open spec fn comments_start_with(fs: Seq<FragmentView>, cc: Option<char>) -> bool {
    forall|i: int|
        #![trigger fs[i]]
        0 <= i < fs.len() ==> (fs[i] matches FragmentView::Comment(t) ==> cc matches Some(c)
            && t.len() > 0 && t[0] == c)
}

proof fn lemma_per_line_comments(cc: Option<char>, ls: Seq<Seq<char>>)
    ensures
        comments_start_with(per_line_ast(cc, ls), cc),
{
}

proof fn lemma_group_comments(fs: Seq<FragmentView>, cc: Option<char>)
    requires
        comments_start_with(fs, cc),
    ensures
        comments_start_with(group_ast_spec(fs), cc),
    decreases fs.len(),
{
    if fs.len() > 0 {
        let f2 = fs.drop_last();
        assert(comments_start_with(f2, cc)) by {
            assert forall|i: int| #![trigger f2[i]] 0 <= i < f2.len() implies (f2[i] matches FragmentView::Comment(t)
                ==> cc matches Some(c) && t.len() > 0 && t[0] == c) by {
                assert(f2[i] == fs[i]);
            }
        }
        lemma_group_comments(f2, cc);
        let g = group_ast_spec(f2);
        let f = fs.last();
        assert(f == fs[fs.len() - 1]);
        let r = merge_fragment(g, f);
        assert forall|i: int| #![trigger r[i]] 0 <= i < r.len() implies (r[i] matches FragmentView::Comment(t)
            ==> cc matches Some(c) && t.len() > 0 && t[0] == c) by {
            if g.len() > 0 {
                assert(g.last() == g[g.len() - 1]);
                if i < g.len() - 1 {
                    assert(r[i] == g[i]);
                } else if i == g.len() - 1 {
                    if let (FragmentView::Comment(a), FragmentView::Comment(b)) = (g.last(), f) {
                        assert(r[i] == FragmentView::Comment(a + newline() + b));
                        assert((a + newline() + b)[0] == a[0]);
                    } else {
                        assert(r[i] == g[i] || r[i] matches FragmentView::Body(_));
                    }
                }
            }
        }
    }
}

proof fn lemma_comment_texts_start(fs: Seq<FragmentView>, c: char)
    requires
        comments_start_with(fs, Some(c)),
    ensures
        forall|j: int|
            0 <= j < comment_texts(fs).len() ==> #[trigger] comment_texts(fs)[j].len() > 0
                && comment_texts(fs)[j][0] == c,
    decreases fs.len(),
{
    if fs.len() > 0 {
        let f2 = fs.drop_last();
        assert(comments_start_with(f2, Some(c))) by {
            assert forall|i: int| #![trigger f2[i]] 0 <= i < f2.len() implies (f2[i] matches FragmentView::Comment(t)
                ==> Some(c) matches Some(d) && t.len() > 0 && t[0] == d) by {
                assert(f2[i] == fs[i]);
            }
        }
        lemma_comment_texts_start(f2, c);
        assert(fs.last() == fs[fs.len() - 1]);
        let ct = comment_texts(fs);
        let ct2 = comment_texts(f2);
        assert forall|j: int| 0 <= j < ct.len() implies #[trigger] ct[j].len() > 0 && ct[j][0]
            == c by {
            if j < ct2.len() {
                assert(ct[j] == ct2[j]);
            }
        }
    }
}

/// The comment character of a parsed message, read from its first comment,
/// is the comment character guessed for the message: every comment starts
/// with it.
pub proof fn lemma_comment_char_is_guessed(message: Seq<char>)
    ensures
        parse_message(message).comments.len() > 0 ==> comment_char_spec(parse_message(message))
            == guess_comment_character_spec(message),
{
    let cc = guess_comment_character_spec(message);
    let rest = parse_sections_spec(message).0;
    let per_line = per_line_ast(cc, lines(rest));
    lemma_per_line_comments(cc, lines(rest));
    lemma_group_comments(per_line, cc);
    let g = group_ast_spec(per_line);
    let ast = message_ast(message);
    assert(comments_start_with(ast, cc)) by {
        if ast != g {
            assert(ast == g.push(FragmentView::Body(Seq::empty())));
            assert forall|i: int| #![trigger ast[i]] 0 <= i < ast.len() implies (ast[i] matches FragmentView::Comment(
                t,
            ) ==> cc matches Some(c) && t.len() > 0 && t[0] == c) by {
                if i < g.len() {
                    assert(ast[i] == g[i]);
                }
            }
        }
    }
    if parse_message(message).comments.len() > 0 {
        if cc is None {
            assert(comment_texts(ast).len() == 0) by {
                lemma_no_comments(ast);
            }
        } else {
            lemma_comment_texts_start(ast, cc->0);
            assert(comment_texts(ast)[0].len() > 0);
        }
    }
}

proof fn lemma_no_comments(fs: Seq<FragmentView>)
    requires
        comments_start_with(fs, None),
    ensures
        comment_texts(fs).len() == 0,
    decreases fs.len(),
{
    if fs.len() > 0 {
        let f2 = fs.drop_last();
        assert(comments_start_with(f2, None)) by {
            assert forall|i: int| #![trigger f2[i]] 0 <= i < f2.len() implies (f2[i] matches FragmentView::Comment(t)
                ==> None::<char> matches Some(c) && t.len() > 0 && t[0] == c) by {
                assert(f2[i] == fs[i]);
            }
        }
        lemma_no_comments(f2);
        assert(fs.last() == fs[fs.len() - 1]);
    }
}

/// The lines of the text that new body contents are parsed in.
proof fn lemma_unused_lines(c: Seq<char>)
    ensures
        lines(unused_subject_prefix() + c) == seq![seq!['U', 'n', 'u', 's', 'e', 'd'], Seq::<char>::empty()]
            + lines(c),
{
    let word = seq!['U', 'n', 'u', 's', 'e', 'd'];
    let e = Seq::<char>::empty();
    assert(unused_subject_prefix() + c =~= word + newline() + (e + newline() + c));
    lemma_lines_prefix(word, e + newline() + c);
    lemma_lines_prefix(e, c);
    assert(seq![word] + (seq![e] + lines(c)) =~= seq![word, e] + lines(c));
}

proof fn lemma_scissors_position_shift(x: Seq<char>, y: Seq<char>, ls: Seq<Seq<char>>)
    requires
        !ends_with(x, scissors_marker()),
        !ends_with(y, scissors_marker()),
    ensures
        scissors_position(seq![x, y] + ls) == match scissors_position(ls) {
            Some(q) => Some(q + 2),
            None => None::<nat>,
        },
{
    let all = seq![x, y] + ls;
    let yl = seq![y] + ls;
    assert(all[0] == x);
    assert(all.drop_first() =~= yl);
    assert(yl[0] == y);
    assert(yl.drop_first() =~= ls);
    assert(scissors_position(yl) == match scissors_position(ls) {
        Some(q) => Some(q + 1),
        None => None::<nat>,
    });
    assert(scissors_position(all) == match scissors_position(yl) {
        Some(q) => Some(q + 1),
        None => None::<nat>,
    });
}

proof fn lemma_last_answer_legal(ls: Seq<Seq<char>>, f: spec_fn(Seq<char>) -> Option<char>)
    requires
        forall|l: Seq<char>| #[trigger] f(l) matches Some(c) ==> legal_comment_char(c),
    ensures
        last_answer(ls, f) matches Some(c) ==> legal_comment_char(c),
    decreases ls.len(),
{
    if ls.len() > 0 {
        lemma_last_answer_legal(ls.drop_last(), f);
    }
}

/// The guessed comment character is always a legal one.
proof fn lemma_guess_is_legal(message: Seq<char>)
    ensures
        guess_comment_character_spec(message) matches Some(c) ==> legal_comment_char(c),
{
    let f1 = |l: Seq<char>| scissors_line_char(l);
    let f2 = |l: Seq<char>| legal_first_char(l);
    lemma_last_answer_legal(lines(message), f1);
    lemma_last_answer_legal(lines(message), f2);
}

proof fn lemma_merge_prefix(x: FragmentView, g: Seq<FragmentView>, f: FragmentView)
    requires
        g.len() > 0,
    ensures
        merge_fragment(seq![x] + g, f) == seq![x] + merge_fragment(g, f),
{
    let xg = seq![x] + g;
    assert(xg.last() == g.last());
    assert(xg.drop_last() =~= seq![x] + g.drop_last());
    assert(xg.push(f) =~= seq![x] + g.push(f));
    match (g.last(), f) {
        (FragmentView::Comment(a), FragmentView::Comment(b)) => {
            assert((seq![x] + g.drop_last()).push(FragmentView::Comment(a + newline() + b))
                =~= seq![x] + g.drop_last().push(FragmentView::Comment(a + newline() + b)));
        },
        (FragmentView::Body(a), FragmentView::Body(b)) => {
            assert((seq![x] + g.drop_last()).push(FragmentView::Body(a + newline() + b))
                =~= seq![x] + g.drop_last().push(FragmentView::Body(a + newline() + b)));
        },
        _ => {},
    }
}

/// A first fragment followed by an empty body stays apart from everything after it.
proof fn lemma_group_prefix(fs: Seq<FragmentView>)
    requires
        fs.len() >= 2,
        fs[1] == FragmentView::Body(Seq::empty()),
    ensures
        group_ast_spec(fs) == seq![fs[0]] + group_ast_spec(fs.skip(1)),
        group_ast_spec(fs.skip(1)).len() > 0,
    decreases fs.len(),
{
    lemma_group_join(fs.skip(1));
    if fs.len() == 2 {
        let f1 = fs.drop_last();
        assert(f1 =~= seq![fs[0]]);
        assert(f1.drop_last() =~= Seq::<FragmentView>::empty());
        assert(group_ast_spec(f1.drop_last()) == Seq::<FragmentView>::empty());
        assert(f1.last() == fs[0]);
        assert(group_ast_spec(f1) =~= seq![fs[0]]);
        assert(fs.skip(1) =~= seq![fs[1]]);
        assert(fs.skip(1).drop_last() =~= Seq::<FragmentView>::empty());
        assert(group_ast_spec(fs.skip(1).drop_last()) == Seq::<FragmentView>::empty());
        assert(fs.skip(1).last() == fs[1]);
        assert(group_ast_spec(fs.skip(1)) =~= seq![fs[1]]);
        assert(group_ast_spec(fs) =~= seq![fs[0], fs[1]]);
    } else {
        let f2 = fs.drop_last();
        lemma_group_prefix(f2);
        assert(f2.skip(1) =~= fs.skip(1).drop_last());
        assert(fs.skip(1).last() == fs.last());
        lemma_merge_prefix(fs[0], group_ast_spec(f2.skip(1)), fs.last());
    }
}

/// With the blank line that ends the text above the scissors line kept, the
/// fragments of a message print as that text.
proof fn lemma_kept_ast_text(message: Seq<char>)
    requires
        no_crlf(message),
    ensures
        join(fragment_texts(kept_message_ast(message)), newline()) == parse_sections_spec(
            message,
        ).0,
{
    let ls = lines(message);
    let cc = guess_comment_character_spec(message);
    let rest = parse_sections_spec(message).0;
    lemma_lines_clean(message);
    lemma_scissors_position_bound(ls);
    assert(no_crlf(rest)) by {
        if let Some(p) = scissors_position(ls) {
            let before = ls.take(p as int);
            assert forall|i: int| 0 <= i < before.len() implies no_crlf(#[trigger] before[i]) by {
                assert(before[i] == ls[i]);
            }
            assert forall|i: int| 0 <= i < before.len() - 1 implies !ends_with_cr(
                #[trigger] before[i],
            ) by {
                assert(before[i] == ls[i]);
            }
            lemma_join_no_crlf(before);
        }
    }
    lemma_ast_text(cc, rest);
    let g = group_ast_spec(per_line_ast(cc, lines(rest)));
    if ends_with_newline(rest) {
        lemma_texts_push(g, FragmentView::Body(Seq::empty()));
        lemma_join_push(fragment_texts(g), Seq::empty(), newline());
        assert(join(fragment_texts(g), newline()) + newline() + Seq::<char>::empty() =~= join(
            fragment_texts(g),
            newline(),
        ) + newline());
    } else {
        assert(join(fragment_texts(g), newline()) + Seq::<char>::empty() =~= join(
            fragment_texts(g),
            newline(),
        ));
    }
}

/// With the blank line that ends the text above the scissors line kept,
/// printing a parsed message gives it back, when it holds no carriage return
/// right before a newline and its scissors line, if any, is not the first line.
proof fn lemma_kept_render(message: Seq<char>)
    requires
        no_crlf(message),
        scissors_position(lines(message)) matches Some(p) ==> p > 0,
    ensures
        render(kept_message_ast(message), parse_sections_spec(message).1) == message,
{
    let ls = lines(message);
    lemma_kept_ast_text(message);
    lemma_lines_join(message);
    lemma_scissors_position_bound(ls);
    let e = if ends_with_newline(message) {
        newline()
    } else {
        Seq::<char>::empty()
    };
    match scissors_position(ls) {
        Some(p) => {
            let t = ls.take(p as int);
            let w = ls.skip(p as int);
            lemma_join_concat(t, w, newline());
            assert(t + w =~= ls);
            assert(render(kept_message_ast(message), parse_sections_spec(message).1) =~= join(
                t,
                newline(),
            ) + newline() + (join(w, newline()) + e));
            assert(join(ls, newline()) + e =~= join(t, newline()) + newline() + (join(
                w,
                newline(),
            ) + e));
        },
        None => {
            assert(render(kept_message_ast(message), None) =~= message);
        },
    }
}

/// The grouped fragments of lines starting with the word standing in for the
/// subject and, when there is a second line, a blank one: the word's body
/// comes first and stays on its own.
proof fn lemma_word_first(cc: Option<char>, v: Seq<Seq<char>>)
    requires
        cc matches Some(c) ==> legal_comment_char(c),
        v.len() >= 1,
        v[0] == seq!['U', 'n', 'u', 's', 'e', 'd'],
        v.len() >= 2 ==> v[1] == Seq::<char>::empty(),
    ensures
        group_ast_spec(per_line_ast(cc, v)).len() >= 1,
        group_ast_spec(per_line_ast(cc, v))[0] == FragmentView::Body(v[0]),
        v.len() >= 2 ==> group_ast_spec(per_line_ast(cc, v)).len() >= 2,
{
    let fs = per_line_ast(cc, v);
    assert(fs[0] == FragmentView::Body(v[0]));
    if v.len() >= 2 {
        assert(fs[1] == FragmentView::Body(Seq::<char>::empty()));
        lemma_group_prefix(fs);
    } else {
        assert(fs.drop_last().len() == 0);
        assert(group_ast_spec(fs.drop_last()) == Seq::<FragmentView>::empty());
        assert(fs.last() == fs[0]);
    }
}

/// The text new body contents are parsed in, with the blank line above its
/// scissors line kept, starts with the word standing in for the subject and
/// prints back to itself.
proof fn lemma_unused_kept_ast(contents: Seq<char>)
    requires
        no_crlf(contents),
    ensures
        ({
            let pm = parse_message_keeping_blank(unused_subject_prefix() + contents);
            &&& pm.ast.len() >= 2
            &&& pm.ast[0] == FragmentView::Body(seq!['U', 'n', 'u', 's', 'e', 'd'])
            &&& render(pm.ast, pm.scissors) == unused_subject_prefix() + contents
        }),
{
    let word = seq!['U', 'n', 'u', 's', 'e', 'd'];
    let e = Seq::<char>::empty();
    let text = unused_subject_prefix() + contents;
    let lc = lines(contents);
    let lt = lines(text);
    lemma_unused_lines(contents);
    lemma_scissors_position_bound(lc);
    assert(!ends_with(word, scissors_marker()));
    assert(!ends_with(e, scissors_marker()));
    lemma_scissors_position_shift(word, e, lc);
    assert(no_crlf(text)) by {
        assert forall|i: int| #![trigger text[i]] 0 <= i < text.len() - 1 implies !(text[i]
            == '\r' && text[i + 1] == '\n') by {
            if i >= 8 {
                assert(text[i] == contents[i - 8]);
                assert(text[i + 1] == contents[i + 1 - 8]);
            }
        }
    }
    lemma_kept_render(text);
    let cc = guess_comment_character_spec(text);
    lemma_guess_is_legal(text);
    let rest = parse_sections_spec(text).0;
    let v = lines(rest);
    let g = group_ast_spec(per_line_ast(cc, v));
    match scissors_position(lc) {
        Some(q) => {
            let t = lt.take((q + 2) as int);
            lemma_lines_clean(text);
            assert(lines_reprintable(t)) by {
                assert forall|i: int| 0 <= i < t.len() implies no_newline(#[trigger] t[i])
                    && !ends_with_cr(t[i]) by {
                    assert(t[i] == lt[i]);
                }
            }
            lemma_lines_of_join_trim(t);
            assert(t[0] == word);
            assert(t[1] == e);
            if v.len() >= 2 {
                assert(v[0] == t[0]);
                assert(v[1] == t[1]);
                lemma_word_first(cc, v);
            } else {
                assert(t.len() == 2);
                assert(t =~= seq![word, e]);
                assert(v =~= seq![word]);
                lemma_word_first(cc, v);
                lemma_join_push(seq![word], e, newline());
                assert(seq![word].push(e) =~= t);
                assert(rest == word + newline() + e);
                assert(rest.last() == '\n');
            }
        },
        None => {
            assert(rest == text);
            assert(v[0] == word);
            assert(v[1] == e);
            lemma_word_first(cc, v);
        },
    }
    let ast = kept_message_ast(text);
    assert(ast[0] == g[0]);
}

proof fn lemma_replace_first_text(pm: CommitMessageView, subject: Seq<char>, word: Seq<char>, tail: Seq<char>)
    requires
        pm.ast.len() >= 2,
        pm.ast[0] == FragmentView::Body(word),
        render(pm.ast, pm.scissors) == word + tail,
    ensures
        ({
            let r = with_subject_spec(pm, subject);
            render(r.ast, r.scissors) == subject + tail
        }),
{
    let ast = pm.ast;
    let r = with_subject_spec(pm, subject);
    let after = ast.skip(1);
    assert(ast =~= seq![ast[0]] + after);
    assert(fragment_texts(ast) =~= seq![word] + fragment_texts(after));
    assert(r.ast =~= seq![FragmentView::Body(subject)] + after);
    assert(fragment_texts(r.ast) =~= seq![subject] + fragment_texts(after));
    lemma_join_concat(seq![word], fragment_texts(after), newline());
    lemma_join_concat(seq![subject], fragment_texts(after), newline());
    let tail_text = newline() + join(fragment_texts(after), newline()) + match pm.scissors {
        Some(x) => newline() + x,
        None => Seq::empty(),
    };
    assert(render(pm.ast, pm.scissors) =~= word + tail_text);
    assert(render(r.ast, r.scissors) =~= subject + tail_text);
    assert(tail_text =~= (word + tail_text).skip(word.len() as int));
    assert(tail =~= (word + tail).skip(word.len() as int));
}

/// Giving a message a subject makes that its subject, whatever the text;
/// replacing its body keeps the subject it had.
pub proof fn lemma_subject_is_kept(m: CommitMessageView, subject: Seq<char>, contents: Seq<char>)
    ensures
        with_subject_spec(m, subject).subject == subject,
        with_subject_spec(
            parse_message_keeping_blank(unused_subject_prefix() + contents),
            m.subject,
        ).subject == m.subject,
{
}

/// Replacing the body of a message gives a message whose text is its subject,
/// a blank line, and the new contents. This holds of all contents with no
/// carriage return right before a newline.
pub proof fn lemma_with_body_contents_text(m: CommitMessageView, contents: Seq<char>)
    requires
        no_crlf(contents),
    ensures
        ({
            let r = with_subject_spec(
                parse_message_keeping_blank(unused_subject_prefix() + contents),
                m.subject,
            );
            render(r.ast, r.scissors) == m.subject + newline() + newline() + contents
        }),
{
    let word = seq!['U', 'n', 'u', 's', 'e', 'd'];
    let text = unused_subject_prefix() + contents;
    lemma_unused_kept_ast(contents);
    assert(text =~= word + (newline() + newline() + contents));
    lemma_replace_first_text(
        parse_message_keeping_blank(text),
        m.subject,
        word,
        newline() + newline() + contents,
    );
    assert(m.subject + (newline() + newline() + contents) =~= m.subject + newline() + newline()
        + contents);
}

/// A `Key #value` line parses as a trailer whenever its key is a non-empty
/// word of letters, digits and hyphens: any such key, upper or lower case,
/// and any value, provided the line holds no `": "` (which makes it a
/// `Key: value` trailer instead). Letters, digits and hyphens are neither
/// whitespace nor `#`, as the last requirement spells out.
pub proof fn lemma_word_key_hash_trailer(k: Seq<char>, v: Seq<char>)
    requires
        k.len() > 0,
        forall|i: int| 0 <= i < k.len() ==> unicode_alphanumeric(#[trigger] k[i]) || k[i] == '-',
        forall|i: int|
            0 <= i < k.len() ==> !unicode_whitespace(#[trigger] k[i]) && k[i] != '#',
        find_colon_space(k + seq![' ', '#'] + v) is None,
    ensures
        parse_trailer_spec(k + seq![' ', '#'] + v) == Some(
            TrailerView { key: k, value: v, separator: seq![' ', '#'] },
        ),
{
    let s = k + seq![' ', '#'] + v;
    let n: int = k.len() as int;
    let d = differs_from('#');
    assert forall|i: int| 0 <= i < n + 1 implies #[trigger] d(s[i]) by {
        if i < n {
            assert(s[i] == k[i]);
        } else {
            assert(s[i] == ' ');
        }
    }
    assert(s[n + 1] == '#');
    lemma_count_prefix_is(s, d, n + 1);
    assert(index_of(s, '#') == Some((n + 1) as nat));
    let before = s.take(n + 1);
    assert(before =~= k + seq![' ']);
    let ws = |c: char| unicode_whitespace(c);
    assert(before[n as int] == ' ');
    assert forall|i: int| before.len() - 1 <= i < before.len() implies #[trigger] ws(before[i]) by {}
    assert(before[before.len() - 1 - 1] == k[n - 1]);
    lemma_count_suffix_is(before, ws, 1);
    assert(trim_end(before) =~= k);
    assert(!ws(k[0]));
    lemma_count_prefix_is(k, ws, 0);
    assert(trim_start(k) =~= k);
    assert(trim(before) == k);
    assert(s.skip(n + 2) =~= v);
}

/// How the trailers of fragments grow with one more body line: a line that
/// `Trailer::try_from` accepts (either form) joins the trailers at the end, an
/// empty line leaves them as they are, and any other line ends them: there
/// are then none.
pub proof fn lemma_trailers_grow_by_accepted_lines(fs: Seq<FragmentView>, b: Seq<char>)
    requires
        fs.len() > 0,
    ensures
        b.len() == 0 ==> trailers_spec(fs.push(FragmentView::Body(b))) == trailers_spec(fs),
        b.len() > 0 ==> trailers_spec(fs.push(FragmentView::Body(b))) == match parse_trailer_spec(b) {
            Some(t) => trailers_spec(fs).push(t),
            None => Seq::<TrailerView>::empty(),
        },
{
    let g = fs.push(FragmentView::Body(b));
    assert(g.skip(1) =~= fs.skip(1).push(FragmentView::Body(b)));
    assert(g.skip(1).drop_last() =~= fs.skip(1));
    let bs = body_texts(fs.skip(1));
    assert(body_texts(g.skip(1)) == bs + seq![b]);
    assert((bs + seq![b]).drop_last() =~= bs);
    assert((bs + seq![b]).last() == b);
}

proof fn lemma_trailer_like_suffix_props(bs: Seq<Seq<char>>)
    ensures
        trailer_like_suffix(bs) <= bs.len(),
        forall|j: int|
            bs.len() - trailer_like_suffix(bs) <= j < bs.len() ==> trailer_like(#[trigger] bs[j]),
        trailer_like_suffix(bs) < bs.len() ==> !trailer_like(
            bs[bs.len() - trailer_like_suffix(bs) - 1],
        ),
    decreases bs.len(),
{
    if bs.len() > 0 && trailer_like(bs.last()) {
        let b2 = bs.drop_last();
        lemma_trailer_like_suffix_props(b2);
        assert forall|j: int|
            bs.len() - trailer_like_suffix(bs) <= j < bs.len() implies trailer_like(
            #[trigger] bs[j],
        ) by {
            if j < bs.len() - 1 {
                assert(bs[j] == b2[j]);
            }
        }
        if trailer_like_suffix(bs) < bs.len() {
            assert(bs[bs.len() - trailer_like_suffix(bs) - 1] == b2[b2.len() - trailer_like_suffix(
                b2,
            ) - 1]);
        }
    }
}

/// The body paragraphs are the body texts after the subject up to the trailer
/// block: every body text after them is empty or a line that
/// `Trailer::try_from` accepts, and the last of them, if any, is neither.
pub proof fn lemma_bodies_stop_before_trailers(fs: Seq<FragmentView>)
    ensures
        ({
            let raw = body_texts(fs);
            let bodies = bodies_spec(fs);
            &&& raw.len() > 0 ==> bodies == raw.subrange(1, 1 + bodies.len() as int)
            &&& forall|j: int|
                1 + bodies.len() <= j < raw.len() ==> (#[trigger] raw[j]).len() == 0
                    || parse_trailer_spec(raw[j]) is Some
            &&& bodies.len() > 0 ==> bodies.last().len() > 0 && parse_trailer_spec(bodies.last())
                is None
        }),
{
    let raw = body_texts(fs);
    if raw.len() > 0 {
        let rs = raw.skip(1);
        lemma_trailer_like_suffix_props(rs);
        let n = trailer_like_suffix(rs);
        let bodies = bodies_spec(fs);
        assert(bodies == raw.subrange(1, raw.len() - n));
        assert forall|j: int| 1 + bodies.len() <= j < raw.len() implies (#[trigger] raw[j]).len()
            == 0 || parse_trailer_spec(raw[j]) is Some by {
            assert(raw[j] == rs[j - 1]);
            assert(trailer_like(rs[j - 1]));
        }
        if bodies.len() > 0 {
            assert(bodies.last() == rs[rs.len() - n - 1]);
        }
    }
}

/// Parsing text with the blank line above the scissors line kept differs
/// from parsing it plainly only by that one empty body: the trailers, read
/// line by line, and the scissors section are the same. So the trailers of a
/// message with new body contents are those of the text the contents are
/// parsed in.
pub proof fn lemma_kept_parse_matches_plain_parse(message: Seq<char>, subject: Seq<char>)
    ensures
        parse_message_keeping_blank(message).trailers == parse_message(message).trailers,
        parse_message_keeping_blank(message).scissors == parse_message(message).scissors,
        parse_message_keeping_blank(message).ast == parse_message(message).ast
            || parse_message_keeping_blank(message).ast == parse_message(message).ast.push(
            FragmentView::Body(Seq::empty()),
        ),
        with_subject_spec(parse_message_keeping_blank(message), subject).trailers == parse_message(
            message,
        ).trailers,
{
    let rest = parse_sections_spec(message).0;
    if parse_sections_spec(message).1 is None {
        assert(rest == message);
    }
}

proof fn lemma_last_full_body_props(fs: Seq<FragmentView>)
    ensures
        match last_full_body(fs) {
            Some(p) => p < fs.len() && is_full_body(fs[p as int]) && forall|j: int|
                p < j < fs.len() ==> !is_full_body(#[trigger] fs[j]),
            None => forall|j: int| 0 <= j < fs.len() ==> !is_full_body(#[trigger] fs[j]),
        },
    decreases fs.len(),
{
    if fs.len() > 0 && !is_full_body(fs.last()) {
        let f2 = fs.drop_last();
        lemma_last_full_body_props(f2);
        assert(fs.last() == fs[fs.len() - 1]);
        assert forall|j: int| 0 <= j < fs.len() - 1 implies fs[j] == #[trigger] f2[j] by {}
        match last_full_body(f2) {
            Some(p) => {
                assert forall|j: int| p < j < fs.len() implies !is_full_body(#[trigger] fs[j]) by {
                    if j < fs.len() - 1 {
                        assert(fs[j] == f2[j]);
                    }
                }
                assert(fs[p as int] == f2[p as int]);
            },
            None => {
                assert forall|j: int| 0 <= j < fs.len() implies !is_full_body(#[trigger] fs[j]) by {
                    if j < fs.len() - 1 {
                        assert(fs[j] == f2[j]);
                    }
                }
            },
        }
    }
}

proof fn lemma_join_starts_with_first(parts: Seq<Seq<char>>, sep: Seq<char>)
    requires
        parts.len() > 0,
    ensures
        join(parts, sep).len() >= parts[0].len(),
        join(parts, sep).take(parts[0].len() as int) == parts[0],
    decreases parts.len(),
{
    if parts.len() > 1 {
        let p2 = parts.drop_last();
        lemma_join_starts_with_first(p2, sep);
        assert(p2[0] == parts[0]);
        let j = join(parts, sep);
        assert(j.take(parts[0].len() as int) =~= join(p2, sep).take(parts[0].len() as int));
    }
}

/// Fragments are inserted right after the last body with text in it, or at
/// the top when there is none: every fragment after the insertion point is a
/// comment or an empty body, and the one right before it is a body with
/// text. So when a message has body text (a subject, say), the text that
/// inserting gives starts with the text of its first fragment.
pub proof fn lemma_insert_after_last_full_body(
    fs: Seq<FragmentView>,
    fragments: Seq<FragmentView>,
    scissors: Option<Seq<char>>,
)
    ensures
        ({
            let k = insert_position(fs);
            &&& k <= fs.len()
            &&& forall|j: int| k <= j < fs.len() ==> !is_full_body(#[trigger] fs[j])
            &&& (exists|j: int| 0 <= j < fs.len() && is_full_body(#[trigger] fs[j])) ==> k > 0
                && is_full_body(fs[k - 1]) && ({
                let text = render(fs.take(k as int) + fragments + fs.skip(k as int), scissors);
                text.len() >= fragment_text(fs[0]).len() && text.take(
                    fragment_text(fs[0]).len() as int,
                ) == fragment_text(fs[0])
            })
            &&& (forall|j: int| 0 <= j < fs.len() ==> !is_full_body(#[trigger] fs[j])) ==> k == 0
        }),
{
    lemma_last_full_body_props(fs);
    let k = insert_position(fs);
    if exists|j: int| 0 <= j < fs.len() && is_full_body(#[trigger] fs[j]) {
        let j0 = choose|j: int| 0 <= j < fs.len() && is_full_body(#[trigger] fs[j]);
        assert(is_full_body(fs[j0]));
        assert(last_full_body(fs) is Some);
        let all = fs.take(k as int) + fragments + fs.skip(k as int);
        assert(all[0] == fs[0]);
        let ts = fragment_texts(all);
        assert(ts[0] == fragment_text(fs[0]));
        lemma_join_starts_with_first(ts, newline());
        let text = render(all, scissors);
        let j = join(ts, newline());
        assert(text.take(fragment_text(fs[0]).len() as int) =~= j.take(
            fragment_text(fs[0]).len() as int,
        ));
    }
}

} // verus!
