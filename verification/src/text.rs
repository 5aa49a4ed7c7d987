//! Character-sequence model of the text operations the parser relies on:
//! splitting into lines, joining, trimming, and searching.

use std::borrow::Cow;

use vstd::prelude::*;
use vstd::string::StrSliceExecFns;
use vstd::string::StringExecFns;

verus! {

/// A single newline character as a sequence.
pub open spec fn newline() -> Seq<char> {
    seq!['\n']
}

/// Number of leading characters of `s` that satisfy `p`.
pub open spec fn count_prefix(s: Seq<char>, p: spec_fn(char) -> bool) -> nat
    decreases s.len(),
{
    if s.len() > 0 && p(s[0]) {
        1 + count_prefix(s.drop_first(), p)
    } else {
        0
    }
}

/// Number of trailing characters of `s` that satisfy `p`.
pub open spec fn count_suffix(s: Seq<char>, p: spec_fn(char) -> bool) -> nat
    decreases s.len(),
{
    if s.len() > 0 && p(s.last()) {
        1 + count_suffix(s.drop_last(), p)
    } else {
        0
    }
}

/// The prefix count is the first position whose character fails `p`.
pub proof fn lemma_count_prefix_is(s: Seq<char>, p: spec_fn(char) -> bool, k: int)
    requires
        0 <= k <= s.len(),
        forall|i: int| 0 <= i < k ==> #[trigger] p(s[i]),
        k == s.len() || !p(s[k]),
    ensures
        count_prefix(s, p) == k,
    decreases k,
{
    if k > 0 {
        let t = s.drop_first();
        assert forall|i: int| 0 <= i < k - 1 implies #[trigger] p(t[i]) by {
            assert(t[i] == s[i + 1]);
        }
        if k < s.len() {
            assert(t[k - 1] == s[k]);
        }
        lemma_count_prefix_is(t, p, k - 1);
    }
}

/// The suffix count is the number of characters after the last one failing `p`.
pub proof fn lemma_count_suffix_is(s: Seq<char>, p: spec_fn(char) -> bool, k: int)
    requires
        0 <= k <= s.len(),
        forall|i: int| s.len() - k <= i < s.len() ==> #[trigger] p(s[i]),
        k == s.len() || !p(s[s.len() - k - 1]),
    ensures
        count_suffix(s, p) == k,
    decreases k,
{
    if k > 0 {
        let t = s.drop_last();
        assert forall|i: int| t.len() - (k - 1) <= i < t.len() implies #[trigger] p(t[i]) by {
            assert(t[i] == s[i]);
        }
        assert(p(s[s.len() - 1]));
        if k < s.len() {
            assert(t[t.len() - (k - 1) - 1] == s[s.len() - k - 1]);
        }
        lemma_count_suffix_is(t, p, k - 1);
    }
}

/// Position of the first newline in `s`, or its length when it has none.
pub open spec fn line_end(s: Seq<char>) -> nat {
    count_prefix(s, |c: char| c != '\n')
}

/// Drop one trailing carriage return.
pub open spec fn strip_cr(line: Seq<char>) -> Seq<char> {
    if line.len() > 0 && line.last() == '\r' {
        line.drop_last()
    } else {
        line
    }
}

/// The lines of `s`: split at each `\n`, with a `\r` right before the `\n`
/// removed, and no empty line after a final `\n`.
pub open spec fn lines(s: Seq<char>) -> Seq<Seq<char>>
    decreases s.len(),
{
    if s.len() == 0 {
        seq![]
    } else {
        let n = line_end(s);
        if n < s.len() {
            seq![strip_cr(s.take(n as int))] + lines(s.skip((n + 1) as int))
        } else {
            seq![s]
        }
    }
}

/// Join `parts` with `sep` between consecutive parts.
pub open spec fn join(parts: Seq<Seq<char>>, sep: Seq<char>) -> Seq<char>
    decreases parts.len(),
{
    if parts.len() == 0 {
        seq![]
    } else if parts.len() == 1 {
        parts[0]
    } else {
        join(parts.drop_last(), sep) + sep + parts.last()
    }
}

/// Does the text end with a newline character?
pub open spec fn ends_with_newline(s: Seq<char>) -> bool {
    s.len() > 0 && s.last() == '\n'
}

/// Does the text hold no carriage return right before a newline?
pub open spec fn no_crlf(s: Seq<char>) -> bool {
    forall|i: int| #![trigger s[i]] 0 <= i < s.len() - 1 ==> !(s[i] == '\r' && s[i + 1] == '\n')
}

/// Does the text hold no newline?
pub open spec fn no_newline(s: Seq<char>) -> bool {
    forall|i: int| 0 <= i < s.len() ==> s[i] != '\n'
}

/// Does the text end with a carriage return?
pub open spec fn ends_with_cr(s: Seq<char>) -> bool {
    s.len() > 0 && s.last() == '\r'
}

/// Does `s` end with `suffix`?
pub open spec fn ends_with(s: Seq<char>, suffix: Seq<char>) -> bool {
    s.len() >= suffix.len() && s.skip(s.len() - suffix.len()) == suffix
}

/// The predicate "is not `c`".
pub open spec fn differs_from(c: char) -> spec_fn(char) -> bool {
    |x: char| x != c
}

/// Index of the first occurrence of `c` in `s`.
pub open spec fn index_of(s: Seq<char>, c: char) -> Option<nat> {
    let k = count_prefix(s, differs_from(c));
    if k < s.len() {
        Some(k)
    } else {
        None
    }
}

/// Whether `c` has the Unicode White_Space property, as `char::is_whitespace`
/// answers: the ASCII tab, line feed, vertical tab, form feed, carriage return
/// and space, next line, no-break space, ogham space mark, the spaces from en
/// quad to hair space, line and paragraph separator, narrow no-break space,
/// medium mathematical space and ideographic space.
pub open spec fn unicode_whitespace(c: char) -> bool {
    let n = c as u32;
    (0x9 <= n && n <= 0xd) || n == 0x20 || n == 0x85 || n == 0xa0 || n == 0x1680 || (0x2000 <= n
        && n <= 0x200a) || n == 0x2028 || n == 0x2029 || n == 0x202f || n == 0x205f || n == 0x3000
}

/// Whether `c` is alphabetic or numeric, as `char::is_alphanumeric` answers.
pub uninterp spec fn unicode_alphanumeric(c: char) -> bool;

/// `s` without its trailing whitespace (`str::trim_end`).
pub open spec fn trim_end(s: Seq<char>) -> Seq<char> {
    s.take(s.len() - count_suffix(s, |c: char| unicode_whitespace(c)))
}

/// `s` without its leading whitespace (`str::trim_start`).
pub open spec fn trim_start(s: Seq<char>) -> Seq<char> {
    s.skip(count_prefix(s, |c: char| unicode_whitespace(c)) as int)
}

/// `s` without leading and trailing whitespace (`str::trim`).
pub open spec fn trim(s: Seq<char>) -> Seq<char> {
    trim_start(trim_end(s))
}

/// The views of a sequence of strings.
pub open spec fn string_views(v: Seq<String>) -> Seq<Seq<char>> {
    v.map_values(|x: String| x@)
}

/// Does `c` have the Unicode White_Space property (`char::is_whitespace`)?
pub(crate) fn char_is_whitespace(c: char) -> (r: bool)
    ensures
        r == unicode_whitespace(c),
{
    let n = c as u32;
    (0x9 <= n && n <= 0xd) || n == 0x20 || n == 0x85 || n == 0xa0 || n == 0x1680 || (0x2000 <= n
        && n <= 0x200a) || n == 0x2028 || n == 0x2029 || n == 0x202f || n == 0x205f || n == 0x3000
}

/// `char::is_alphanumeric`: the contract states its answer by name only; which
/// characters are alphabetic or numeric is left to the standard library.
#[verifier::external_body]
pub(crate) fn char_is_alphanumeric(c: char) -> (r: bool)
    ensures
        r == unicode_alphanumeric(c),
{
    c.is_alphanumeric()
}

/// The text of a copy-on-write string.
pub fn cow_str<'b>(c: &'b Cow<'_, str>) -> (r: &'b str)
    ensures
        r@ == c@,
{
    match c {
        Cow::Borrowed(s) => s,
        Cow::Owned(s) => s.as_str(),
    }
}

/// A copy of a copy-on-write string: a borrowed one stays borrowed.
pub fn clone_cow<'a>(c: &Cow<'a, str>) -> (r: Cow<'a, str>)
    ensures
        r == *c,
{
    match c {
        Cow::Borrowed(s) => Cow::Borrowed(s),
        Cow::Owned(s) => Cow::Owned(s.clone()),
    }
}

/// The characters of `s`, one per element.
pub fn to_chars(s: &str) -> (r: Vec<char>)
    ensures
        r@ == s@,
{
    let mut r: Vec<char> = Vec::new();
    for c in it: s.chars()
        invariant
            r@ == it.seq().take(it.index() as int),
            it.seq() == s@,
    {
        r.push(c);
    }
    r
}

/// The position where the line starting at `start` ends: the first newline
/// at or after `start`, or the end of the text.
fn find_line_end(chars: &Vec<char>, start: usize) -> (j: usize)
    requires
        start <= chars.len(),
    ensures
        start <= j <= chars.len(),
        j - start == line_end(chars@.skip(start as int)),
        j < chars.len() ==> chars@[j as int] == '\n',
{
    let n = chars.len();
    let mut j = start;
    while j < n && chars[j] != '\n'
        invariant
            start <= j <= n,
            n == chars.len(),
            forall|k: int| start <= k < j ==> chars@[k] != '\n',
        decreases n - j,
    {
        j = j + 1;
    }
    proof {
        let t = chars@.skip(start as int);
        let p = |c: char| c != '\n';
        assert forall|i: int| 0 <= i < j - start implies #[trigger] p(t[i]) by {
            assert(t[i] == chars@[start + i]);
        }
        if j < n {
            assert(t[j - start] == chars@[j as int]);
        }
        lemma_count_prefix_is(t, p, j - start);
    }
    j
}

/// Split `s` into its lines, as `str::lines` does.
pub fn split_lines(s: &str) -> (r: Vec<String>)
    ensures
        string_views(r@) == lines(s@),
{
    let chars = to_chars(s);
    let n = chars.len();
    let mut out: Vec<String> = Vec::new();
    let mut start: usize = 0;
    assert(s@.skip(0) == s@);
    while start < n
        invariant
            start <= n,
            n == chars.len(),
            chars@ == s@,
            lines(s@) == string_views(out@) + lines(s@.skip(start as int)),
        decreases n - start,
    {
        let j = find_line_end(&chars, start);
        let ghost t = s@.skip(start as int);
        let mut e = j;
        if j < n && e > start && chars[e - 1] == '\r' {
            e = e - 1;
        }
        let line = s.substring_char(start, e).to_owned();
        let ghost prev = out@;
        out.push(line);
        proof {
            assert(string_views(out@) == string_views(prev).push(line@));
            assert(t.len() > 0);
            if j < n {
                assert(t.take(j - start) =~= s@.subrange(start as int, j as int));
                assert(t.skip((j - start + 1) as int) =~= s@.skip(j + 1));
                assert(line@ =~= strip_cr(t.take(j - start)));
                assert(lines(t) == seq![line@] + lines(s@.skip(j + 1)));
                assert(lines(s@) =~= string_views(out@) + lines(s@.skip(j + 1)));
            } else {
                assert(t =~= s@.subrange(start as int, j as int));
                assert(lines(t) == seq![line@]);
                assert(s@.skip(n as int).len() == 0);
                assert(lines(s@.skip(n as int)) == Seq::<Seq<char>>::empty());
                assert(lines(s@) =~= string_views(out@) + lines(s@.skip(n as int)));
            }
        }
        if j < n {
            start = j + 1;
        } else {
            start = n;
        }
    }
    proof {
        assert(s@.skip(n as int).len() == 0);
        assert(lines(s@) == string_views(out@) + seq![]);
    }
    out
}

/// `join(parts.push(x))` adds the separator and `x` after the joined parts.
pub proof fn lemma_join_push(parts: Seq<Seq<char>>, x: Seq<char>, sep: Seq<char>)
    ensures
        join(parts.push(x), sep) == if parts.len() == 0 {
            x
        } else {
            join(parts, sep) + sep + x
        },
{
    assert(parts.push(x).drop_last() =~= parts);
    if parts.len() == 0 {
        assert(parts.push(x)[0] == x);
    }
}

/// What the prefix count says of the characters it counts and of the one after.
pub proof fn lemma_count_prefix_props(s: Seq<char>, p: spec_fn(char) -> bool)
    ensures
        count_prefix(s, p) <= s.len(),
        forall|i: int| 0 <= i < count_prefix(s, p) ==> #[trigger] p(s[i]),
        count_prefix(s, p) < s.len() ==> !p(s[count_prefix(s, p) as int]),
    decreases s.len(),
{
    if s.len() > 0 && p(s[0]) {
        let t = s.drop_first();
        lemma_count_prefix_props(t, p);
        assert forall|i: int| 0 <= i < count_prefix(s, p) implies #[trigger] p(s[i]) by {
            if i > 0 {
                assert(s[i] == t[i - 1]);
            }
        }
        if count_prefix(s, p) < s.len() {
            assert(s[count_prefix(s, p) as int] == t[count_prefix(t, p) as int]);
        }
    }
}

/// Joining two non-empty lists of parts puts the separator between their joins.
pub proof fn lemma_join_concat(a: Seq<Seq<char>>, b: Seq<Seq<char>>, sep: Seq<char>)
    requires
        a.len() > 0,
        b.len() > 0,
    ensures
        join(a + b, sep) == join(a, sep) + sep + join(b, sep),
    decreases b.len(),
{
    if b.len() == 1 {
        assert(a + b =~= a.push(b[0]));
        lemma_join_push(a, b[0], sep);
    } else {
        let b2 = b.drop_last();
        assert(a + b =~= (a + b2).push(b.last()));
        lemma_join_push(a + b2, b.last(), sep);
        lemma_join_concat(a, b2, sep);
        assert(b2.push(b.last()) =~= b);
        lemma_join_push(b2, b.last(), sep);
        assert(join(a + b, sep) =~= join(a, sep) + sep + join(b, sep));
    }
}

/// A join with newlines ends in a carriage return only when its last part does.
pub proof fn lemma_join_last_not_cr(parts: Seq<Seq<char>>)
    requires
        parts.len() > 0,
        !ends_with_cr(parts.last()),
    ensures
        !ends_with_cr(join(parts, newline())),
{
    if parts.len() > 1 {
        let j = join(parts, newline());
        let a = join(parts.drop_last(), newline());
        if parts.last().len() == 0 {
            assert(j.last() == '\n');
        } else {
            assert(j.last() == parts.last().last());
        }
    }
}

/// Joining parts with newlines makes no carriage return before a newline
/// when no part holds one and no part but the last ends in a carriage return.
pub proof fn lemma_join_no_crlf(parts: Seq<Seq<char>>)
    requires
        forall|i: int| 0 <= i < parts.len() ==> no_crlf(#[trigger] parts[i]),
        forall|i: int| 0 <= i < parts.len() - 1 ==> !ends_with_cr(#[trigger] parts[i]),
    ensures
        no_crlf(join(parts, newline())),
    decreases parts.len(),
{
    if parts.len() > 1 {
        let p2 = parts.drop_last();
        assert forall|i: int| 0 <= i < p2.len() implies no_crlf(#[trigger] p2[i]) by {
            assert(p2[i] == parts[i]);
        }
        assert forall|i: int| 0 <= i < p2.len() - 1 implies !ends_with_cr(#[trigger] p2[i]) by {
            assert(p2[i] == parts[i]);
        }
        lemma_join_no_crlf(p2);
        assert(p2.last() == parts[parts.len() - 2]);
        lemma_join_last_not_cr(p2);
        let j = join(parts, newline());
        let a = join(p2, newline());
        let l = parts.last();
        assert(no_crlf(parts[parts.len() - 1]));
        assert forall|i: int| #![trigger j[i]] 0 <= i < j.len() - 1 implies !(j[i] == '\r' && j[i
            + 1] == '\n') by {
            if i < a.len() - 1 {
                assert(j[i] == a[i]);
                assert(j[i + 1] == a[i + 1]);
            } else if i == a.len() - 1 {
                assert(j[i] == a.last());
            } else if i == a.len() {
                assert(j[i] == '\n');
            } else {
                assert(j[i] == l[i - a.len() - 1]);
                assert(j[i + 1] == l[i + 1 - a.len() - 1]);
            }
        }
    }
}

/// A join ends with the last character of its last part.
pub proof fn lemma_join_last(parts: Seq<Seq<char>>, sep: Seq<char>)
    requires
        parts.len() > 0,
        parts.last().len() > 0,
    ensures
        join(parts, sep).len() > 0,
        join(parts, sep).last() == parts.last().last(),
{
}

/// The lines of a text hold no newline; without a carriage return before a
/// newline in the text, they hold none either, and only the last of them
/// may end in a carriage return.
pub proof fn lemma_lines_clean(s: Seq<char>)
    ensures
        forall|i: int| 0 <= i < lines(s).len() ==> no_newline(#[trigger] lines(s)[i]),
        no_crlf(s) ==> forall|i: int| 0 <= i < lines(s).len() ==> no_crlf(#[trigger] lines(s)[i]),
        no_crlf(s) ==> forall|i: int|
            0 <= i < lines(s).len() - 1 ==> !ends_with_cr(#[trigger] lines(s)[i]),
        s.len() > 0 <==> lines(s).len() > 0,
    decreases s.len(),
{
    if s.len() > 0 {
        let p = |c: char| c != '\n';
        lemma_count_prefix_props(s, p);
        let n = line_end(s);
        let ls = lines(s);
        if n < s.len() {
            let t = s.skip((n + 1) as int);
            lemma_lines_clean(t);
            let raw = s.take(n as int);
            let head = strip_cr(raw);
            assert(ls == seq![head] + lines(t));
            assert(no_newline(head)) by {
                assert forall|i: int| 0 <= i < head.len() implies head[i] != '\n' by {
                    assert(head[i] == s[i]);
                    assert(p(s[i]));
                }
            }
            assert forall|i: int| 0 <= i < ls.len() implies no_newline(#[trigger] ls[i]) by {
                if i > 0 {
                    assert(ls[i] == lines(t)[i - 1]);
                }
            }
            if no_crlf(s) {
                assert(s[n as int] == '\n');
                if n > 0 {
                    assert(s[n - 1] != '\r');
                    assert(raw.last() == s[n - 1]);
                }
                assert(head == raw);
                assert(no_crlf(head)) by {
                    assert forall|i: int| #![trigger head[i]] 0 <= i < head.len() - 1 implies !(
                    head[i] == '\r' && head[i + 1] == '\n') by {
                        assert(head[i] == s[i]);
                        assert(head[i + 1] == s[i + 1]);
                    }
                }
                assert(no_crlf(t)) by {
                    assert forall|i: int| #![trigger t[i]] 0 <= i < t.len() - 1 implies !(t[i]
                        == '\r' && t[i + 1] == '\n') by {
                        assert(t[i] == s[i + n + 1]);
                        assert(t[i + 1] == s[i + 1 + n + 1]);
                    }
                }
                assert forall|i: int| 0 <= i < ls.len() implies no_crlf(#[trigger] ls[i]) by {
                    if i > 0 {
                        assert(ls[i] == lines(t)[i - 1]);
                    }
                }
                assert forall|i: int| 0 <= i < ls.len() - 1 implies !ends_with_cr(#[trigger] ls[i]) by {
                    if i > 0 {
                        assert(ls[i] == lines(t)[i - 1]);
                    }
                }
            }
        } else {
            assert(ls == seq![s]);
            assert(ls[0] == s);
            assert(no_newline(s)) by {
                assert forall|i: int| 0 <= i < s.len() implies s[i] != '\n' by {
                    assert(p(s[i]));
                }
            }
        }
    }
}

/// Joining the lines of a text with newlines gives the text back, but for a
/// final newline, when no carriage return stands before a newline.
pub proof fn lemma_lines_join(s: Seq<char>)
    requires
        no_crlf(s),
    ensures
        join(lines(s), newline()) + (if ends_with_newline(s) {
            newline()
        } else {
            Seq::empty()
        }) == s,
    decreases s.len(),
{
    if s.len() > 0 {
        let p = |c: char| c != '\n';
        lemma_count_prefix_props(s, p);
        let n = line_end(s);
        if n < s.len() {
            let t = s.skip((n + 1) as int);
            let raw = s.take(n as int);
            assert(s[n as int] == '\n');
            if n > 0 {
                assert(s[n - 1] != '\r');
                assert(raw.last() == s[n - 1]);
            }
            assert(strip_cr(raw) == raw);
            assert(lines(s) == seq![raw] + lines(t));
            if t.len() == 0 {
                assert(lines(t) == Seq::<Seq<char>>::empty());
                assert(lines(s) =~= seq![raw]);
                assert(s.last() == '\n');
                assert(raw + newline() =~= s);
            } else {
                assert(no_crlf(t)) by {
                    assert forall|i: int| #![trigger t[i]] 0 <= i < t.len() - 1 implies !(t[i]
                        == '\r' && t[i + 1] == '\n') by {
                        assert(t[i] == s[i + n + 1]);
                        assert(t[i + 1] == s[i + 1 + n + 1]);
                    }
                }
                lemma_lines_join(t);
                lemma_lines_clean(t);
                lemma_join_concat(seq![raw], lines(t), newline());
                assert(join(seq![raw], newline()) == raw);
                assert(t.last() == s.last());
                let e = if ends_with_newline(s) {
                    newline()
                } else {
                    Seq::<char>::empty()
                };
                assert(raw + newline() + (join(lines(t), newline()) + e) =~= s);
                assert(join(lines(s), newline()) + e =~= raw + newline() + (join(
                    lines(t),
                    newline(),
                ) + e));
            }
        } else {
            assert(lines(s) == seq![s]);
            assert(p(s[s.len() - 1]));
            assert(!ends_with_newline(s));
            assert(join(lines(s), newline()) == s);
        }
    }
}

/// The lines of a line, a newline and more text: that line, then the lines of the rest.
pub proof fn lemma_lines_prefix(a: Seq<char>, t: Seq<char>)
    requires
        no_newline(a),
        !ends_with_cr(a),
    ensures
        lines(a + newline() + t) == seq![a] + lines(t),
{
    let s = a + newline() + t;
    let p = |c: char| c != '\n';
    assert forall|i: int| 0 <= i < a.len() implies #[trigger] p(s[i]) by {
        assert(s[i] == a[i]);
    }
    assert(s[a.len() as int] == '\n');
    lemma_count_prefix_is(s, p, a.len() as int);
    assert(line_end(s) == a.len());
    assert(s.take(a.len() as int) =~= a);
    assert(s.skip((a.len() + 1) as int) =~= t);
}

/// Does the text hold no carriage return right before a carriage return and a newline?
pub open spec fn no_cr_before_crlf(s: Seq<char>) -> bool {
    forall|i: int|
        #![trigger s[i]]
        0 <= i < s.len() - 2 ==> !(s[i] == '\r' && s[i + 1] == '\r' && s[i + 2] == '\n')
}

/// Is each line fit to be written out again before a newline: no line holds a
/// newline or ends in a carriage return?
pub open spec fn lines_reprintable(ls: Seq<Seq<char>>) -> bool {
    forall|i: int| 0 <= i < ls.len() ==> no_newline(#[trigger] ls[i]) && !ends_with_cr(ls[i])
}

/// What the lines of a text without a carriage return before a carriage
/// return and a newline are like: a line that a newline follows does not end
/// in a carriage return, and a last line that none follows is not empty.
pub proof fn lemma_lines_reprint(s: Seq<char>)
    requires
        no_cr_before_crlf(s),
    ensures
        forall|i: int|
            0 <= i < lines(s).len() - 1 ==> !ends_with_cr(#[trigger] lines(s)[i]),
        ends_with_newline(s) ==> lines(s).len() > 0 && !ends_with_cr(lines(s).last()),
        !ends_with_newline(s) && lines(s).len() > 0 ==> lines(s).last().len() > 0,
    decreases s.len(),
{
    lemma_lines_clean(s);
    if s.len() > 0 {
        let p = |c: char| c != '\n';
        lemma_count_prefix_props(s, p);
        let n = line_end(s);
        let ls = lines(s);
        if n < s.len() {
            let t = s.skip((n + 1) as int);
            let raw = s.take(n as int);
            let head = strip_cr(raw);
            assert(ls == seq![head] + lines(t));
            assert(s[n as int] == '\n');
            assert(!ends_with_cr(head)) by {
                if raw.len() > 0 && raw.last() == '\r' {
                    if n >= 2 {
                        assert(s[n - 2] == raw[n - 2]);
                        assert(s[n - 1] == raw[n - 1]);
                        assert(!(s[n - 2] == '\r' && s[n - 1] == '\r' && s[n as int] == '\n'));
                        assert(head.last() == s[n - 2]);
                    }
                } else {
                    assert(head == raw);
                }
            }
            assert(no_cr_before_crlf(t)) by {
                assert forall|i: int| #![trigger t[i]] 0 <= i < t.len() - 2 implies !(t[i]
                    == '\r' && t[i + 1] == '\r' && t[i + 2] == '\n') by {
                    assert(t[i] == s[i + n + 1]);
                    assert(t[i + 1] == s[i + 1 + n + 1]);
                    assert(t[i + 2] == s[i + 2 + n + 1]);
                }
            }
            lemma_lines_reprint(t);
            lemma_lines_clean(t);
            if t.len() == 0 {
                assert(lines(t) == Seq::<Seq<char>>::empty());
                assert(ls =~= seq![head]);
                assert(s.last() == '\n');
            } else {
                assert(t.last() == s.last());
                assert forall|i: int| 0 <= i < ls.len() - 1 implies !ends_with_cr(
                    #[trigger] ls[i],
                ) by {
                    if i > 0 {
                        assert(ls[i] == lines(t)[i - 1]);
                    }
                }
                assert(ls.last() == lines(t).last());
            }
        } else {
            assert(ls == seq![s]);
            assert(p(s[s.len() - 1]));
        }
    }
}

/// The lines of a text that holds no newline and is not empty: that text.
pub proof fn lemma_lines_single(x: Seq<char>)
    requires
        x.len() > 0,
        no_newline(x),
    ensures
        lines(x) == seq![x],
{
    let p = |c: char| c != '\n';
    assert forall|i: int| 0 <= i < x.len() implies #[trigger] p(x[i]) by {}
    lemma_count_prefix_is(x, p, x.len() as int);
}

/// Lines written out with a newline after each read back as the same lines,
/// followed by the lines of what comes after them.
pub proof fn lemma_lines_of_join(u: Seq<Seq<char>>, t: Seq<char>)
    requires
        u.len() > 0,
        lines_reprintable(u),
    ensures
        lines(join(u, newline()) + newline() + t) == u + lines(t),
    decreases u.len(),
{
    assert(no_newline(u[0]) && !ends_with_cr(u[0]));
    if u.len() == 1 {
        assert(join(u, newline()) == u[0]);
        lemma_lines_prefix(u[0], t);
        assert(seq![u[0]] =~= u);
    } else {
        let u2 = u.drop_first();
        assert(lines_reprintable(u2)) by {
            assert forall|i: int| 0 <= i < u2.len() implies no_newline(#[trigger] u2[i])
                && !ends_with_cr(u2[i]) by {
                assert(u2[i] == u[i + 1]);
            }
        }
        lemma_join_concat(seq![u[0]], u2, newline());
        assert(seq![u[0]] + u2 =~= u);
        assert(join(seq![u[0]], newline()) == u[0]);
        lemma_lines_of_join(u2, t);
        let rest = join(u2, newline()) + newline() + t;
        assert(join(u, newline()) + newline() + t =~= u[0] + newline() + rest);
        lemma_lines_prefix(u[0], rest);
        assert(seq![u[0]] + (u2 + lines(t)) =~= u + lines(t));
    }
}

/// Lines written out with newlines between them, and one more at the end
/// when `nl` holds, read back as the same lines.
pub proof fn lemma_lines_rejoin(w: Seq<Seq<char>>, nl: bool)
    requires
        w.len() > 0,
        forall|i: int| 0 <= i < w.len() ==> no_newline(#[trigger] w[i]),
        forall|i: int| 0 <= i < w.len() - 1 ==> !ends_with_cr(#[trigger] w[i]),
        nl ==> !ends_with_cr(w.last()),
        !nl ==> w.last().len() > 0,
    ensures
        ({
            let s = join(w, newline()) + if nl {
                newline()
            } else {
                Seq::empty()
            };
            &&& lines(s) == w
            &&& ends_with_newline(s) == nl
            &&& s.len() > 0
        }),
{
    let e = Seq::<char>::empty();
    if nl {
        assert(lines_reprintable(w)) by {
            assert forall|i: int| 0 <= i < w.len() implies no_newline(#[trigger] w[i])
                && !ends_with_cr(w[i]) by {
                if i == w.len() - 1 {
                    assert(w[i] == w.last());
                }
            }
        }
        lemma_lines_of_join(w, e);
        assert(join(w, newline()) + newline() + e =~= join(w, newline()) + newline());
        assert(lines(e) == Seq::<Seq<char>>::empty());
        assert(w + Seq::<Seq<char>>::empty() =~= w);
    } else {
        assert(no_newline(w.last()));
        if w.len() == 1 {
            assert(join(w, newline()) == w[0]);
            lemma_lines_single(w[0]);
            assert(seq![w[0]] =~= w);
        } else {
            let u = w.drop_last();
            assert(lines_reprintable(u)) by {
                assert forall|i: int| 0 <= i < u.len() implies no_newline(#[trigger] u[i])
                    && !ends_with_cr(u[i]) by {
                    assert(u[i] == w[i]);
                }
            }
            lemma_lines_of_join(u, w.last());
            lemma_lines_single(w.last());
            assert(u + seq![w.last()] =~= w);
        }
        lemma_join_last(w, newline());
        assert(join(w, newline()) + e =~= join(w, newline()));
    }
}

/// Lines written out with newlines between them read back as the same lines,
/// but for a last line that is empty.
pub proof fn lemma_lines_of_join_trim(t: Seq<Seq<char>>)
    requires
        lines_reprintable(t),
    ensures
        lines(join(t, newline())) == if t.len() > 0 && t.last().len() == 0 {
            t.drop_last()
        } else {
            t
        },
{
    let e = Seq::<char>::empty();
    if t.len() == 0 {
        assert(join(t, newline()).len() == 0);
    } else if t.last().len() > 0 {
        assert forall|i: int| 0 <= i < t.len() implies no_newline(#[trigger] t[i]) by {}
        assert forall|i: int| 0 <= i < t.len() - 1 implies !ends_with_cr(#[trigger] t[i]) by {}
        lemma_lines_rejoin(t, false);
        assert(join(t, newline()) + e =~= join(t, newline()));
    } else if t.len() == 1 {
        assert(join(t, newline()) == t[0]);
        assert(t[0].len() == 0);
        assert(t.drop_last() =~= Seq::<Seq<char>>::empty());
    } else {
        let u = t.drop_last();
        assert(lines_reprintable(u)) by {
            assert forall|i: int| 0 <= i < u.len() implies no_newline(#[trigger] u[i])
                && !ends_with_cr(u[i]) by {
                assert(u[i] == t[i]);
            }
        }
        lemma_lines_of_join(u, e);
        assert(join(t, newline()) =~= join(u, newline()) + newline() + e);
        assert(lines(e) == Seq::<Seq<char>>::empty());
        assert(u + Seq::<Seq<char>>::empty() =~= u);
    }
}

/// Join the strings `parts[from..to]` with `sep` between them.
pub fn join_with(parts: &Vec<String>, from: usize, to: usize, sep: &str) -> (r: String)
    requires
        from <= to <= parts.len(),
    ensures
        r@ == join(string_views(parts@).subrange(from as int, to as int), sep@),
{
    let mut r = String::new();
    let mut i = from;
    proof {
        assert(string_views(parts@).subrange(from as int, from as int) =~= Seq::<Seq<char>>::empty());
    }
    while i < to
        invariant
            from <= i <= to <= parts.len(),
            r@ == join(string_views(parts@).subrange(from as int, i as int), sep@),
        decreases to - i,
    {
        let ghost prev = string_views(parts@).subrange(from as int, i as int);
        proof {
            lemma_join_push(prev, parts@[i as int]@, sep@);
            assert(string_views(parts@).subrange(from as int, i + 1) =~= prev.push(parts@[i as int]@));
        }
        if i > from {
            r.append(sep);
        }
        r.append(parts[i].as_str());
        i = i + 1;
    }
    r
}

/// Join the strings `parts[from..to]` with newlines.
pub fn join_lines(parts: &Vec<String>, from: usize, to: usize) -> (r: String)
    requires
        from <= to <= parts.len(),
    ensures
        r@ == join(string_views(parts@).subrange(from as int, to as int), newline()),
{
    proof {
        reveal_strlit("\n");
        assert("\n"@ =~= newline());
    }
    join_with(parts, from, to, "\n")
}

/// Join all of `parts` with `sep` between them.
pub fn join_all(parts: &Vec<String>, sep: &str) -> (r: String)
    ensures
        r@ == join(string_views(parts@), sep@),
{
    proof {
        assert(string_views(parts@).subrange(0, parts@.len() as int) =~= string_views(parts@));
    }
    join_with(parts, 0, parts.len(), sep)
}

/// Does `a` from position `start` on hold exactly the characters of `b`?
pub fn chars_match_at(a: &Vec<char>, start: usize, b: &Vec<char>) -> (r: bool)
    requires
        start <= a.len(),
    ensures
        r == (a@.skip(start as int) == b@),
{
    if a.len() - start != b.len() {
        proof {
            assert(a@.skip(start as int).len() != b@.len());
        }
        return false;
    }
    let mut i: usize = 0;
    while i < b.len()
        invariant
            start <= a.len(),
            a.len() - start == b.len(),
            i <= b.len(),
            forall|k: int| 0 <= k < i ==> a@[start + k] == b@[k],
        decreases b.len() - i,
    {
        if a[start + i] != b[i] {
            proof {
                assert(a@.skip(start as int)[i as int] != b@[i as int]);
            }
            return false;
        }
        i = i + 1;
    }
    assert(a@.skip(start as int) =~= b@);
    true
}

/// Does `a` end with the characters of `b`?
pub fn chars_end_with(a: &Vec<char>, b: &Vec<char>) -> (r: bool)
    ensures
        r == ends_with(a@, b@),
{
    if a.len() < b.len() {
        false
    } else {
        chars_match_at(a, a.len() - b.len(), b)
    }
}

/// Does `s` end with a newline character?
pub fn str_ends_with_newline(s: &str) -> (r: bool)
    ensures
        r == ends_with_newline(s@),
{
    let n = s.unicode_len();
    n > 0 && s.get_char(n - 1) == '\n'
}

} // verus!
