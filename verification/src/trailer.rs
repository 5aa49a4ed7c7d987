use std::borrow::Cow;
use std::convert::TryFrom;
use std::hash::{Hash, Hasher};

use vstd::prelude::*;
use vstd::std_specs::cmp::PartialEqSpecImpl;
use vstd::string::StrSliceExecFns;
use vstd::string::StringExecFns;
use vstd::utf8::encode_utf8;

use crate::text::{
    char_is_alphanumeric, char_is_whitespace, clone_cow, cow_str, index_of,
    lemma_count_prefix_is, lemma_count_suffix_is, to_chars, trim, trim_end,
    unicode_alphanumeric, unicode_whitespace,
};
use crate::{Body, Fragment};

verus! {

/// The abstract content of a trailer.
pub struct TrailerView {
    pub key: Seq<char>,
    pub value: Seq<char>,
    pub separator: Seq<char>,
}

/// How a trailer is written out: key, separator, value.
pub open spec fn trailer_text(t: TrailerView) -> Seq<char> {
    t.key + t.separator + t.value
}

/// Position of the first `": "` in `s`.
pub open spec fn find_colon_space(s: Seq<char>) -> Option<nat>
    decreases s.len(),
{
    if s.len() < 2 {
        None
    } else if s[0] == ':' && s[1] == ' ' {
        Some(0)
    } else {
        match find_colon_space(s.drop_first()) {
            Some(i) => Some(i + 1),
            None => None,
        }
    }
}

/// A `Key: value` trailer: split at the first `": "`, with a non-empty key.
pub open spec fn parse_colon_trailer_spec(s: Seq<char>) -> Option<TrailerView> {
    match find_colon_space(s) {
        Some(i) => if i == 0 {
            None
        } else {
            Some(
                TrailerView {
                    key: s.take(i as int),
                    value: s.skip((i + 2) as int),
                    separator: seq![':', ' '],
                },
            )
        },
        None => None,
    }
}

/// A character that may stand in the key of a `Key #value` trailer.
pub open spec fn hash_key_char(c: char) -> bool {
    unicode_alphanumeric(c) || c == '-'
}

/// A `Key #value` trailer: split at the first `#`; the key is the trimmed text
/// before it, non-empty and word-like.
pub open spec fn parse_hash_trailer_spec(s: Seq<char>) -> Option<TrailerView> {
    match index_of(s, '#') {
        Some(j) => {
            let key = trim(s.take(j as int));
            if key.len() > 0 && forall|k: int| 0 <= k < key.len() ==> hash_key_char(#[trigger] key[k]) {
                Some(TrailerView { key, value: s.skip((j + 1) as int), separator: seq![' ', '#'] })
            } else {
                None
            }
        },
        None => None,
    }
}

/// The trailer a line of text holds, if any: the colon form first, then the hash form.
pub open spec fn parse_trailer_spec(s: Seq<char>) -> Option<TrailerView> {
    match parse_colon_trailer_spec(s) {
        Some(t) => Some(t),
        None => parse_hash_trailer_spec(s),
    }
}

/// A trailer you might see in a commit message, for example
/// 'Co-authored-by: Billie Thompson <billie@example.com>'
#[derive(Debug, Eq, PartialOrd, Ord)]
pub struct Trailer<'a> {
    key: Cow<'a, str>,
    value: Cow<'a, str>,
    /// The separator between key and value: typically `": "`, but `" #"` is
    /// also supported, as in `Fix #42`.
    separator: Cow<'a, str>,
}

impl<'a> View for Trailer<'a> {
    type V = TrailerView;

    closed spec fn view(&self) -> TrailerView {
        TrailerView { key: self.key@, value: self.value@, separator: self.separator@ }
    }
}

/// Errors in parsing potential trailers
#[derive(Debug)]
pub enum Error {
    /// When the given text is not a trailer: the text, and the byte span it covers
    NotATrailer(String, (usize, usize)),
}

impl Error {
    fn new_not_a_trailer(text: &str) -> (r: Self)
        ensures
            r matches Error::NotATrailer(t, span) && t@ == text@ && span == (0usize, text.len()),
    {
        Error::NotATrailer(text.to_owned(), (0, text.len()))
    }
}

/// The part of `s` without trailing whitespace.
fn trim_end_str(s: &str) -> (r: &str)
    ensures
        r@ == trim_end(s@),
{
    let chars = to_chars(s);
    let n = chars.len();
    let mut k: usize = 0;
    while k < n && char_is_whitespace(chars[n - 1 - k])
        invariant
            k <= n,
            n == chars.len(),
            forall|i: int| n - k <= i < n ==> unicode_whitespace(#[trigger] chars@[i]),
        decreases n - k,
    {
        k = k + 1;
    }
    proof {
        let p = |c: char| unicode_whitespace(c);
        assert forall|i: int| s@.len() - k <= i < s@.len() implies #[trigger] p(s@[i]) by {}
        lemma_count_suffix_is(s@, p, k as int);
    }
    s.substring_char(0, n - k)
}

/// The part of `s` without leading and trailing whitespace.
fn trim_str(s: &str) -> (r: &str)
    ensures
        r@ == trim(s@),
{
    let t = trim_end_str(s);
    let chars = to_chars(t);
    let n = chars.len();
    let mut k: usize = 0;
    while k < n && char_is_whitespace(chars[k])
        invariant
            k <= n,
            n == chars.len(),
            forall|i: int| 0 <= i < k ==> unicode_whitespace(#[trigger] chars@[i]),
        decreases n - k,
    {
        k = k + 1;
    }
    proof {
        let p = |c: char| unicode_whitespace(c);
        assert forall|i: int| 0 <= i < k implies #[trigger] p(t@[i]) by {}
        lemma_count_prefix_is(t@, p, k as int);
    }
    t.substring_char(k, n)
}

/// Do two strings hold the same characters?
fn str_eq(a: &str, b: &str) -> (r: bool)
    ensures
        r == (a@ == b@),
{
    let x = to_chars(a);
    let y = to_chars(b);
    if x.len() != y.len() {
        proof {
            assert(x@.len() != y@.len());
        }
        return false;
    }
    let mut i: usize = 0;
    while i < x.len()
        invariant
            x@ == a@,
            y@ == b@,
            x.len() == y.len(),
            i <= x.len(),
            forall|k: int| 0 <= k < i ==> x@[k] == y@[k],
        decreases x.len() - i,
    {
        if x[i] != y[i] {
            proof {
                assert(x@[i as int] != y@[i as int]);
            }
            return false;
        }
        i = i + 1;
    }
    assert(x@ =~= y@);
    true
}

/// Parse a colon-separated trailer: "Key: value".
fn parse_colon_trailer<'b>(content: &str) -> (r: Option<Trailer<'b>>)
    ensures
        match (r, parse_colon_trailer_spec(content@)) {
            (Some(t), Some(u)) => t@ == u,
            (None, None) => true,
            _ => false,
        },
{
    let chars = to_chars(content);
    let n = chars.len();
    let ghost s = content@;
    let mut i: usize = 0;
    assert(s.skip(0) =~= s);
    while i < n && i + 1 < n && !(chars[i] == ':' && chars[i + 1] == ' ')
        invariant
            i <= n,
            n == chars.len(),
            chars@ == s,
            find_colon_space(s) == match find_colon_space(s.skip(i as int)) {
                Some(q) => Some((q + i) as nat),
                None => None,
            },
        decreases n - i,
    {
        proof {
            assert(s.skip(i as int).drop_first() =~= s.skip(i + 1));
        }
        i = i + 1;
    }
    if i >= n || i + 1 >= n {
        proof {
            assert(s.skip(i as int).len() < 2);
        }
        return None;
    }
    proof {
        assert(s.skip(i as int)[0] == ':' && s.skip(i as int)[1] == ' ');
    }
    if i == 0 {
        return None;
    }
    let key = content.substring_char(0, i).to_owned();
    let value = content.substring_char(i + 2, n).to_owned();
    proof {
        reveal_strlit(": ");
        assert(key@ =~= s.take(i as int));
        assert(value@ =~= s.skip(i + 2));
    }
    Some(Trailer::new(Cow::Owned(key), Cow::Owned(value)))
}

/// Parse a hash-separated trailer: "Fix #42".
///
/// The key must be a word-like token (letters, digits, hyphens), so that prose
/// which happens to contain "#" does not match.
fn parse_hash_trailer<'b>(content: &str) -> (r: Option<Trailer<'b>>)
    ensures
        match (r, parse_hash_trailer_spec(content@)) {
            (Some(t), Some(u)) => t@ == u,
            (None, None) => true,
            _ => false,
        },
{
    let chars = to_chars(content);
    let n = chars.len();
    let ghost s = content@;
    let mut j: usize = 0;
    while j < n && chars[j] != '#'
        invariant
            j <= n,
            n == chars.len(),
            chars@ == s,
            forall|k: int| 0 <= k < j ==> chars@[k] != '#',
        decreases n - j,
    {
        j = j + 1;
    }
    proof {
        let p = crate::text::differs_from('#');
        assert forall|k: int| 0 <= k < j implies #[trigger] p(s[k]) by {}
        lemma_count_prefix_is(s, p, j as int);
    }
    if j >= n {
        return None;
    }
    let before = content.substring_char(0, j);
    proof {
        assert(before@ =~= s.take(j as int));
    }
    let key = trim_str(before);
    let key_chars = to_chars(key);
    if key_chars.len() == 0 {
        return None;
    }
    let mut k: usize = 0;
    while k < key_chars.len()
        invariant
            k <= key_chars.len(),
            key_chars@ == key@,
            s == content@,
            key@ == trim(s.take(j as int)),
            index_of(s, '#') == Some(j as nat),
            forall|m: int| 0 <= m < k ==> hash_key_char(#[trigger] key_chars@[m]),
        decreases key_chars.len() - k,
    {
        let c = key_chars[k];
        if !(char_is_alphanumeric(c) || c == '-') {
            proof {
                assert(key@[k as int] == c);
                assert(!hash_key_char(key@[k as int]));
            }
            return None;
        }
        k = k + 1;
    }
    let value = content.substring_char(j + 1, n).to_owned();
    proof {
        reveal_strlit(" #");
        assert(" #"@ =~= seq![' ', '#']);
        assert(value@ =~= s.skip(j + 1));
    }
    Some(
        Trailer::new_with_separator(
            Cow::Owned(key.to_owned()),
            Cow::Owned(value),
            Cow::Borrowed(" #"),
        ),
    )
}

impl<'a> Trailer<'a> {
    /// Create a new trailer, written with the `": "` separator.
    pub fn new(key: Cow<'a, str>, value: Cow<'a, str>) -> (r: Self)
        ensures
            r@ == (TrailerView { key: key@, value: value@, separator: seq![':', ' '] }),
    {
        proof {
            reveal_strlit(": ");
            assert(": "@ =~= seq![':', ' ']);
        }
        Self { key, value, separator: Cow::Borrowed(": ") }
    }

    /// Create a new trailer with a custom separator, such as `" #"` in `Fix #42`.
    pub fn new_with_separator(key: Cow<'a, str>, value: Cow<'a, str>, separator: Cow<'a, str>) -> (r:
        Self)
        ensures
            r@ == (TrailerView { key: key@, value: value@, separator: separator@ }),
    {
        Self { key, value, separator }
    }

    /// The key of the trailer.
    pub fn get_key(&self) -> (r: String)
        ensures
            r@ == self@.key,
    {
        cow_str(&self.key).to_owned()
    }

    /// The value of the trailer.
    pub fn get_value(&self) -> (r: String)
        ensures
            r@ == self@.value,
    {
        cow_str(&self.value).to_owned()
    }

    /// How the trailer is written out: key, separator, value.
    pub(crate) fn to_text(&self) -> (r: String)
        ensures
            r@ == trailer_text(self@),
    {
        let mut s = String::from_str(cow_str(&self.key));
        s.append(cow_str(&self.separator));
        s.append(cow_str(&self.value));
        s
    }
}

impl<'a> Clone for Trailer<'a> {
    fn clone(&self) -> (r: Self)
        ensures
            r == *self,
    {
        Trailer {
            key: clone_cow(&self.key),
            value: clone_cow(&self.value),
            separator: clone_cow(&self.separator),
        }
    }
}

impl<'a> PartialEq for Trailer<'a> {
    /// Trailers are equal when their keys are, and their values are apart
    /// from trailing whitespace; the separator plays no part.
    fn eq(&self, other: &Self) -> (r: bool) {
        str_eq(cow_str(&self.key), cow_str(&other.key)) && str_eq(
            trim_end_str(cow_str(&self.value)),
            trim_end_str(cow_str(&other.value)),
        )
    }
}

impl<'a> PartialEqSpecImpl for Trailer<'a> {
    open spec fn obeys_eq_spec() -> bool {
        true
    }

    open spec fn eq_spec(&self, other: &Self) -> bool {
        self@.key == other@.key && trim_end(self@.value) == trim_end(other@.value)
    }
}

impl<'a> Hash for Trailer<'a> {
    /// Hashes the key and the value without its trailing whitespace, in line
    /// with equality; the separator plays no part.
    #[verifier::external_body]
    fn hash<H: Hasher>(&self, state: &mut H) {
        self.key.hash(state);
        self.value.trim_end().hash(state);
    }
}

impl<'a> From<Trailer<'a>> for String {
    fn from(trailer: Trailer<'a>) -> (r: String)
        ensures
            r@ == trailer_text(trailer@),
    {
        trailer.to_text()
    }
}

impl<'a> vstd::std_specs::convert::FromSpecImpl<Trailer<'a>> for String {
    open spec fn obeys_from_spec() -> bool {
        false
    }

    open spec fn from_spec(trailer: Trailer<'a>) -> Self {
        arbitrary()
    }
}

impl<'a> From<Trailer<'a>> for Fragment<'a> {
    fn from(trailer: Trailer<'a>) -> (r: Fragment<'a>)
        ensures
            r@ == crate::fragment::FragmentView::Body(trailer_text(trailer@)),
    {
        Fragment::Body(Body::from(trailer.to_text()))
    }
}

impl<'a> vstd::std_specs::convert::FromSpecImpl<Trailer<'a>> for Fragment<'a> {
    open spec fn obeys_from_spec() -> bool {
        false
    }

    open spec fn from_spec(trailer: Trailer<'a>) -> Self {
        arbitrary()
    }
}

impl<'a> TryFrom<Body<'a>> for Trailer<'a> {
    type Error = Error;

    fn try_from(body: Body<'a>) -> (r: Result<Self, Self::Error>)
        ensures
            match (r, parse_trailer_spec(body@)) {
                (Ok(t), Some(u)) => t@ == u,
                (Err(e), None) => e matches Error::NotATrailer(text, span) && text@ == body@
                    && span == (0usize, encode_utf8(body@).len() as usize),
                _ => false,
            },
    {
        let content = body.as_str();
        if let Some(trailer) = parse_colon_trailer(content) {
            return Ok(trailer);
        }
        if let Some(trailer) = parse_hash_trailer(content) {
            return Ok(trailer);
        }
        Err(Error::new_not_a_trailer(content))
    }
}

impl<'a> vstd::std_specs::convert::TryFromSpecImpl<Body<'a>> for Trailer<'a> {
    open spec fn obeys_try_from_spec() -> bool {
        false
    }

    open spec fn try_from_spec(body: Body<'a>) -> Result<Self, Self::Error> {
        arbitrary()
    }
}

} // verus!
