# mit_commit

A library to parse commit messages in git hooks, written in Verus: the parser
and every operation on a parsed message carry contracts that Verus proves.
What a regular expression matches is left to the regex crate: the contract of
`matches_pattern` names that answer and fixes the text it is asked about.

## Layout

- `src/text.rs`: the character-sequence model the parser is stated over
  (lines, joins, trimming, searching) with the lemmas about it, and the
  executable text helpers.
- `src/body.rs`, `src/comment.rs`, `src/subject.rs`, `src/scissors.rs`,
  `src/fragment.rs`, `src/trailer.rs`: the parts of a message. Each type has a
  view (its text, or a `TrailerView`/`FragmentView`); `scissors.rs` holds the
  scissors-line detection and comment-character guess, `trailer.rs` the two
  trailer forms (`Key: value` and `Key #value`).
- `src/bodies.rs`, `src/comments.rs`, `src/trailers.rs`: the collections, and
  how each is read out of a list of fragments.
- `src/commit_message.rs`: `CommitMessage`, its parse (`parse_message`), its
  text (`render`), and the editing operations, each stated over those.
- `src/laws.rs`: properties across functions, proved on exactly the inputs
  they hold of: printing a parsed message gives it back, rebuilding a parsed
  message from its fragments gives the same message, trailer text round
  trips, the comment character of a parsed message, and what replacing the
  subject or body gives.
- `app/lib.rs`: reading a commit message from a file, with its error type.
- `tests/`: the library's tests.
