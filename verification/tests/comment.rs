#![allow(unused_imports)]

use std::borrow::Cow;
use std::collections::hash_map::DefaultHasher;
use std::convert::TryFrom;
use std::hash::{Hash, Hasher};

use mit_commit::{
    Bodies, Body, Comment, Comments, CommitMessage, Fragment, Scissors, Subject, Trailer, Trailers,
};

#[test]
    fn test_creation_from_str() {
        let comment = Comment::from("# Example Comment");

        assert_eq!(
            String::from(comment),
            String::from("# Example Comment"),
            "Comment should convert to the correct string when created from a str"
        );
    }

#[test]
    fn test_creation_from_string() {
        let comment = Comment::from(String::from("# Example Comment"));

        assert_eq!(
            String::from(comment),
            String::from("# Example Comment"),
            "Comment should convert to the correct string when created from a String"
        );
    }

#[test]
    fn test_legal_comment_char_detection() {
        assert!(
            Comment::is_legal_comment_char('#'),
            "# should be recognized as a legal comment character"
        );
    }

#[test]
    fn test_illegal_comment_char_detection() {
        assert!(
            !Comment::is_legal_comment_char('?'),
            "? should not be recognized as a legal comment character"
        );
    }

#[test]
    fn test_append_comment_fragments() {
        assert_eq!(
            Comment::from("Example 1\nExample 2"),
            Comment::from("Example 1").append(&Comment::from("Example 2")),
            "Appending comments should create a new comment with content separated by newline"
        );
    }
