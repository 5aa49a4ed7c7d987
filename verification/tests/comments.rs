#![allow(unused_imports)]

use std::borrow::Cow;
use std::collections::hash_map::DefaultHasher;
use std::convert::TryFrom;
use std::hash::{Hash, Hasher};

use mit_commit::{
    Bodies, Body, Comment, Comments, CommitMessage, Fragment, Scissors, Subject, Trailer, Trailers,
};

#[test]
    fn test_iterator_implementation() {
        let comments = Comments::from(vec![
            Comment::from("# Comment 1"),
            Comment::from("# Comment 2"),
            Comment::from("# Comment 3"),
        ]);
        let mut iterator = comments.iter();

        assert_eq!(
            iterator.next(),
            Some(&Comment::from("# Comment 1")),
            "Iterator should return the first comment"
        );
        assert_eq!(
            iterator.next(),
            Some(&Comment::from("# Comment 2")),
            "Iterator should return the second comment"
        );
        assert_eq!(
            iterator.next(),
            Some(&Comment::from("# Comment 3")),
            "Iterator should return the third comment"
        );
        assert_eq!(
            iterator.next(),
            None,
            "Iterator should return None after all comments"
        );
    }

#[test]
    fn test_string_conversion() {
        let comments = Comments::from(vec![
            Comment::from("# Message Body"),
            Comment::from("# Another Message Body"),
        ]);

        assert_eq!(
            String::from(comments),
            String::from("# Message Body\n\n# Another Message Body"),
            "Comments should convert to a string with comments separated by double newlines"
        );
    }

#[test]
    fn test_creation_from_fragments() {
        let comments = Comments::from(vec![
            Fragment::Comment(Comment::from("# Message Body")),
            Fragment::Body(Body::from("Some body content")),
            Fragment::Comment(Comment::from("# Another Message Body")),
        ]);

        assert_eq!(
            comments,
            Comments::from(vec![
                Comment::from("# Message Body"),
                Comment::from("# Another Message Body"),
            ]),
            "Comments should be created from fragments, filtering out non-comment fragments"
        );
    }
