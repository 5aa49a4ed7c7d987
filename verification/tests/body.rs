#![allow(unused_imports)]

use std::borrow::Cow;
use std::collections::hash_map::DefaultHasher;
use std::convert::TryFrom;
use std::hash::{Hash, Hasher};

use mit_commit::{
    Bodies, Body, Comment, Comments, CommitMessage, Fragment, Scissors, Subject, Trailer, Trailers,
};

#[test]
    fn test_string_conversion_from_str() {
        let body = Body::from("Example Body");

        assert_eq!(
            String::from(body),
            String::from("Example Body"),
            "Body should convert to the correct string when created from a str"
        );
    }

#[test]
    fn test_string_conversion_from_string() {
        let body = Body::from(String::from("Example Body"));

        assert_eq!(
            String::from(body),
            String::from("Example Body"),
            "Body should convert to the correct string when created from a String"
        );
    }

#[test]
    fn test_display_implementation() {
        let body = Body::from("Example Body");

        assert_eq!(
            body.to_string(),
            "Example Body",
            "Display implementation should format the body correctly"
        );
    }

#[test]
    fn test_append_body_fragments() {
        assert_eq!(
            Body::from("Example 1\nExample 2"),
            Body::from("Example 1").append(&Body::from("Example 2")),
            "Appending bodies should create a new body with content separated by newline"
        );
    }

#[test]
    fn test_is_empty_with_empty_body() {
        assert!(
            Body::from("").is_empty(),
            "Empty body should be identified as empty"
        );
    }

#[test]
    fn test_is_empty_with_non_empty_body() {
        assert!(
            !Body::from("something").is_empty(),
            "Non-empty body should not be identified as empty"
        );
    }
