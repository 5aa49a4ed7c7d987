#![allow(unused_imports)]

use std::borrow::Cow;
use std::collections::hash_map::DefaultHasher;
use std::convert::TryFrom;
use std::hash::{Hash, Hasher};

use mit_commit::{
    Bodies, Body, Comment, Comments, CommitMessage, Fragment, Scissors, Subject, Trailer, Trailers,
};

#[test]
    fn trailer_it_can_tell_me_its_key() {
        let trailer = Trailer::new("Relates-to".into(), "#128".into());

        assert_eq!(trailer.get_key(), String::from("Relates-to"));
    }

#[test]
    fn trailer_it_can_tell_me_its_value() {
        let trailer = Trailer::new("Relates-to".into(), "#128".into());

        assert_eq!(trailer.get_value(), String::from("#128"));
    }

#[test]
    fn trailer_it_does_not_take_trailing_whitespace_into_account_in_equality_checks() {
        let a = Trailer::new("Relates-to".into(), "#128\n".into());
        let b = Trailer::new("Relates-to".into(), "#128".into());

        assert_eq!(a, b);
    }

#[test]
    fn it_does_not_match_on_differing_vales() {
        let a = Trailer::new("Relates-to".into(), "#129".into());
        let b = Trailer::new("Relates-to".into(), "#128".into());

        assert_ne!(a, b);
    }

#[test]
    fn it_does_not_match_on_differing_names() {
        let a = Trailer::new("Another".into(), "#128".into());
        let b = Trailer::new("Relates-to".into(), "#128".into());

        assert_ne!(a, b);
    }

#[test]
    fn trailer_it_does_not_take_trailing_whitespace_into_account_in_hashing() {
        let mut hasher_a = DefaultHasher::new();
        Trailer::new("Relates-to".into(), "#128\n".into()).hash(&mut hasher_a);

        let mut hasher_b = DefaultHasher::new();
        Trailer::new("Relates-to".into(), "#128".into()).hash(&mut hasher_b);

        assert_eq!(hasher_a.finish(), hasher_b.finish());
    }

#[test]
    fn it_differing_relates_headers_do_not_match_hashes() {
        let mut hasher_a = DefaultHasher::new();
        Trailer::new("Relates".into(), "#128".into()).hash(&mut hasher_a);

        let mut hasher_b = DefaultHasher::new();
        Trailer::new("Relates-to".into(), "#128".into()).hash(&mut hasher_b);

        assert_ne!(hasher_a.finish(), hasher_b.finish());
    }

#[test]
    fn it_differing_relates_values_do_not_match_hashes() {
        let mut hasher_a = DefaultHasher::new();
        Trailer::new("Relates-to".into(), "#129".into()).hash(&mut hasher_a);

        let mut hasher_b = DefaultHasher::new();
        Trailer::new("Relates-to".into(), "#128".into()).hash(&mut hasher_b);

        assert_ne!(hasher_a.finish(), hasher_b.finish());
    }

#[test]
    fn trailer_it_can_give_me_itself_as_a_string() {
        let trailer = Trailer::new("Relates-to".into(), "#128".into());

        assert_eq!(String::from(trailer), String::from("Relates-to: #128"));
    }

#[test]
    fn trailer_can_generate_itself_from_body() {
        let trailer = Trailer::try_from(Body::from("Relates-to: #128"));

        assert_eq!(
            String::from(trailer.expect("Could not parse from string")),
            String::from("Relates-to: #128")
        );
    }

#[test]
    fn trailer_it_preserves_preceding_whitespace() {
        let trailer = Trailer::try_from(Body::from("Relates-to:      #128\n"));

        assert_eq!(
            String::from(trailer.expect("Could not parse from string")),
            String::from("Relates-to:      #128\n")
        );
    }

#[test]
    fn trailer_can_generate_from_body() {
        let trailer = Trailer::new("Relates-to".into(), "#128".into());
        let body: Fragment<'_> = Fragment::from(trailer);
        assert_eq!(body, Fragment::Body(Body::from("Relates-to: #128")));
    }

#[test]
    fn it_preserves_value_containing_colon_space() {
        let trailer = Trailer::try_from(Body::from(
            "See: fix crash in http://example.com:8080 handler",
        ))
        .expect("Should parse as a trailer");

        assert_eq!(
            String::from(trailer),
            String::from("See: fix crash in http://example.com:8080 handler"),
            "Trailer value containing ': ' should be preserved in full"
        );
    }

#[test]
    fn it_preserves_value_with_multiple_colon_spaces() {
        let trailer = Trailer::try_from(Body::from(
            "Co-authored-by: Someone <someone@example.com>: extra",
        ))
        .expect("Should parse as a trailer");

        assert_eq!(
            trailer.get_key(),
            "Co-authored-by",
            "Key should only be the part before the first ': '"
        );
        assert_eq!(
            trailer.get_value(),
            "Someone <someone@example.com>: extra",
            "Value should include everything after the first ': ', including subsequent ': '"
        );
    }

#[test]
    fn it_parses_hash_separator_trailer() {
        let trailer = Trailer::try_from(Body::from("Fix #42")).expect("Should parse as a trailer");

        assert_eq!(trailer.get_key(), "Fix");
        assert_eq!(trailer.get_value(), "42");
    }

#[test]
    fn it_round_trips_hash_separator_trailer() {
        let trailer = Trailer::try_from(Body::from("Fix #42")).expect("Should parse as a trailer");

        assert_eq!(
            String::from(trailer),
            String::from("Fix #42"),
            "Hash separator trailer should round-trip exactly"
        );
    }

#[test]
    fn it_parses_fixes_hash_trailer() {
        let trailer =
            Trailer::try_from(Body::from("Fixes #123")).expect("Should parse as a trailer");

        assert_eq!(trailer.get_key(), "Fixes");
        assert_eq!(trailer.get_value(), "123");
    }

#[test]
    fn it_parses_closes_hash_trailer() {
        let trailer =
            Trailer::try_from(Body::from("Closes #7")).expect("Should parse as a trailer");

        assert_eq!(trailer.get_key(), "Closes");
        assert_eq!(trailer.get_value(), "7");
    }

#[test]
    fn it_does_not_parse_prose_with_hash_as_trailer() {
        // A sentence containing "#" should not be mistaken for a trailer
        // because the "key" part contains spaces.
        let result = Trailer::try_from(Body::from("This is a sentence with a #hashtag in it"));

        assert!(
            result.is_err(),
            "Prose containing '#' should not be parsed as a hash trailer"
        );
    }

#[test]
    fn it_round_trips_hash_trailer_from_new_with_separator() {
        let trailer = Trailer::new_with_separator("Fix".into(), "42".into(), " #".into());

        assert_eq!(String::from(trailer), String::from("Fix #42"));
    }

#[test]
    fn hash_and_colon_trailers_with_same_key_value_are_equal() {
        // Two trailers with the same key and value are equal regardless
        // of separator — the separator is a formatting concern, not identity.
        let hash_trailer = Trailer::new_with_separator("Fix".into(), "42".into(), " #".into());
        let colon_trailer = Trailer::new("Fix".into(), "42".into());

        assert_eq!(hash_trailer, colon_trailer);
    }
