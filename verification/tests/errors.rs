//! Each error that the library gives, and the input that gives it.

use std::borrow::Cow;
use std::convert::TryFrom;

use keyvalues_parser::de::Error as DeError;
use keyvalues_parser::error::{Error, TokenContext};
use keyvalues_parser::ser::vdf_from_naive_tokens;
use keyvalues_parser::NaiveToken::{Null, ObjBegin, ObjEnd, SeqBegin, SeqEnd};
use keyvalues_parser::{NaiveToken, NaiveTokenStream, TokenStream, Vdf};

fn naive(tokens: Vec<NaiveToken>) -> NaiveTokenStream {
    NaiveTokenStream(tokens)
}

#[test]
fn parse_errors() {
    assert_eq!(Vdf::parse("\"unterminated"), Err(Error::EscapedParseError));
    assert_eq!(Vdf::parse_raw("\"unterminated"), Err(Error::RawParseError));
    assert_eq!(Vdf::parse("a b c"), Err(Error::EscapedParseError));
    assert_eq!(Vdf::parse(""), Err(Error::EscapedParseError));
    assert_eq!(Vdf::parse("k { a b"), Err(Error::EscapedParseError));
    assert!(Vdf::parse("k v\0").is_ok());
}

#[test]
fn escapes_read_or_kept() {
    let escaped = Vdf::parse(r#""k" "a\tb\\c\"d\ne""#).unwrap();
    assert_eq!(escaped.value.get_str(), Some(&Cow::from("a\tb\\c\"d\ne")));
    let raw = Vdf::parse_raw(r#""k" "a\tb""#).unwrap();
    assert_eq!(raw.value.get_str(), Some(&Cow::from("a\\tb")));
}

#[test]
fn token_stream_errors() {
    let cases = vec![
        (vec![], TokenContext::EofWhileParsingKey),
        (vec![ObjBegin], TokenContext::ExpectedSomeVal),
        (vec![NaiveToken::str("k")], TokenContext::EofWhileParsingVal),
        (vec![NaiveToken::str("k"), ObjEnd], TokenContext::ExpectedSomeVal),
        (vec![NaiveToken::str("k"), SeqBegin], TokenContext::EofWhileParsingSeq),
        (vec![NaiveToken::str("k"), SeqBegin, SeqBegin], TokenContext::ExpectedNonSeqVal),
        (vec![NaiveToken::str("k"), ObjBegin], TokenContext::EofWhileParsingObj),
        (vec![NaiveToken::str("k"), Null], TokenContext::ExpectedNonSeqVal),
        (
            vec![NaiveToken::str("k"), NaiveToken::str("v"), NaiveToken::str("x")],
            TokenContext::TrailingTokens,
        ),
        (
            vec![NaiveToken::str("k"), SeqBegin, NaiveToken::str("a"), NaiveToken::str("b"), SeqEnd],
            TokenContext::TrailingTokens,
        ),
    ];
    for (tokens, context) in cases {
        assert_eq!(
            Vdf::try_from(&naive(tokens)),
            Err(Error::InvalidTokenStream(context))
        );
    }
}

#[test]
fn null_values_are_left_out() {
    let stream = naive(vec![
        NaiveToken::str("k"),
        ObjBegin,
        NaiveToken::str("a"),
        SeqBegin,
        Null,
        NaiveToken::str("x"),
        SeqEnd,
        ObjEnd,
    ]);
    let vdf = Vdf::try_from(&stream).unwrap();
    assert_eq!(vdf.to_string(), "\"k\"\n{\n\t\"a\"\t\"x\"\n}\n");
}

#[test]
fn token_stream_from_naive_errors() {
    assert_eq!(
        TokenStream::try_from(&naive(vec![NaiveToken::str("k")])),
        Err(DeError::InvalidTokenStream)
    );
    assert_eq!(
        TokenStream::try_from(&naive(vec![NaiveToken::str("k"), NaiveToken::str("v"), ObjEnd])),
        Err(DeError::InvalidTokenStream)
    );
    assert_eq!(
        TokenStream::try_from(&naive(vec![NaiveToken::str("k"), Null])),
        Err(DeError::InvalidTokenStream)
    );
}

#[test]
fn serialized_token_errors() {
    let message = |s: &str| DeError::Message(String::from(s));
    assert_eq!(
        vdf_from_naive_tokens(&[]),
        Err(message("Expected key, found: None"))
    );
    assert_eq!(
        vdf_from_naive_tokens(&[SeqEnd]),
        Err(message("Expected key, found: Some(SeqEnd)"))
    );
    assert_eq!(
        vdf_from_naive_tokens(&[NaiveToken::str("k"), ObjBegin, ObjEnd, ObjEnd]),
        Err(DeError::TrailingTokens)
    );
    assert_eq!(
        vdf_from_naive_tokens(&[NaiveToken::str("k")]),
        Err(DeError::ExpectedSomeValue)
    );
    assert_eq!(
        vdf_from_naive_tokens(&[NaiveToken::str("k"), SeqBegin, SeqBegin]),
        Err(DeError::ExpectedSomeNonSeqValue)
    );
    assert_eq!(
        vdf_from_naive_tokens(&[NaiveToken::str("k"), ObjBegin]),
        Err(DeError::ExpectedObjectStart)
    );
    assert_eq!(
        vdf_from_naive_tokens(&[NaiveToken::str("k"), Null]),
        Err(message(
            "Syntax error: Serialized multiple values when there should only be one"
        ))
    );
    assert_eq!(
        vdf_from_naive_tokens(&[NaiveToken::str("k"), ObjBegin, NaiveToken::str("a"), SeqEnd]),
        Err(DeError::ExpectedSomeValue)
    );
}

#[test]
fn serialized_tokens_keep_the_last_value_and_infer_empty_keys() {
    let tokens = [
        NaiveToken::str("k"),
        SeqBegin,
        NaiveToken::str("first"),
        NaiveToken::str("last"),
        SeqEnd,
    ];
    let vdf = vdf_from_naive_tokens(&tokens).unwrap();
    assert_eq!(vdf.value.get_str(), Some(&Cow::from("last")));

    let tokens = [ObjBegin, NaiveToken::str("a"), NaiveToken::str("1"), ObjEnd];
    let vdf = vdf_from_naive_tokens(&tokens).unwrap();
    assert_eq!(vdf.key, "");
    assert_eq!(vdf.to_string(), "\"\"\n{\n\t\"a\"\t\"1\"\n}\n");
}

#[test]
fn error_messages() {
    assert_eq!(DeError::Unsupported("Bytes").message(), "Tried using unsupported type: Bytes");
    assert_eq!(DeError::Message(String::from("custom")).message(), "custom");
    assert_eq!(DeError::TrailingTokens.message(), "Tokens remain after deserializing");
    assert_eq!(DeError::Parse(Error::EscapedParseError).message(), "Failed parsing VDF text");
    assert_eq!(DeError::from(Error::RawParseError), DeError::Parse(Error::RawParseError));
}

#[test]
fn parsed_strings_borrow_unless_escapes_were_read() {
    let text = r#""plain" { "a\"b" "c" unquoted x }"#;
    let vdf = Vdf::parse(text).unwrap();
    assert!(matches!(vdf.key, Cow::Borrowed("plain")));
    let entries = vdf.value.unwrap_obj().into_inner();
    assert!(matches!(&entries[0].0, Cow::Owned(k) if k == "a\"b"));
    assert!(matches!(&entries[0].1[0], keyvalues_parser::Value::Str(Cow::Borrowed("c"))));
    assert!(matches!(&entries[1].0, Cow::Borrowed("unquoted")));
    assert!(matches!(&entries[1].1[0], keyvalues_parser::Value::Str(Cow::Borrowed("x"))));

    let raw = Vdf::parse_raw(r#""k" "a\tb""#).unwrap();
    assert!(matches!(raw.value, keyvalues_parser::Value::Str(Cow::Borrowed("a\\tb"))));

    let bases = keyvalues_parser::PartialVdf::parse("#base other.vdf\nk v").unwrap().bases;
    assert!(matches!(&bases[0], Cow::Borrowed("other.vdf")));
}
