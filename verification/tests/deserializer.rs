//! The token-level steps of deserializing, on concrete text.

use std::borrow::Cow;
use keyvalues_parser::de::{Deserializer, Error, ObjEater, SeqBuilder, SeqEater};
use keyvalues_parser::Token;

fn tokens_of(text: &str) -> Deserializer {
    Deserializer::from_str(text).unwrap()
}

#[test]
fn new_with_key_gives_the_top_level_key() {
    let (de, key) = Deserializer::new_with_key("\"Top\" \"v\"").unwrap();
    assert_eq!(key, "Top");
    assert_eq!(de.peek(), Some(&Token::Key(Cow::from("Top"))));
    assert!(matches!(
        Deserializer::new_with_key("\"Top"),
        Err(Error::Parse(keyvalues_parser::error::Error::EscapedParseError))
    ));
}

#[test]
fn integers_read_as_str_parse_reads_them() {
    let mut de = tokens_of(
        "k { a01 127 a02 128 a03 -128 a04 +5 a05 -0 a06 255 a07 256 a08 x a09 \"\" a10 - a11 18446744073709551615 a12 99999999999999999999999 }",
    );
    let obj = ObjEater::try_new(&mut de).unwrap();
    let next = |de: &mut Deserializer| {
        assert_eq!(obj.next_key(de), Ok(true));
        assert!(de.next_key_or_str().is_some());
        obj.next_value(de).unwrap();
    };
    next(&mut de);
    assert_eq!(de.next_i8(), Ok(127));
    next(&mut de);
    assert_eq!(de.next_i8(), Err(Error::InvalidNumber));
    next(&mut de);
    assert_eq!(de.next_i8(), Ok(-128));
    next(&mut de);
    assert_eq!(de.next_u8(), Ok(5));
    next(&mut de);
    assert_eq!(de.next_u8(), Err(Error::InvalidNumber));
    next(&mut de);
    assert_eq!(de.next_u8(), Ok(255));
    next(&mut de);
    assert_eq!(de.next_u8(), Err(Error::InvalidNumber));
    next(&mut de);
    assert_eq!(de.next_i32(), Err(Error::InvalidNumber));
    next(&mut de);
    assert_eq!(de.next_i64(), Err(Error::InvalidNumber));
    next(&mut de);
    assert_eq!(de.next_i16(), Err(Error::InvalidNumber));
    next(&mut de);
    assert_eq!(de.next_u64(), Ok(u64::MAX));
    next(&mut de);
    assert_eq!(de.next_u32(), Err(Error::InvalidNumber));
    assert_eq!(obj.next_key(&mut de), Ok(false));
    assert!(de.is_empty());
    assert_eq!(de.finish(), Ok(()));
    assert_eq!(de.next_i64(), Err(Error::EofWhileParsingKeyOrValue));
}

#[test]
fn booleans_and_chars() {
    let mut de = tokens_of("k { b1 1 b2 0 b3 2 b4 c b5 \"\" b6 cc }");
    ObjEater::try_new(&mut de).unwrap();
    let take_key = |de: &mut Deserializer| {
        de.next_key_or_str_else_eof().unwrap();
    };
    take_key(&mut de);
    assert_eq!(de.next_bool(), Ok(true));
    take_key(&mut de);
    assert_eq!(de.next_bool(), Ok(false));
    take_key(&mut de);
    assert_eq!(de.next_bool(), Err(Error::InvalidBoolean));
    take_key(&mut de);
    assert_eq!(de.next_char(), Ok('c'));
    take_key(&mut de);
    assert_eq!(de.next_char(), Err(Error::EofWhileParsingValue));
    take_key(&mut de);
    assert_eq!(de.next_char(), Err(Error::InvalidChar));
    assert_eq!(de.next_bool(), Err(Error::EofWhileParsingKeyOrValue));
    assert_eq!(de.next(), Some(Token::ObjEnd));
    assert_eq!(de.next(), None);
}

#[test]
fn objects_open_after_keys() {
    let mut de = tokens_of("k v");
    assert_eq!(ObjEater::try_new(&mut de).err(), Some(Error::ExpectedObjectStart));
    assert!(de.is_empty());

    let mut de = tokens_of("k { a { } }");
    let obj = ObjEater::try_new(&mut de).unwrap();
    assert_eq!(obj.next_key(&mut de), Ok(true));
    assert_eq!(de.next_variant(), Ok(Cow::from("a")));
    assert_eq!(obj.next_value(&de), Ok(()));
    assert!(de.peek_is_value());
    let inner = ObjEater::try_new(&mut de).unwrap();
    assert_eq!(inner.next_key(&mut de), Ok(false));
    assert_eq!(obj.next_key(&mut de), Ok(false));
    assert_eq!(obj.next_key(&mut de), Err(Error::EofWhileParsingObject));
    assert_eq!(ObjEater::try_new(&mut de).err(), Some(Error::EofWhileParsingObject));
}

#[test]
fn sequences_of_set_and_any_length() {
    // one value stands for a sequence of one
    let mut de = tokens_of("k { a x }");
    ObjEater::try_new(&mut de).unwrap();
    de.next();
    let mut seq = SeqBuilder::new().try_build(&mut de).unwrap();
    assert_eq!(seq.next_element(&mut de), Ok(true));
    assert_eq!(de.next_key_or_str(), Some(Cow::from("x")));
    assert_eq!(seq.element_done(&mut de), Ok(()));
    assert_eq!(seq.next_element(&mut de), Ok(false));

    // several values under one key form a marked sequence
    let mut de = tokens_of("k { a x a y }");
    ObjEater::try_new(&mut de).unwrap();
    de.next();
    assert!(matches!(
        SeqBuilder::new().length(1).try_build(&mut de),
        Err(Error::TrailingTokens)
    ));
    let mut seq = SeqBuilder::new().length(2).try_build(&mut de).unwrap();
    assert!(matches!(seq, SeqEater::SetLength { remaining: 2 }));
    for expected in ["x", "y"] {
        assert_eq!(seq.next_element(&mut de), Ok(true));
        assert_eq!(de.next_key_or_str(), Some(Cow::from(expected)));
        assert_eq!(seq.element_done(&mut de), Ok(()));
    }
    assert_eq!(de.next(), Some(Token::ObjEnd));

    let mut de = tokens_of("k { a x a y }");
    ObjEater::try_new(&mut de).unwrap();
    de.next();
    let mut seq = SeqBuilder::new().length(3).try_build(&mut de).unwrap();
    for _ in 0..2 {
        assert_eq!(seq.next_element(&mut de), Ok(true));
        de.next();
        assert_eq!(seq.element_done(&mut de), Ok(()));
    }
    assert_eq!(seq.next_element(&mut de), Err(Error::UnexpectedEndOfSequence));

    let mut de = tokens_of("k { a x a y }");
    ObjEater::try_new(&mut de).unwrap();
    de.next();
    let mut seq = SeqBuilder::new().try_build(&mut de).unwrap();
    assert!(matches!(seq, SeqEater::VariableLength));
    assert_eq!(seq.next_element(&mut de), Ok(true));
    de.next();
    assert_eq!(seq.next_element(&mut de), Ok(true));
    de.next();
    assert_eq!(seq.next_element(&mut de), Ok(false));
    assert_eq!(de.next(), Some(Token::ObjEnd));
}

#[test]
fn sequences_that_end_early_or_late() {
    let mut de = tokens_of("k { a x a y }");
    ObjEater::try_new(&mut de).unwrap();
    de.next();
    let seq = SeqBuilder::new().length(0).try_build(&mut de).unwrap();
    assert_eq!(seq.element_done(&mut de), Err(Error::TrailingTokens));

    let mut de = tokens_of("k { }");
    ObjEater::try_new(&mut de).unwrap();
    assert!(matches!(SeqBuilder::new().try_build(&mut de), Err(Error::ExpectedSomeValue)));
    let mut single = SeqEater::new_single_value();
    assert_eq!(single.next_element(&mut de), Err(Error::ExpectedSomeValue));
    assert_eq!(single.next_element(&mut de), Ok(false));
    de.next();
    let mut single = SeqEater::new_single_value();
    assert_eq!(single.next_element(&mut de), Err(Error::EofWhileParsingSequence));
}
