//! Concrete instances of the laws that the library proves.

use std::borrow::Cow;
use std::convert::TryFrom;

use keyvalues_parser::ser::vdf_from_naive_tokens;
use keyvalues_parser::{NaiveTokenStream, Obj, OwnedVdf, PartialVdf, TokenStream, Value, Vdf};

fn sample_vdf() -> Vdf<'static> {
    let mut inner = Obj::new();
    inner.insert(Cow::from("z key"), vec![Value::Str(Cow::from("tab\there"))]);
    inner.insert(Cow::from("empty"), vec![Value::Obj(Obj::new())]);
    let mut outer = Obj::new();
    outer.insert(
        Cow::from("seq"),
        vec![
            Value::Str(Cow::from("first \"quoted\"")),
            Value::Obj(inner),
            Value::Str(Cow::from("back\\slash")),
        ],
    );
    outer.insert(Cow::from("alone"), vec![Value::Str(Cow::from("line\nbreak"))]);
    Vdf::new(Cow::from("Outer Key"), Value::Obj(outer))
}

#[test]
fn render_then_parse_gives_back_the_pair() {
    let vdf = sample_vdf();
    let text = vdf.to_string();
    let parsed = PartialVdf::parse(&text).unwrap();
    assert_eq!(parsed.key, vdf.key);
    assert_eq!(parsed.value, vdf.value);
    assert!(parsed.bases.is_empty());
    assert_eq!(Vdf::parse(&text), Ok(vdf));
}

#[test]
fn parse_render_parse_gives_back_the_parse() {
    let text = r#"
#base "other.vdf"
// a comment
"Key"
{
    "b" "2"
    "a" "1"
    "b" { "inner" "x" }
    unquoted value
}
"#;
    let first = Vdf::parse(text).unwrap();
    let rendered = first.to_string();
    let again = Vdf::parse(&rendered).unwrap();
    assert_eq!(first, again);
}

#[test]
fn parsed_objects_are_sorted_and_merged() {
    let vdf = Vdf::parse("k { b 1 a 2 b 3 }").unwrap();
    let obj = vdf.value.unwrap_obj();
    let entries = obj.into_inner();
    assert_eq!(
        entries,
        vec![
            (Cow::from("a"), vec![Value::Str(Cow::from("2"))]),
            (
                Cow::from("b"),
                vec![Value::Str(Cow::from("1")), Value::Str(Cow::from("3"))]
            ),
        ]
    );
}

#[test]
fn naive_tokens_give_back_vdf() {
    let vdf = sample_vdf();
    let naive = NaiveTokenStream::from(TokenStream::from(vdf.clone()));
    assert_eq!(Vdf::try_from(&naive), Ok(vdf));
}

#[test]
fn naive_tokens_give_back_token_stream() {
    let tokens = TokenStream::from(sample_vdf());
    let naive = NaiveTokenStream::from(tokens.clone());
    assert_eq!(TokenStream::try_from(&naive), Ok(tokens));
}

#[test]
fn naive_tokens_with_no_values_give_back_token_stream() {
    let mut obj = Obj::new();
    obj.insert(Cow::from("nothing"), Vec::new());
    let tokens = TokenStream::from(Vdf::new(Cow::from("k"), Value::Obj(obj)));
    let naive = NaiveTokenStream::from(tokens.clone());
    assert_eq!(TokenStream::try_from(&naive), Ok(tokens));
}

#[test]
fn serialized_tokens_give_back_vdf() {
    let vdf = sample_vdf();
    let naive = NaiveTokenStream::from(TokenStream::from(vdf.clone()));
    assert_eq!(vdf_from_naive_tokens(&naive.0), Ok(vdf));
}

#[test]
fn owned_parse_matches_parse() {
    let text = "\"k\" { \"a\" \"1\" \"a\" { } }";
    let vdf = Vdf::parse(text).unwrap();
    let owned = OwnedVdf::parse(text).unwrap();
    assert_eq!(owned, OwnedVdf::from(&vdf));
    assert_eq!(owned.clone(), owned);
    assert_eq!(owned.key, "k");
    let obj = owned.value.get_obj().unwrap();
    assert_eq!(obj.len(), 1);
    assert_eq!(obj[0].0, "a");
    assert_eq!(obj[0].1.len(), 2);
    assert!(obj[0].1[0].is_str());
    assert!(obj[0].1[1].is_obj());
}

#[test]
fn into_vdfs_hands_out_each_value_in_order() {
    let vdf = sample_vdf();
    let obj = vdf.value.unwrap_obj();
    let vdfs = obj.into_vdfs().collect();
    let keys: Vec<&str> = vdfs.iter().map(|v| v.key.as_ref()).collect();
    assert_eq!(keys, vec!["alone", "seq", "seq", "seq"]);
    assert_eq!(vdfs[1].value, Value::Str(Cow::from("first \"quoted\"")));
    assert_eq!(vdfs[3].value, Value::Str(Cow::from("back\\slash")));
}
