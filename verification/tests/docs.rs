//! The examples that the documentation gives, on the library.

use std::borrow::Cow;
use keyvalues_parser::{Obj, Value, Vdf};

#[test]
fn parse_mutate_render() {
    let vdf_text = r#"
"Outer Key"
{
    "Inner Key" "Inner Value"
    "Inner Key"
    {
    }
}
"#;
    let mut parsed = Vdf::parse(vdf_text).unwrap();

    // Mutate: remove the last "Inner Key" pair
    parsed
        .value
        .get_mut_obj()
        .unwrap()
        .get_mut("Inner Key")
        .unwrap()
        .pop();

    assert_eq!(
        parsed.to_string(),
        "\"Outer Key\"\n{\n\t\"Inner Key\"\t\"Inner Value\"\n}\n"
    );
}

#[test]
fn update_a_version() {
    let mut mappings = Vdf::parse("\"controller_mappings\" { \"version\" \"2\" \"title\" \"t\" }").unwrap();
    let version = mappings
        .value
        .get_obj()
        .and_then(|obj| obj.get("version"))
        .and_then(|values| values.first())
        .and_then(|value| value.get_str());
    assert_eq!(version, Some(&Cow::from("2")));

    let slot = mappings
        .value
        .get_mut_obj()
        .unwrap()
        .get_mut("version")
        .unwrap()
        .get_mut(0)
        .unwrap()
        .get_mut_str()
        .unwrap();
    *slot = Cow::from("3");

    let version = mappings
        .value
        .get_obj()
        .and_then(|obj| obj.get("version"))
        .and_then(|values| values.first())
        .and_then(|value| value.get_str());
    assert_eq!(version, Some(&Cow::from("3")));
}

#[test]
fn first_key_of_login_users() {
    let login_users_vdf = r#"
"users"
{
    "12345678901234567"
    {
        "AccountName"        "ACCOUNT_NAME"
        "PersonaName"        "PERSONA_NAME"
        "RememberPassword"    "1"
        "MostRecent"        "1"
        "Timestamp"        "1234567890"
    }
}
"#;

    let vdf = Vdf::parse(login_users_vdf).unwrap();
    assert_eq!("12345678901234567", vdf.value.unwrap_obj().keys()[0]);
}

#[test]
fn object_keys_are_sorted() {
    let mut obj = Obj::new();
    obj.insert(Cow::from("key"), vec![]);
    obj.insert(Cow::from("earlier key"), vec![Value::Obj(Obj::default())]);

    assert_eq!(obj.keys(), ["earlier key", "key"]);
    assert_eq!(obj.len(), 2);
    assert!(obj.contains_key("key"));
    assert_eq!(obj.remove("key"), Some(vec![]));
    assert_eq!(obj.keys(), ["earlier key"]);
    assert_eq!(obj.remove("key"), None);
}

#[test]
fn into_vdfs_skips_empty_and_splits_multiple() {
    let mut obj = Obj::new();
    obj.insert(Cow::from("no values"), vec![]);
    obj.insert(
        Cow::from("multiple values"),
        vec![
            Value::Str(Cow::from("first")),
            Value::Str(Cow::from("second")),
        ],
    );

    let vdfs: Vec<_> = obj.into_vdfs().collect();
    assert_eq!(
        vdfs,
        [
            Vdf {
                key: Cow::from("multiple values"),
                value: Value::Str(Cow::from("first"))
            },
            Vdf {
                key: Cow::from("multiple values"),
                value: Value::Str(Cow::from("second"))
            },
        ]
    );
}

#[test]
fn value_accessors() {
    let value_str = Value::Str(Cow::from(""));
    assert!(value_str.is_str());
    assert!(!value_str.is_obj());
    assert_eq!(value_str.get_str(), Some(&Cow::from("")));
    assert!(value_str.get_obj().is_none());

    let mut value_obj = Value::Obj(Obj::new());
    assert!(value_obj.is_obj());
    assert!(value_obj.get_mut_str().is_none());
    value_obj
        .get_mut_obj()
        .unwrap()
        .insert(Cow::from("k"), vec![Value::Str(Cow::from("v"))]);
    assert_eq!(value_obj.clone().unwrap_obj().keys(), ["k"]);
    assert_eq!(value_obj.expect_obj("object").len(), 1);
    assert_eq!(value_str.unwrap_str(), "");
}

#[test]
fn value_renders_alone() {
    let mut obj = Obj::new();
    obj.insert(Cow::from("a"), vec![Value::Str(Cow::from("1"))]);
    assert_eq!(Value::Obj(obj).to_string(), "{\n\t\"a\"\t\"1\"\n}");
    assert_eq!(Value::Str(Cow::from("q\"")).to_string(), "\"q\\\"\"");
}

#[test]
fn pairs_come_out_in_key_order() {
    let obj = Obj::from_pairs(vec![
        (Cow::from("b"), vec![Value::Str(Cow::from("2"))]),
        (Cow::from("a"), vec![Value::Str(Cow::from("1")), Value::Str(Cow::from("1b"))]),
    ]);
    assert_eq!(obj.keys(), ["a", "b"]);
    let keys: Vec<String> = obj.into_vdfs().collect().iter().map(|v| v.key.to_string()).collect();
    assert_eq!(keys, ["a", "a", "b"]);
}
