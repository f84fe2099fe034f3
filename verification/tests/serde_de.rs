//! Deserializing VDF text into Rust types, through a `serde` deserializer
//! that drives the library's token-level steps.

use std::borrow::Cow;
use std::collections::{BTreeMap, HashMap};
use std::fmt;
use std::marker::PhantomData;

use keyvalues_parser::de::{AnyKind, Deserializer, Error, ObjEater, SeqBuilder, SeqEater};
use keyvalues_parser::Token;
use serde::de::{
    self, DeserializeSeed, Deserialize, IgnoredAny, IntoDeserializer, MapAccess, SeqAccess,
    Visitor,
};

// ---------------------------------------------------------------------------
// The serde side of the deserializer
// ---------------------------------------------------------------------------

#[derive(Debug, PartialEq)]
enum TestError {
    Lib(Error),
    NonFiniteFloat(f32),
}

impl From<Error> for TestError {
    fn from(e: Error) -> Self {
        TestError::Lib(e)
    }
}

impl fmt::Display for TestError {
    fn fmt(&self, f: &mut fmt::Formatter<'_>) -> fmt::Result {
        f.write_str(&format!("{:?}", self))
    }
}

impl std::error::Error for TestError {}

impl de::Error for TestError {
    fn custom<T: fmt::Display>(msg: T) -> Self {
        TestError::Lib(Error::Message(msg.to_string()))
    }
}

type Result<T> = std::result::Result<T, TestError>;

struct De<'de> {
    tokens: Deserializer<'de>,
}

impl<'de> De<'de> {
    fn next_float(&mut self) -> Result<f32> {
        let s = self.tokens.next_key_or_str_else_eof()?;
        let float: f32 = s.parse().map_err(|_| TestError::Lib(Error::InvalidNumber))?;
        if float.is_finite() {
            Ok(float)
        } else {
            Err(TestError::NonFiniteFloat(float))
        }
    }
}

fn from_str<'de, T: Deserialize<'de>>(s: &'de str) -> Result<T> {
    let (tokens, _key) = Deserializer::new_with_key(s)?;
    let mut de = De { tokens };
    let t = T::deserialize(&mut de)?;
    de.tokens.finish()?;
    Ok(t)
}

impl<'de, 'a> de::Deserializer<'de> for &'a mut De<'de> {
    type Error = TestError;

    fn deserialize_any<V: Visitor<'de>>(self, visitor: V) -> Result<V::Value> {
        match self.tokens.peek_any() {
            Some(AnyKind::Object) => self.deserialize_map(visitor),
            Some(AnyKind::Sequence) => self.deserialize_seq(visitor),
            Some(AnyKind::Text) => self.deserialize_str(visitor),
            None if self.tokens.is_empty() => panic!("Tokenstream structure prevents premature end"),
            None => unreachable!("End is always consumed with a Begin"),
        }
    }

    fn deserialize_bool<V: Visitor<'de>>(self, visitor: V) -> Result<V::Value> {
        visitor.visit_bool(self.tokens.next_bool()?)
    }

    fn deserialize_i8<V: Visitor<'de>>(self, visitor: V) -> Result<V::Value> {
        visitor.visit_i8(self.tokens.next_i8()?)
    }

    fn deserialize_i16<V: Visitor<'de>>(self, visitor: V) -> Result<V::Value> {
        visitor.visit_i16(self.tokens.next_i16()?)
    }

    fn deserialize_i32<V: Visitor<'de>>(self, visitor: V) -> Result<V::Value> {
        visitor.visit_i32(self.tokens.next_i32()?)
    }

    fn deserialize_i64<V: Visitor<'de>>(self, visitor: V) -> Result<V::Value> {
        visitor.visit_i64(self.tokens.next_i64()?)
    }

    fn deserialize_u8<V: Visitor<'de>>(self, visitor: V) -> Result<V::Value> {
        visitor.visit_u8(self.tokens.next_u8()?)
    }

    fn deserialize_u16<V: Visitor<'de>>(self, visitor: V) -> Result<V::Value> {
        visitor.visit_u16(self.tokens.next_u16()?)
    }

    fn deserialize_u32<V: Visitor<'de>>(self, visitor: V) -> Result<V::Value> {
        visitor.visit_u32(self.tokens.next_u32()?)
    }

    fn deserialize_u64<V: Visitor<'de>>(self, visitor: V) -> Result<V::Value> {
        visitor.visit_u64(self.tokens.next_u64()?)
    }

    fn deserialize_f32<V: Visitor<'de>>(self, visitor: V) -> Result<V::Value> {
        let float = self.next_float()?;
        visitor.visit_f32(float)
    }

    fn deserialize_f64<V: Visitor<'de>>(self, visitor: V) -> Result<V::Value> {
        let float = self.next_float()?;
        visitor.visit_f64(f64::from(float))
    }

    fn deserialize_char<V: Visitor<'de>>(self, visitor: V) -> Result<V::Value> {
        visitor.visit_char(self.tokens.next_char()?)
    }

    fn deserialize_str<V: Visitor<'de>>(self, visitor: V) -> Result<V::Value> {
        match self.tokens.next_key_or_str_else_eof()? {
            // The borrowed content can be tied to the original text's lifetime
            Cow::Borrowed(borrowed) => visitor.visit_borrowed_str(borrowed),
            Cow::Owned(s) => visitor.visit_string(s),
        }
    }

    fn deserialize_string<V: Visitor<'de>>(self, visitor: V) -> Result<V::Value> {
        visitor.visit_string(self.tokens.next_key_or_str_else_eof()?.into_owned())
    }

    fn deserialize_bytes<V: Visitor<'de>>(self, _visitor: V) -> Result<V::Value> {
        Err(Error::Unsupported("Bytes").into())
    }

    fn deserialize_byte_buf<V: Visitor<'de>>(self, _visitor: V) -> Result<V::Value> {
        Err(Error::Unsupported("Byte Buf").into())
    }

    fn deserialize_option<V: Visitor<'de>>(self, visitor: V) -> Result<V::Value> {
        visitor.visit_some(self)
    }

    fn deserialize_unit<V: Visitor<'de>>(self, _visitor: V) -> Result<V::Value> {
        Err(Error::Unsupported("Unit").into())
    }

    fn deserialize_unit_struct<V: Visitor<'de>>(
        self,
        _name: &'static str,
        _visitor: V,
    ) -> Result<V::Value> {
        Err(Error::Unsupported("Unit Struct").into())
    }

    fn deserialize_newtype_struct<V: Visitor<'de>>(
        self,
        _name: &'static str,
        visitor: V,
    ) -> Result<V::Value> {
        visitor.visit_newtype_struct(self)
    }

    fn deserialize_seq<V: Visitor<'de>>(self, visitor: V) -> Result<V::Value> {
        let eater = SeqBuilder::new().try_build(&mut self.tokens)?;
        visitor.visit_seq(SeqEaterAccess { de: self, eater })
    }

    fn deserialize_tuple<V: Visitor<'de>>(self, len: usize, visitor: V) -> Result<V::Value> {
        let eater = SeqBuilder::new().length(len).try_build(&mut self.tokens)?;
        visitor.visit_seq(SeqEaterAccess { de: self, eater })
    }

    fn deserialize_tuple_struct<V: Visitor<'de>>(
        self,
        _name: &'static str,
        len: usize,
        visitor: V,
    ) -> Result<V::Value> {
        self.deserialize_tuple(len, visitor)
    }

    fn deserialize_map<V: Visitor<'de>>(self, visitor: V) -> Result<V::Value> {
        let eater = ObjEater::try_new(&mut self.tokens)?;
        visitor.visit_map(ObjEaterAccess { de: self, eater })
    }

    fn deserialize_struct<V: Visitor<'de>>(
        self,
        _name: &'static str,
        _fields: &'static [&'static str],
        visitor: V,
    ) -> Result<V::Value> {
        self.deserialize_map(visitor)
    }

    fn deserialize_enum<V: Visitor<'de>>(
        self,
        _name: &'static str,
        _variants: &'static [&'static str],
        visitor: V,
    ) -> Result<V::Value> {
        let variant = self.tokens.next_variant()?;
        visitor.visit_enum(variant.into_deserializer())
    }

    fn deserialize_identifier<V: Visitor<'de>>(self, visitor: V) -> Result<V::Value> {
        self.deserialize_str(visitor)
    }

    fn deserialize_ignored_any<V: Visitor<'de>>(self, visitor: V) -> Result<V::Value> {
        match self.tokens.peek_any() {
            Some(AnyKind::Text) => {
                self.tokens.next().expect("Token was peeked");
                visitor.visit_none()
            }
            Some(AnyKind::Object) => self.deserialize_map(visitor),
            Some(AnyKind::Sequence) => self.deserialize_seq(visitor),
            None if self.tokens.is_empty() => panic!("Tokenstream structure prevents premature end"),
            None => unreachable!("End is always consumed with a Begin"),
        }
    }
}

struct ObjEaterAccess<'a, 'de> {
    de: &'a mut De<'de>,
    eater: ObjEater,
}

impl<'de, 'a> MapAccess<'de> for ObjEaterAccess<'a, 'de> {
    type Error = TestError;

    fn next_key_seed<K: DeserializeSeed<'de>>(&mut self, seed: K) -> Result<Option<K::Value>> {
        if self.eater.next_key(&mut self.de.tokens)? {
            seed.deserialize(&mut *self.de).map(Some)
        } else {
            Ok(None)
        }
    }

    fn next_value_seed<V: DeserializeSeed<'de>>(&mut self, seed: V) -> Result<V::Value> {
        self.eater.next_value(&self.de.tokens)?;
        seed.deserialize(&mut *self.de)
    }
}

struct SeqEaterAccess<'a, 'de> {
    de: &'a mut De<'de>,
    eater: SeqEater,
}

impl<'de, 'a> SeqAccess<'de> for SeqEaterAccess<'a, 'de> {
    type Error = TestError;

    fn next_element_seed<T: DeserializeSeed<'de>>(&mut self, seed: T) -> Result<Option<T::Value>> {
        if let SeqEater::SetLength { remaining: 0 } = self.eater {
            if let Some(Token::ObjBegin) | Some(Token::Str(_)) = self.de.tokens.peek() {
                panic!("attempt to subtract with overflow");
            }
        }
        if self.eater.next_element(&mut self.de.tokens)? {
            let val = seed.deserialize(&mut *self.de)?;
            self.eater.element_done(&mut self.de.tokens)?;
            Ok(Some(val))
        } else {
            Ok(None)
        }
    }
}

// ---------------------------------------------------------------------------
// The types that the tests read, with their `Deserialize` written out
// ---------------------------------------------------------------------------

#[derive(Debug, PartialEq)]
struct Container<T> {
    inner: T,
}

impl<T> Container<T> {
    fn new(inner: T) -> Self {
        Self { inner }
    }
}

struct ContainerVisitor<T>(PhantomData<T>);

impl<'de, T: Deserialize<'de>> Visitor<'de> for ContainerVisitor<T> {
    type Value = Container<T>;

    fn expecting(&self, f: &mut fmt::Formatter) -> fmt::Result {
        f.write_str("struct Container")
    }

    fn visit_map<A: MapAccess<'de>>(self, mut map: A) -> std::result::Result<Self::Value, A::Error> {
        let mut inner = None;
        while let Some(key) = map.next_key::<String>()? {
            if key == "inner" {
                inner = Some(map.next_value()?);
            } else {
                map.next_value::<IgnoredAny>()?;
            }
        }
        match inner {
            Some(inner) => Ok(Container { inner }),
            None => T::deserialize(de::value::UnitDeserializer::<A::Error>::new())
                .map(|inner| Container { inner })
                .map_err(|_| <A::Error as de::Error>::missing_field("inner")),
        }
    }
}

impl<'de, T: Deserialize<'de>> Deserialize<'de> for Container<T> {
    fn deserialize<D: de::Deserializer<'de>>(d: D) -> std::result::Result<Self, D::Error> {
        d.deserialize_struct("Container", &["inner"], ContainerVisitor(PhantomData))
    }
}

/// A struct of two string fields, `field1` an `i32`.
#[derive(Debug, PartialEq)]
struct TestStruct {
    field1: i32,
    field2: String,
}

struct TestStructVisitor;

impl<'de> Visitor<'de> for TestStructVisitor {
    type Value = TestStruct;

    fn expecting(&self, f: &mut fmt::Formatter) -> fmt::Result {
        f.write_str("struct TestStruct")
    }

    fn visit_map<A: MapAccess<'de>>(self, mut map: A) -> std::result::Result<Self::Value, A::Error> {
        let mut field1 = None;
        let mut field2 = None;
        while let Some(key) = map.next_key::<String>()? {
            match key.as_str() {
                "field1" => field1 = Some(map.next_value()?),
                "field2" => field2 = Some(map.next_value()?),
                _ => {
                    map.next_value::<IgnoredAny>()?;
                }
            }
        }
        Ok(TestStruct {
            field1: field1.ok_or_else(|| <A::Error as de::Error>::missing_field("field1"))?,
            field2: field2.ok_or_else(|| <A::Error as de::Error>::missing_field("field2"))?,
        })
    }
}

impl<'de> Deserialize<'de> for TestStruct {
    fn deserialize<D: de::Deserializer<'de>>(d: D) -> std::result::Result<Self, D::Error> {
        d.deserialize_struct("TestStruct", &["field1", "field2"], TestStructVisitor)
    }
}

#[derive(Debug, PartialEq)]
struct BasicTypes {
    boolean: bool,
    character: char,
    signed8: i8,
    signed16: i16,
    signed32: i32,
    signed64: i64,
    unsigned8: u8,
    unsigned16: u16,
    unsigned32: u32,
    unsigned64: u64,
    float32: f32,
    float64: f64,
}

struct BasicTypesVisitor;

impl<'de> Visitor<'de> for BasicTypesVisitor {
    type Value = BasicTypes;

    fn expecting(&self, f: &mut fmt::Formatter) -> fmt::Result {
        f.write_str("struct BasicTypes")
    }

    fn visit_map<A: MapAccess<'de>>(self, mut map: A) -> std::result::Result<Self::Value, A::Error> {
        let mut boolean = None;
        let mut character = None;
        let mut signed8 = None;
        let mut signed16 = None;
        let mut signed32 = None;
        let mut signed64 = None;
        let mut unsigned8 = None;
        let mut unsigned16 = None;
        let mut unsigned32 = None;
        let mut unsigned64 = None;
        let mut float32 = None;
        let mut float64 = None;
        while let Some(key) = map.next_key::<String>()? {
            match key.as_str() {
                "boolean" => boolean = Some(map.next_value()?),
                "character" => character = Some(map.next_value()?),
                "signed8" => signed8 = Some(map.next_value()?),
                "signed16" => signed16 = Some(map.next_value()?),
                "signed32" => signed32 = Some(map.next_value()?),
                "signed64" => signed64 = Some(map.next_value()?),
                "unsigned8" => unsigned8 = Some(map.next_value()?),
                "unsigned16" => unsigned16 = Some(map.next_value()?),
                "unsigned32" => unsigned32 = Some(map.next_value()?),
                "unsigned64" => unsigned64 = Some(map.next_value()?),
                "float32" => float32 = Some(map.next_value()?),
                "float64" => float64 = Some(map.next_value()?),
                _ => {
                    map.next_value::<IgnoredAny>()?;
                }
            }
        }
        let miss = |f: &'static str| <A::Error as de::Error>::missing_field(f);
        Ok(BasicTypes {
            boolean: boolean.ok_or_else(|| miss("boolean"))?,
            character: character.ok_or_else(|| miss("character"))?,
            signed8: signed8.ok_or_else(|| miss("signed8"))?,
            signed16: signed16.ok_or_else(|| miss("signed16"))?,
            signed32: signed32.ok_or_else(|| miss("signed32"))?,
            signed64: signed64.ok_or_else(|| miss("signed64"))?,
            unsigned8: unsigned8.ok_or_else(|| miss("unsigned8"))?,
            unsigned16: unsigned16.ok_or_else(|| miss("unsigned16"))?,
            unsigned32: unsigned32.ok_or_else(|| miss("unsigned32"))?,
            unsigned64: unsigned64.ok_or_else(|| miss("unsigned64"))?,
            float32: float32.ok_or_else(|| miss("float32"))?,
            float64: float64.ok_or_else(|| miss("float64"))?,
        })
    }
}

impl<'de> Deserialize<'de> for BasicTypes {
    fn deserialize<D: de::Deserializer<'de>>(d: D) -> std::result::Result<Self, D::Error> {
        d.deserialize_struct("BasicTypes", &[], BasicTypesVisitor)
    }
}

/// A struct of one string field.
#[derive(Debug, PartialEq)]
struct InnerStruct {
    field: String,
}

struct InnerStructVisitor;

impl<'de> Visitor<'de> for InnerStructVisitor {
    type Value = InnerStruct;

    fn expecting(&self, f: &mut fmt::Formatter) -> fmt::Result {
        f.write_str("struct InnerStruct")
    }

    fn visit_map<A: MapAccess<'de>>(self, mut map: A) -> std::result::Result<Self::Value, A::Error> {
        let mut field = None;
        while let Some(key) = map.next_key::<String>()? {
            if key == "field" {
                field = Some(map.next_value()?);
            } else {
                map.next_value::<IgnoredAny>()?;
            }
        }
        Ok(InnerStruct {
            field: field.ok_or_else(|| <A::Error as de::Error>::missing_field("field"))?,
        })
    }
}

impl<'de> Deserialize<'de> for InnerStruct {
    fn deserialize<D: de::Deserializer<'de>>(d: D) -> std::result::Result<Self, D::Error> {
        d.deserialize_struct("InnerStruct", &["field"], InnerStructVisitor)
    }
}

#[derive(Debug, PartialEq)]
struct OuterStruct {
    field: String,
    inner1: InnerStruct,
    inner2: InnerStruct,
}

struct OuterStructVisitor;

impl<'de> Visitor<'de> for OuterStructVisitor {
    type Value = OuterStruct;

    fn expecting(&self, f: &mut fmt::Formatter) -> fmt::Result {
        f.write_str("struct OuterStruct")
    }

    fn visit_map<A: MapAccess<'de>>(self, mut map: A) -> std::result::Result<Self::Value, A::Error> {
        let mut field = None;
        let mut inner1 = None;
        let mut inner2 = None;
        while let Some(key) = map.next_key::<String>()? {
            match key.as_str() {
                "field" => field = Some(map.next_value()?),
                "inner1" => inner1 = Some(map.next_value()?),
                "inner2" => inner2 = Some(map.next_value()?),
                _ => {
                    map.next_value::<IgnoredAny>()?;
                }
            }
        }
        let miss = |f: &'static str| <A::Error as de::Error>::missing_field(f);
        Ok(OuterStruct {
            field: field.ok_or_else(|| miss("field"))?,
            inner1: inner1.ok_or_else(|| miss("inner1"))?,
            inner2: inner2.ok_or_else(|| miss("inner2"))?,
        })
    }
}

impl<'de> Deserialize<'de> for OuterStruct {
    fn deserialize<D: de::Deserializer<'de>>(d: D) -> std::result::Result<Self, D::Error> {
        d.deserialize_struct("OuterStruct", &["field", "inner1", "inner2"], OuterStructVisitor)
    }
}

#[derive(Debug, PartialEq)]
struct I32Wrapper(i32);

struct I32WrapperVisitor;

impl<'de> Visitor<'de> for I32WrapperVisitor {
    type Value = I32Wrapper;

    fn expecting(&self, f: &mut fmt::Formatter) -> fmt::Result {
        f.write_str("tuple struct I32Wrapper")
    }

    fn visit_newtype_struct<D: de::Deserializer<'de>>(
        self,
        d: D,
    ) -> std::result::Result<Self::Value, D::Error> {
        Ok(I32Wrapper(i32::deserialize(d)?))
    }
}

impl<'de> Deserialize<'de> for I32Wrapper {
    fn deserialize<D: de::Deserializer<'de>>(d: D) -> std::result::Result<Self, D::Error> {
        d.deserialize_newtype_struct("I32Wrapper", I32WrapperVisitor)
    }
}

/// An enum of unit variants, read from the name of a variant.
#[derive(Debug, PartialEq, Eq, PartialOrd, Ord, Clone, Copy)]
enum SampleEnum {
    Foo,
    Bar,
}

struct SampleEnumVisitor;

impl<'de> Visitor<'de> for SampleEnumVisitor {
    type Value = SampleEnum;

    fn expecting(&self, f: &mut fmt::Formatter) -> fmt::Result {
        f.write_str("enum SampleEnum")
    }

    fn visit_enum<A: de::EnumAccess<'de>>(self, data: A) -> std::result::Result<Self::Value, A::Error> {
        let (name, variant): (String, A::Variant) = data.variant()?;
        de::VariantAccess::unit_variant(variant)?;
        match name.as_str() {
            "Foo" => Ok(SampleEnum::Foo),
            "Bar" => Ok(SampleEnum::Bar),
            other => Err(<A::Error as de::Error>::unknown_variant(other, &["Foo", "Bar"])),
        }
    }
}

impl<'de> Deserialize<'de> for SampleEnum {
    fn deserialize<D: de::Deserializer<'de>>(d: D) -> std::result::Result<Self, D::Error> {
        d.deserialize_enum("SampleEnum", &["Foo", "Bar"], SampleEnumVisitor)
    }
}

#[derive(Debug, PartialEq)]
struct TupleStruct(bool, i32, String);

struct TupleStructVisitor;

impl<'de> Visitor<'de> for TupleStructVisitor {
    type Value = TupleStruct;

    fn expecting(&self, f: &mut fmt::Formatter) -> fmt::Result {
        f.write_str("tuple struct TupleStruct")
    }

    fn visit_seq<A: SeqAccess<'de>>(self, mut seq: A) -> std::result::Result<Self::Value, A::Error> {
        let a = seq
            .next_element()?
            .ok_or_else(|| <A::Error as de::Error>::invalid_length(0, &self))?;
        let b = seq
            .next_element()?
            .ok_or_else(|| <A::Error as de::Error>::invalid_length(1, &self))?;
        let c = seq
            .next_element()?
            .ok_or_else(|| <A::Error as de::Error>::invalid_length(2, &self))?;
        Ok(TupleStruct(a, b, c))
    }
}

impl<'de> Deserialize<'de> for TupleStruct {
    fn deserialize<D: de::Deserializer<'de>>(d: D) -> std::result::Result<Self, D::Error> {
        d.deserialize_tuple_struct("TupleStruct", 3, TupleStructVisitor)
    }
}

/// A struct with no fields.
#[derive(Debug, PartialEq, Eq, Clone, Copy)]
struct Empty {}

struct EmptyVisitor;

impl<'de> Visitor<'de> for EmptyVisitor {
    type Value = Empty;

    fn expecting(&self, f: &mut fmt::Formatter) -> fmt::Result {
        f.write_str("struct Empty")
    }

    fn visit_map<A: MapAccess<'de>>(self, mut map: A) -> std::result::Result<Self::Value, A::Error> {
        while map.next_key::<IgnoredAny>()?.is_some() {
            map.next_value::<IgnoredAny>()?;
        }
        Ok(Empty {})
    }
}

impl<'de> Deserialize<'de> for Empty {
    fn deserialize<D: de::Deserializer<'de>>(d: D) -> std::result::Result<Self, D::Error> {
        d.deserialize_struct("Empty", &[], EmptyVisitor)
    }
}

#[derive(Debug)]
struct Outer {
    enum_keys: BTreeMap<SampleEnum, Empty>,
}

struct OuterVisitor;

impl<'de> Visitor<'de> for OuterVisitor {
    type Value = Outer;

    fn expecting(&self, f: &mut fmt::Formatter) -> fmt::Result {
        f.write_str("struct Outer")
    }

    fn visit_map<A: MapAccess<'de>>(self, mut map: A) -> std::result::Result<Self::Value, A::Error> {
        let mut enum_keys = None;
        while let Some(key) = map.next_key::<String>()? {
            if key == "enum_keys" {
                enum_keys = Some(map.next_value()?);
            } else {
                map.next_value::<IgnoredAny>()?;
            }
        }
        Ok(Outer {
            enum_keys: enum_keys
                .ok_or_else(|| <A::Error as de::Error>::missing_field("enum_keys"))?,
        })
    }
}

impl<'de> Deserialize<'de> for Outer {
    fn deserialize<D: de::Deserializer<'de>>(d: D) -> std::result::Result<Self, D::Error> {
        d.deserialize_struct("Outer", &["enum_keys"], OuterVisitor)
    }
}

/// A unit struct.
#[derive(Debug)]
struct Unit;

struct UnitVisitor;

impl<'de> Visitor<'de> for UnitVisitor {
    type Value = Unit;

    fn expecting(&self, f: &mut fmt::Formatter) -> fmt::Result {
        f.write_str("unit struct Unit")
    }

    fn visit_unit<E: de::Error>(self) -> std::result::Result<Self::Value, E> {
        Ok(Unit)
    }
}

impl<'de> Deserialize<'de> for Unit {
    fn deserialize<D: de::Deserializer<'de>>(d: D) -> std::result::Result<Self, D::Error> {
        d.deserialize_unit_struct("Unit", UnitVisitor)
    }
}

// ---------------------------------------------------------------------------
// The tests
// ---------------------------------------------------------------------------

#[test]
fn de_basic_struct() {
    let s = r#"
"TestStruct"
{
    "field1" "-123"
    "field2" "Sample String"
}
        "#;

    let sample: TestStruct = from_str(s).unwrap();
    assert_eq!(
        sample,
        TestStruct {
            field1: -123,
            field2: String::from("Sample String")
        }
    )
}

#[test]
fn de_basic_types() {
    let s = r#"
"Key"
{
    "boolean" "0"
    "character" "a"
    "signed8" "1"
    "signed16" "2"
    "signed32" "3"
    "signed64" "4"
    "unsigned8" "5"
    "unsigned16" "6"
    "unsigned32" "7"
    "unsigned64" "8"
    "float32" "1.0"
    "float64" "2.0"
}
        "#;

    let sample: BasicTypes = from_str(s).unwrap();
    assert_eq!(
        sample,
        BasicTypes {
            boolean: false,
            character: 'a',
            signed8: 1,
            signed16: 2,
            signed32: 3,
            signed64: 4,
            unsigned8: 5,
            unsigned16: 6,
            unsigned32: 7,
            unsigned64: 8,
            float32: 1.0,
            float64: 2.0
        }
    );
}

#[test]
fn de_nested_structs() {
    let s = r#"
"OuterStruct"
{
    "field" "Outer Value"
    "inner1"
    {
        "field" "Inner1 Value"
    }
    "inner2"
    {
        "field" "Inner2 Value"
    }
}
        "#;

    let sample: OuterStruct = from_str(s).unwrap();
    assert_eq!(
        sample,
        OuterStruct {
            field: String::from("Outer Value"),
            inner1: InnerStruct {
                field: String::from("Inner1 Value"),
            },
            inner2: InnerStruct {
                field: String::from("Inner2 Value"),
            }
        },
    );
}

#[test]
fn de_newtype_struct() {
    let s = r#"
"Container"
{
    "inner" "123"
}
        "#;

    let sample: Container<I32Wrapper> = from_str(s).unwrap();
    assert_eq!(sample, Container::new(I32Wrapper(123)));
}

#[test]
fn de_unit_variant_enum() {
    let s = r#"
"Key"
{
    "inner" "Foo"
}
        "#;
    let sample: Container<SampleEnum> = from_str(s).unwrap();
    assert_eq!(sample, Container::new(SampleEnum::Foo));
}

#[test]
fn sequence() {
    let single_str = r#"
"Key"
{
    "inner"
    {
        "field" "Some String"
    }
}
        "#;

    let single: Container<Vec<InnerStruct>> = from_str(single_str).unwrap();
    assert_eq!(
        single,
        Container::new(vec![InnerStruct {
            field: String::from("Some String")
        }])
    );

    let double_str = r#"
"Key"
{
    "inner"
    {
        "field" "Some String"
    }
    "inner"
    {
        "field" "Another String"
    }
}
        "#;

    let double: Container<Vec<InnerStruct>> = from_str(double_str).unwrap();
    assert_eq!(
        double,
        Container::new(vec![
            InnerStruct {
                field: String::from("Some String")
            },
            InnerStruct {
                field: String::from("Another String")
            }
        ])
    );
}

#[test]
fn de_tuple() {
    let s = r#"
"Key"
{
    "inner" "1"
    "inner" "2"
    "inner" "Sample Text"
}
        "#;

    let sample: Container<(bool, i32, String)> = from_str(s).unwrap();
    assert_eq!(
        sample,
        Container::new((true, 2, String::from("Sample Text")))
    );
}

#[test]
fn de_tuple_struct() {
    let s = r#"
"Key"
{
    "inner" "1"
    "inner" "2"
    "inner" "Sample Text"
}
        "#;

    let sample: Container<TupleStruct> = from_str(s).unwrap();
    assert_eq!(
        sample,
        Container::new(TupleStruct(true, 2, String::from("Sample Text"),))
    )
}

#[test]
fn hashmap() {
    let nested = r#"
"Key"
{
    "inner"
    {
        "0" "Foo"
        "1" "Bar"
        "2" "Baz"
    }
}
        "#;

    let mut ideal = HashMap::new();
    ideal.insert(0, "Foo".to_owned());
    ideal.insert(1, "Bar".to_owned());
    ideal.insert(2, "Baz".to_owned());

    let sample: Container<HashMap<u64, String>> = from_str(nested).unwrap();
    assert_eq!(sample, Container::new(ideal.clone()));

    let top_level = r#"
"Key"
{
    "0" "Foo"
    "1" "Bar"
    "2" "Baz"
}
        "#;

    let sample: HashMap<u64, String> = from_str(top_level).unwrap();
    assert_eq!(sample, ideal);
}

#[test]
fn option() {
    let none_str = r#"
"Key"
{
}
        "#;

    let none: Container<Option<String>> = from_str(none_str).unwrap();
    assert_eq!(none, Container::new(None));

    let some_str = r#"
"Key"
{
    "inner" "Some value"
}
        "#;

    let some: Container<Option<String>> = from_str(some_str).unwrap();
    assert_eq!(some, Container::new(Some(String::from("Some value"))));
}

#[test]
fn parsing_obj_as_sequence() {
    let text = r#""Blah" {}"#;
    assert!(from_str::<Vec<String>>(text).is_err());
}

const ENUM_KEY: &str = r#"
Outer
{
    enum_keys
    {
        Foo {}
        Bar {}
    }
}
"#;

#[test]
fn enum_key() {
    let outer: Outer = from_str(ENUM_KEY).unwrap();
    let empty = Empty {};
    let expected = BTreeMap::from([(SampleEnum::Foo, empty), (SampleEnum::Bar, empty)]);
    assert_eq!(outer.enum_keys, expected);
}

// It doesn't matter what the input text is, just that we match most of the structure other than
// the invalid type
const DUMMY_TEXT: &str = r#"
"Container"
{
    "inner"    "dummy"
}
"#;

#[test]
fn bytes() {
    let bytes: Result<Container<&[u8]>> = from_str(DUMMY_TEXT);
    println!("{:?}", bytes);
    assert!(bytes.is_err());
    assert!(matches!(bytes, Err(TestError::Lib(Error::Unsupported("Bytes")))));
}

#[test]
fn unit() {
    let unit_type: Result<Container<()>> = from_str(DUMMY_TEXT);
    println!("{:?}", unit_type);
    assert!(unit_type.is_err());
    assert!(matches!(unit_type, Err(TestError::Lib(Error::Unsupported("Unit")))));
}

#[test]
fn unit_struct() {
    let unit_struct: Result<Container<Unit>> = from_str(DUMMY_TEXT);
    println!("{:?}", unit_struct);
    assert!(unit_struct.is_err());
    assert!(matches!(
        unit_struct,
        Err(TestError::Lib(Error::Unsupported("Unit Struct")))
    ));
}

#[test]
fn strings_without_escapes_are_borrowed() {
    let borrowed: Container<&str> = from_str(DUMMY_TEXT).unwrap();
    assert_eq!(borrowed, Container::new("dummy"));

    let escaped = "\"Container\" { \"inner\" \"tab\\tseparated\" }";
    assert!(from_str::<Container<&str>>(escaped).is_err());
    let owned: Container<String> = from_str(escaped).unwrap();
    assert_eq!(owned, Container::new(String::from("tab\tseparated")));
}
