use amplify::num::{i1024, u1024};
use strict_types::util::MemberName;
use strict_types::value::{EnumTag, StrictNum, StrictVal};

#[test]
fn construct() {
    StrictVal::num(StrictNum::from(1u8));
    StrictVal::str("some");
    StrictVal::none();
    StrictVal::some(StrictVal::from("val"));
    StrictVal::tuple(vec![
        StrictVal::from(1),
        StrictVal::from("some"),
        StrictVal::some(StrictVal::from("val")),
    ]);
    StrictVal::list(vec![StrictVal::from(1), StrictVal::from(2), StrictVal::from(3)]);
    StrictVal::list(vec![StrictVal::from("a"), StrictVal::from("b"), StrictVal::from("c")]);
    let strct = StrictVal::struc(vec![
        ("name", StrictVal::from("Some name")),
        ("ticker", StrictVal::from("TICK")),
        ("precision", StrictVal::from(8u8)),
    ]);
    assert_eq!(
        format!("{strct:?}"),
        r#"Struct({FieldName("name"): String("Some name"), FieldName("ticker"): String("TICK"), FieldName("precision"): Number(Uint(8))})"#
    )
}

#[test]
fn struct_keeps_first_place_and_last_value() {
    let strct = StrictVal::struc(vec![
        ("a", StrictVal::from(1u8)),
        ("b", StrictVal::from(2u8)),
        ("a", StrictVal::from(3u8)),
    ]);
    assert_eq!(
        format!("{strct:?}"),
        r#"Struct({FieldName("a"): Number(Uint(3)), FieldName("b"): Number(Uint(2))})"#
    );
    assert_eq!(strct.unwrap_struct("a"), &StrictVal::from(3u8));
    assert_eq!(strct.unwrap_struct("b"), &StrictVal::from(2u8));
}

#[test]
fn struct_equality_ignores_order() {
    let one = StrictVal::struc(vec![("a", StrictVal::from(1u8)), ("b", StrictVal::from(2u8))]);
    let two = StrictVal::struc(vec![("b", StrictVal::from(2u8)), ("a", StrictVal::from(1u8))]);
    let three = StrictVal::struc(vec![("a", StrictVal::from(1u8)), ("b", StrictVal::from(3u8))]);
    assert!(one == two);
    assert!(one != three);
}

#[test]
fn numbers_from_integers() {
    assert_eq!(StrictNum::from(200u8), StrictNum::Uint(200));
    assert_eq!(StrictNum::from(u128::MAX), StrictNum::Uint(u128::MAX));
    assert_eq!(StrictNum::from(-5i16), StrictNum::Int(-5));
    assert_eq!(StrictVal::from(7u64), StrictVal::Number(StrictNum::Uint(7)));
    assert_eq!(StrictVal::from(1), StrictVal::Number(StrictNum::Int(1)));
}

#[test]
fn unwrap_uint_converts() {
    let v = StrictVal::newtype(StrictVal::from(300u32));
    let n: u16 = v.unwrap_uint();
    assert_eq!(n, 300);
    let m: u64 = StrictNum::Uint(5).unwrap_uint();
    assert_eq!(m, 5);
}

#[test]
fn skip_wrapper_goes_through_newtypes() {
    let inner = StrictVal::from("x");
    let wrapped = StrictVal::newtype(StrictVal::newtype(StrictVal::from("x")));
    assert_eq!(wrapped.skip_wrapper(), &inner);
    let pair = StrictVal::tuple(vec![StrictVal::from(1u8), StrictVal::from(2u8)]);
    assert_eq!(pair.skip_wrapper(), &pair);
    assert_eq!(pair.unwrap_tuple(1), &StrictVal::from(2u8));
}

#[test]
fn options() {
    assert_eq!(StrictVal::none().unwrap_option(), None);
    let some = StrictVal::some(StrictVal::from(9u8));
    assert_eq!(some.unwrap_option(), Some(&StrictVal::from(9u8)));
    // a union of the variant 0 with something else than the unit is no absent value
    let odd = StrictVal::union(EnumTag::Ord(1), StrictVal::Unit);
    assert_eq!(odd.unwrap_option(), Some(&StrictVal::Unit));
    let named = StrictVal::union(
        EnumTag::Name(MemberName::try_from("some").unwrap()),
        StrictVal::from(1u8),
    );
    assert!(matches!(named.unwrap_union().0, EnumTag::Name(_)));
}

#[test]
fn booleans_and_enums() {
    assert_eq!(StrictVal::bool(true), StrictVal::Enum(EnumTag::Ord(1)));
    assert_eq!(StrictVal::bool(false), StrictVal::Enum(EnumTag::Ord(0)));
    assert_eq!(StrictVal::enumer(EnumTag::Ord(4)).unwrap_enum_tag().unwrap_ord(), 4);
}

#[test]
fn collections() {
    let list = StrictVal::list(vec![StrictVal::from(1u8), StrictVal::from(2u8)]);
    assert_eq!(list.unwrap_pos(1), &StrictVal::from(2u8));
    let set = StrictVal::set(vec![StrictVal::from("a")]);
    assert_eq!(set.unwrap_pos(0), &StrictVal::from("a"));
    let map = StrictVal::map(vec![
        (StrictVal::from("k1"), StrictVal::from(1u8)),
        (StrictVal::from("k2"), StrictVal::from(2u8)),
        (StrictVal::from("k1"), StrictVal::from(3u8)),
    ]);
    assert_eq!(map.unwrap_key(&StrictVal::from("k2")), &StrictVal::from(2u8));
    assert_eq!(map.unwrap_key(&StrictVal::from("k1")), &StrictVal::from(1u8));
    assert_eq!(StrictVal::bytes(&[1, 2, 3]).unwrap_bytes(), &vec![1u8, 2, 3]);
}

#[test]
fn structures_are_the_same_whatever_the_order_of_their_fields() {
    let empty = StrictVal::struc(vec![]);
    assert_eq!(empty, StrictVal::struc(vec![]));
    let one = StrictVal::struc(vec![("a", StrictVal::from(1u8)), ("b", StrictVal::from("x"))]);
    let other = StrictVal::struc(vec![("b", StrictVal::from("x")), ("a", StrictVal::from(1u8))]);
    assert_eq!(one, other);
    assert!(one.same(&other));
    let differs = StrictVal::struc(vec![("a", StrictVal::from(2u8)), ("b", StrictVal::from("x"))]);
    assert_ne!(one, differs);
    let shorter = StrictVal::struc(vec![("a", StrictVal::from(1u8))]);
    assert_ne!(one, shorter);
    assert_ne!(shorter, one);
    let renamed = StrictVal::struc(vec![("a", StrictVal::from(1u8)), ("c", StrictVal::from("x"))]);
    assert_ne!(one, renamed);
    assert_ne!(empty, shorter);
}

#[test]
fn a_field_is_had_only_where_it_is() {
    let strct = StrictVal::struc(vec![("a", StrictVal::from(1u8)), ("b", StrictVal::from(2u8))]);
    assert_eq!(strct.try_unwrap_struct("a"), Some(&StrictVal::from(1u8)));
    assert_eq!(strct.try_unwrap_struct("b"), Some(&StrictVal::from(2u8)));
    assert_eq!(strct.try_unwrap_struct("c"), None);
    assert_eq!(strct.try_unwrap_struct("not a name"), None);
    assert_eq!(strct.try_unwrap_struct(""), None);
    assert_eq!(StrictVal::from(1u8).try_unwrap_struct("a"), None);
    // a tuple of one member is looked through
    let wrapped = StrictVal::tuple(vec![StrictVal::struc(vec![("a", StrictVal::from(7u8))])]);
    assert_eq!(wrapped.try_unwrap_struct("a"), Some(&StrictVal::from(7u8)));
}

#[test]
fn a_text_is_had_only_where_the_value_holds_one() {
    assert_eq!(StrictVal::from("some").try_unwrap_string(), Some("some".to_string()));
    assert_eq!(StrictVal::bytes("grüß".as_bytes()).try_unwrap_string(), Some("grüß".to_string()));
    assert_eq!(StrictVal::bytes(&[0xff, 0xfe]).try_unwrap_string(), None);
    assert_eq!(StrictVal::list(vec![]).try_unwrap_string(), Some(String::new()));
    let chars = StrictVal::list(vec![
        StrictVal::enumer(EnumTag::Ord(b'a')),
        StrictVal::enumer(EnumTag::Ord(b'b')),
    ]);
    assert_eq!(chars.try_unwrap_string(), Some("ab".to_string()));
    assert_eq!(chars.unwrap_string(), "ab");
    let broken = StrictVal::list(vec![StrictVal::enumer(EnumTag::Ord(0xc3))]);
    assert_eq!(broken.try_unwrap_string(), None);
    let numbers = StrictVal::list(vec![StrictVal::from(1u8)]);
    assert_eq!(numbers.try_unwrap_string(), None);
    let named = StrictVal::list(vec![StrictVal::enumer(EnumTag::Name(MemberName::try_from("a").unwrap()))]);
    assert_eq!(named.try_unwrap_string(), None);
    assert_eq!(StrictVal::from(1u8).try_unwrap_string(), None);
    assert_eq!(StrictVal::from(()).try_unwrap_string(), None);
}

#[test]
fn an_option_becomes_an_optional_value() {
    assert_eq!(StrictVal::from(None), StrictVal::none());
    assert_eq!(StrictVal::from(Some(StrictVal::from("val"))), StrictVal::some(StrictVal::from("val")));
    assert_eq!(StrictVal::from(Some(StrictVal::from(1u8))).unwrap_option(), Some(&StrictVal::from(1u8)));
    assert_eq!(StrictVal::from(None).unwrap_option(), None);
}

#[test]
fn a_copy_is_the_same_value() {
    let value = StrictVal::tuple(vec![
        StrictVal::from(1u8),
        StrictVal::from(-5i64),
        StrictVal::from("some"),
        StrictVal::bytes(&[1, 2, 3]),
        StrictVal::some(StrictVal::from("val")),
        StrictVal::none(),
        StrictVal::struc(vec![
            ("name", StrictVal::from("Some name")),
            ("inner", StrictVal::struc(vec![("x", StrictVal::from(1u8))])),
        ]),
        StrictVal::enumer(EnumTag::Name(MemberName::try_from("red").unwrap())),
        StrictVal::list(vec![StrictVal::from(1u8), StrictVal::from(2u8)]),
        StrictVal::set(vec![StrictVal::from(3u8)]),
        StrictVal::map(vec![(StrictVal::from("k"), StrictVal::from(4u8))]),
        StrictVal::from(()),
    ]);
    let copy = value.clone();
    assert_eq!(copy, value);
    assert_eq!(format!("{copy:?}"), format!("{value:?}"));
    assert_eq!(StrictVal::from(&value), value);
    assert_eq!(value.duplicate(), value);
    assert_ne!(copy, StrictVal::tuple(vec![]));
}

#[test]
fn big_numbers_are_held_as_they_come() {
    let mut words = [0u64; 16];
    words[15] = 1;
    let big = u1024::from_inner(words);
    let num = StrictNum::from(big);
    assert_eq!(num, StrictNum::BigUint(big));
    assert_ne!(num, StrictNum::BigUint(u1024::from_inner([0u64; 16])));
    assert_ne!(num, StrictNum::Uint(0));
    let signed = StrictNum::from(i1024::from_inner(words));
    assert_eq!(signed, StrictNum::BigInt(i1024::from_inner(words)));
    let value = StrictVal::num(num);
    assert_eq!(value, StrictVal::num(StrictNum::BigUint(big)));
    assert!(value.same(&StrictVal::num(num)));
    assert!(!value.same(&StrictVal::num(signed)));
    assert!(!value.same(&StrictVal::num(StrictNum::BigUint(u1024::from_inner([0u64; 16])))));
    assert!(StrictVal::num(signed).same(&StrictVal::num(signed)));
    assert!(!StrictVal::num(signed).same(&StrictVal::num(StrictNum::BigInt(i1024::from_inner([0u64; 16])))));
    assert_eq!(value.clone(), value);
    assert_eq!(value.unwrap_num(), &num);
}
