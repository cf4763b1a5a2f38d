use strict_types::size::Size;
use strict_types::util::{check, Ident, InvalidIdent, MemberName, NameRule, Sizing};

#[test]
fn identifiers() {
    assert_eq!(Ident::try_from("Some_name1").unwrap().as_str(), "Some_name1");
    assert_eq!(Ident::try_from("a").unwrap().as_str(), "a");
    assert_eq!(Ident::try_from("").err(), Some(InvalidIdent::Confinement(0)));
    let long = "a".repeat(33);
    assert_eq!(Ident::try_from(&long).err(), Some(InvalidIdent::Confinement(33)));
    assert!(Ident::try_from(&"a".repeat(32)).is_ok());
    assert_eq!(Ident::try_from("1abc").err(), Some(InvalidIdent::NonAlphabetic('1')));
    assert_eq!(Ident::try_from("_abc").err(), Some(InvalidIdent::NonAlphabetic('_')));
    assert_eq!(Ident::try_from("ab-c d").err(), Some(InvalidIdent::InvalidChar('-')));
    assert_eq!(Ident::try_from("abç").err(), Some(InvalidIdent::NonAsciiChar));
}

#[test]
fn member_names() {
    assert_eq!(MemberName::try_from("_0").unwrap().as_str(), "_0");
    assert_eq!(MemberName::try_from("someField").unwrap().as_str(), "someField");
    assert_eq!(MemberName::try_from("Some").err(), Some(InvalidIdent::NonAlphabetic('S')));
    assert_eq!(MemberName::try_from(&"a".repeat(101)).err(), Some(InvalidIdent::Confinement(101)));
    assert!(MemberName::try_from(&"a".repeat(100)).is_ok());
    assert_eq!(check(NameRule::Member, "a b"), Err(InvalidIdent::InvalidChar(' ')));
    assert!(MemberName::try_from("none").unwrap().spells("none"));
}

#[test]
fn names_compare_by_spelling() {
    let a = Ident::try_from("Abc").unwrap();
    let b = Ident::try_from("Abc").unwrap();
    let c = Ident::try_from("Abd").unwrap();
    assert!(a.same(&b));
    assert!(!a.same(&c));
    assert!(a.clone().same(&a));
    let mut out = vec![9u8];
    a.encode_into(&mut out);
    assert_eq!(out, vec![9u8, 3, b'A', b'b', b'c']);
}

#[test]
fn sizing() {
    assert_eq!(Sizing::new(1, 7), Sizing { min: 1, max: 7 });
    assert_eq!(Sizing::u8(), Sizing { min: 0, max: 255 });
    assert_eq!(Sizing::u16(), Sizing { min: 0, max: 65535 });
    assert_eq!(Sizing::u8_nonempty(), Sizing { min: 1, max: 255 });
}

#[test]
fn sizes_add_up() {
    assert_eq!(Size::Fixed(3).add(Size::Fixed(4)), Size::Fixed(7));
    assert_eq!(Size::Fixed(3).add(Size::Variable), Size::Variable);
    assert_eq!(Size::Variable.add(Size::Fixed(3)), Size::Variable);
    assert_eq!(Size::Fixed(65535).checked_add(Size::Fixed(1)), None);
    assert_eq!(Size::Fixed(65534).checked_add(Size::Fixed(1)), Some(Size::Fixed(65535)));
    assert_eq!(Size::sum(&vec![]), Size::Fixed(0));
    assert_eq!(Size::sum(&vec![Size::Fixed(1), Size::Fixed(2), Size::Fixed(3)]), Size::Fixed(6));
    assert_eq!(
        Size::sum(&vec![Size::Fixed(1), Size::Variable, Size::Fixed(65535), Size::Fixed(65535)]),
        Size::Variable
    );
    assert_eq!(Size::checked_sum(&vec![Size::Fixed(65535), Size::Fixed(1), Size::Variable]), None);
    assert_eq!(Size::checked_sum(&vec![Size::Fixed(65535), Size::Variable, Size::Fixed(1)]), Some(Size::Variable));
    assert_eq!(Size::checked_sum(&vec![Size::Fixed(40000), Size::Fixed(25535)]), Some(Size::Fixed(65535)));
    let mut acc = Size::Fixed(1);
    acc.add_assign(Size::Fixed(2));
    assert_eq!(acc, Size::Fixed(3));
}

#[test]
fn sizes_are_ordered() {
    assert!(Size::Fixed(1) < Size::Fixed(2));
    assert!(Size::Fixed(65535) < Size::Variable);
    assert!(!(Size::Variable < Size::Variable));
    assert!(Size::Variable > Size::Fixed(0));
    assert!(Size::Fixed(1).below(Size::Variable));
    assert!(!Size::Variable.below(Size::Fixed(1)));
    assert_eq!(Size::Variable.max(Size::Fixed(9)), Size::Variable);
    assert_eq!(Size::Fixed(2).cmp(&Size::Fixed(2)), std::cmp::Ordering::Equal);
}
