use strict_types::builder::SystemBuilder;
use strict_types::codec::{read_ids, read_name, read_sizing, read_ty, read_u16, read_u24, DecodeError};
use strict_types::id::SemId;
use strict_types::typelib::LibBuilder;
use strict_types::stl::{std_stl, strict_types_stl};
use strict_types::ty::{Alternative, Field, Ty, Variant};
use strict_types::typesys::TypeSystem;
use strict_types::util::{Ident, MemberName, Sizing};

fn member(s: &str) -> MemberName { MemberName::try_from(s).unwrap() }

fn samples() -> Vec<Ty<SemId>> {
    let a = SemId::from_byte_array([0xA1; 32]);
    let b = SemId::from_byte_array([0xB2; 32]);
    vec![
        Ty::Primitive(0),
        Ty::Primitive(255),
        Ty::Enum(vec![]),
        Ty::Enum(vec![Variant { name: member("_0"), tag: 0 }, Variant { name: member("one"), tag: 1 }]),
        Ty::Union(vec![
            Alternative { name: member("none"), tag: 0, ty: a },
            Alternative { name: member("some"), tag: 1, ty: b },
        ]),
        Ty::Tuple(vec![a, b, a]),
        Ty::Tuple(vec![a; 255]),
        Ty::Struct(vec![Field { name: member("x"), ty: a }, Field { name: member(&"y".repeat(100)), ty: b }]),
        Ty::Array(a, 0xBEEF),
        Ty::List(a, Sizing::new(1, 0x1234)),
        Ty::SetOf(b, Sizing::u8()),
        Ty::MapOf(a, b, Sizing::u16()),
        Ty::Optional(b),
    ]
}

#[test]
fn types_read_back_as_written() {
    for ty in samples() {
        let bytes = ty.encode().unwrap();
        let (back, next) = read_ty(&bytes, 0).unwrap();
        assert!(back.same(&ty), "{ty:?}");
        assert_eq!(next, bytes.len());
        // what follows is left alone, what comes before is skipped
        let mut framed = vec![0xEE, 0xEE, 0xEE];
        framed.extend_from_slice(&bytes);
        framed.extend_from_slice(&[1, 2, 3]);
        let (back, next) = read_ty(&framed, 3).unwrap();
        assert!(back.same(&ty));
        assert_eq!(next, 3 + bytes.len());
        // cut short, nothing is read
        for cut in 0..bytes.len() {
            assert!(read_ty(&bytes[..cut], 0).is_none(), "{ty:?} cut at {cut}");
        }
    }
}

#[test]
fn unknown_kinds_and_bad_names_are_not_read() {
    assert!(read_ty(&[10, 0], 0).is_none());
    assert!(read_ty(&[255, 0, 0, 0], 0).is_none());
    // an enumeration with a variant named `A`, which is no name for variants
    assert!(read_ty(&[1, 1, 1, b'A', 0], 0).is_none());
    assert!(read_ty(&[1, 1, 1, b'a', 0], 0).is_some());
    // an empty name
    assert!(read_ty(&[1, 1, 0, 0], 0).is_none());
    // a name that is not ASCII
    assert!(read_ty(&[1, 1, 2, 0xC3, 0xA9, 0], 0).is_none());
    assert!(read_name(&[3, b'a', b'-', b'b'], 0).is_none());
    assert_eq!(read_name(&[9, 3, b'a', b'_', b'1', 7], 1).map(|(n, at)| (n.as_str().to_string(), at)), Some(("a_1".to_string(), 5)));
}

#[test]
fn numbers_read_back() {
    assert_eq!(read_u16(&[0x34, 0x12], 0), Some((0x1234, 2)));
    assert_eq!(read_u16(&[0x34], 0), None);
    assert_eq!(read_u16(&[0, 0xFF, 0xFF], 1), Some((0xFFFF, 3)));
    assert_eq!(read_u24(&[0x56, 0x34, 0x12], 0), Some((0x123456, 3)));
    assert_eq!(read_u24(&[0xFF, 0xFF, 0xFF, 0], 0), Some((0xFFFFFF, 3)));
    assert_eq!(read_u24(&[1, 2], 0), None);
    assert_eq!(read_sizing(&[1, 0, 0xFF, 0], 0), Some((Sizing::u8_nonempty(), 4)));
    assert_eq!(read_sizing(&[1, 0, 0xFF], 0), None);
    let mut two = vec![7u8; 32];
    two.extend_from_slice(&[8u8; 32]);
    let (ids, next) = read_ids(&two, 0, 2).unwrap();
    assert_eq!(ids, vec![SemId::from_byte_array([7; 32]), SemId::from_byte_array([8; 32])]);
    assert_eq!(next, 64);
    assert!(read_ids(&two, 0, 3).is_none());
    assert_eq!(read_ids(&two, 64, 0), Some((vec![], 64)));
}

#[test]
fn systems_read_back_as_written() {
    let std = std_stl().unwrap();
    let own = strict_types_stl().unwrap();
    let sys = SystemBuilder::new().import(&own).unwrap().import(&std).unwrap().finalize().unwrap();
    let bytes = sys.serialize().unwrap();
    let back = TypeSystem::deserialize(&bytes).unwrap();
    assert_eq!(back.id(), sys.id());
    assert_eq!(back.ids(), sys.ids());
    assert_eq!(back.libs(), sys.libs());
    assert_eq!(back.count_types(), sys.count_types());
    for id in sys.ids() {
        assert!(back.index(id).same(sys.index(id)));
    }
    assert_eq!(back.to_string(), sys.to_string());
    assert_eq!(back.serialize().unwrap(), bytes);
    assert!(back.dangling_refs().is_empty());
    // the empty system
    let empty = TypeSystem::deserialize(&[0; 5]).unwrap();
    assert_eq!(empty.count_types(), 0);
    assert_eq!(empty.id(), TypeSystem::new().id());
}

#[test]
fn bytes_that_are_no_system_are_refused() {
    let std = std_stl().unwrap();
    let sys = SystemBuilder::new().import(&std).unwrap().finalize().unwrap();
    let bytes = sys.serialize().unwrap();
    assert!(TypeSystem::deserialize(&bytes).is_ok());
    // cut anywhere
    for cut in [0usize, 1, 2, 33, 34, 36, 37, 40, 69, bytes.len() - 1] {
        assert_eq!(TypeSystem::deserialize(&bytes[..cut]).err(), Some(DecodeError::Malformed), "{cut}");
    }
    // a byte too many
    let mut longer = bytes.clone();
    longer.push(0);
    assert_eq!(TypeSystem::deserialize(&longer).err(), Some(DecodeError::Malformed));
    // a count too high
    let mut more = bytes.clone();
    more[34] += 1;
    assert_eq!(TypeSystem::deserialize(&more).err(), Some(DecodeError::Malformed));
}

#[test]
fn identities_out_of_order_are_refused() {
    let make = |name: &str, code: u8| {
        LibBuilder::new(Ident::try_from(name).unwrap(), vec![])
            .transpile(Ident::try_from("T").unwrap(), Ty::Primitive(code))
            .compile_symbols()
            .unwrap()
            .compile()
            .unwrap()
    };
    let sys = SystemBuilder::new()
        .import(&make("A", 1))
        .unwrap()
        .import(&make("B", 2))
        .unwrap()
        .finalize()
        .unwrap();
    let bytes = sys.serialize().unwrap();
    assert_eq!(bytes.len(), 2 + 64 + 3 + 2 * 34);
    let back = TypeSystem::deserialize(&bytes).unwrap();
    assert_eq!(back.ids(), sys.ids());
    assert_eq!(back.id(), sys.id());
    // the two types the other way round
    let mut swapped = bytes[..69].to_vec();
    swapped.extend_from_slice(&bytes[103..137]);
    swapped.extend_from_slice(&bytes[69..103]);
    assert_eq!(swapped.len(), bytes.len());
    assert_eq!(TypeSystem::deserialize(&swapped).err(), Some(DecodeError::Malformed));
    // the same type twice
    let mut twice = bytes[..103].to_vec();
    twice.extend_from_slice(&bytes[69..103]);
    assert_eq!(TypeSystem::deserialize(&twice).err(), Some(DecodeError::Malformed));
    // the two libraries the other way round
    let mut libs = bytes[..2].to_vec();
    libs.extend_from_slice(&bytes[34..66]);
    libs.extend_from_slice(&bytes[2..34]);
    libs.extend_from_slice(&bytes[66..]);
    assert_eq!(TypeSystem::deserialize(&libs).err(), Some(DecodeError::Malformed));
}

#[test]
fn bytes_of_an_incomplete_system_are_refused() {
    // no library, one type, which is an option of a type that is not there
    let mut bytes = vec![0u8, 0, 1, 0, 0];
    bytes.extend_from_slice(&[1; 32]);
    bytes.push(9);
    bytes.extend_from_slice(&[2; 32]);
    assert_eq!(TypeSystem::deserialize(&bytes).err(), Some(DecodeError::Incomplete));
    // the same with the type it refers to
    let mut bytes = vec![0u8, 0, 2, 0, 0];
    bytes.extend_from_slice(&[1; 32]);
    bytes.push(9);
    bytes.extend_from_slice(&[2; 32]);
    bytes.extend_from_slice(&[2; 32]);
    bytes.extend_from_slice(&[0, 7]);
    let sys = TypeSystem::deserialize(&bytes).unwrap();
    assert_eq!(sys.count_types(), 2);
    assert!(sys.index(SemId::from_byte_array([1; 32])).same(&Ty::Optional(SemId::from_byte_array([2; 32]))));
    assert_eq!(sys.serialize().unwrap(), bytes);
    // a type that refers to itself is complete, and has no composition of any depth
    let mut bytes = vec![0u8, 0, 1, 0, 0];
    bytes.extend_from_slice(&[1; 32]);
    bytes.push(9);
    bytes.extend_from_slice(&[1; 32]);
    let own = TypeSystem::deserialize(&bytes).unwrap();
    assert!(own.tree_of(&SemId::from_byte_array([1; 32]), 40).is_none());
}

#[test]
fn recursive_types_read_back_as_written() {
    let name = |s: &str| strict_types::util::Ident::try_from(s).unwrap();
    let own = |s: &str| strict_types::typesys::TypeFqn::with(name("Lib"), name(s));
    let lib = strict_types::typelib::LibBuilder::new(name("Lib"), vec![])
        .transpile(name("Byte"), strict_types::ty::Ty::Primitive(1))
        .transpile(name("Tree"), strict_types::ty::Ty::MapOf(own("Byte"), own("Tree"), strict_types::util::Sizing::u8()))
        .compile_symbols()
        .unwrap()
        .compile()
        .unwrap();
    let sys = SystemBuilder::new().import(&lib).unwrap().finalize().unwrap();
    assert_eq!(sys.count_types(), 3);
    let bytes = sys.serialize().unwrap();
    let back = TypeSystem::deserialize(&bytes).unwrap();
    assert_eq!(back.id(), sys.id());
    assert_eq!(back.ids(), sys.ids());
    for id in sys.ids() {
        assert!(back.index(id).same(sys.index(id)));
    }
    assert_eq!(back.serialize().unwrap(), bytes);
    // the listing writes a recursive reference behind `&`
    let link = own("Tree").link();
    let text = sys.to_string();
    assert!(text.contains(&format!(" :: &{}\n", link.to_value_string())), "{text}");
    assert_eq!(text, back.to_string());
}
