use strict_types::stl::{declare_enum, enum_lib, std_stl, std_sym, EnumTable, StlError};
use strict_types::ty::Ty;
use strict_types::util::Ident;

#[test]
fn std_declares_the_enumerations_of_numbers_and_characters() {
    let sym = std_sym();
    assert_eq!(sym.name().as_str(), "Std");
    assert_eq!(sym.count_types(), 19);
    for name in ["Bool", "U2", "U7", "Ascii", "AsciiPrintable", "Alpha", "Dec", "AlphaNumLodash"] {
        assert!(sym.position(&Ident::try_from(name).unwrap()).is_some(), "{name}");
    }
    assert_eq!(sym.position(&Ident::try_from("Bool").unwrap()), Some(0));
    assert_eq!(sym.position(&Ident::try_from("U1").unwrap()), None);
}

#[test]
fn std_names_its_types_in_order() {
    let names = [
        "Bool",
        "U2",
        "U3",
        "U4",
        "U5",
        "U6",
        "U7",
        "Ascii",
        "AsciiPrintable",
        "Alpha",
        "AlphaCaps",
        "AlphaSmall",
        "Dec",
        "HexDecCaps",
        "HexDecSmall",
        "AlphaNum",
        "AlphaCapsNum",
        "AlphaNumDash",
        "AlphaNumLodash",
    ];
    let sym = std_sym();
    assert_eq!(sym.count_types(), names.len());
    assert_eq!(sym.count_dependencies(), 0);
    for (at, name) in names.iter().enumerate() {
        assert_eq!(sym.position(&Ident::try_from(*name).unwrap()), Some(at), "{name}");
    }
}

#[test]
fn std_is_the_same_at_every_call() {
    let first = std_sym();
    let second = std_sym();
    assert_eq!(first.name().as_str(), second.name().as_str());
    assert_eq!(first.count_types(), second.count_types());
    let one = first.compile().unwrap();
    let other = second.compile().unwrap();
    assert_eq!(one.id(), other.id());
    let built = std_stl().unwrap();
    assert_eq!(one.id(), built.id());
    assert_eq!(one.count_types(), built.count_types());
    assert_eq!(one.ids(), built.ids());
}

#[test]
fn std_compiles() {
    let lib = std_stl().unwrap();
    assert_eq!(lib.name().as_str(), "Std");
    assert_eq!(lib.count_types(), 19);
    let boolean = lib.find(&Ident::try_from("Bool").unwrap()).unwrap();
    match lib.get(boolean).unwrap() {
        Ty::Enum(variants) => {
            assert_eq!(variants.len(), 2);
            assert_eq!(variants[0].tag, 0);
            assert_eq!(variants[0].name.as_str(), "false");
            assert_eq!(variants[1].tag, 1);
            assert_eq!(variants[1].name.as_str(), "true");
        }
        other => panic!("unexpected {other:?}"),
    }
    let u7 = lib.find(&Ident::try_from("U7").unwrap()).unwrap();
    match lib.get(u7).unwrap() {
        Ty::Enum(variants) => assert_eq!(variants.len(), 128),
        other => panic!("unexpected {other:?}"),
    }
    // building it again gives the same library
    assert_eq!(std_stl().unwrap().id(), lib.id());
}

#[test]
fn tables_become_enumerations() {
    let table = EnumTable { name: Some("Answer".to_string()), variants: vec![(0, "no"), (1, "yes")] };
    let symbol = declare_enum(&table).unwrap();
    assert_eq!(symbol.name.as_str(), "Answer");
    match symbol.ty {
        Ty::Enum(variants) => {
            assert_eq!(variants.len(), 2);
            assert_eq!(variants[1].name.as_str(), "yes");
            assert_eq!(variants[1].tag, 1);
        }
        other => panic!("unexpected {other:?}"),
    }
    let unnamed = EnumTable { name: None, variants: vec![] };
    assert!(matches!(declare_enum(&unnamed), Err(StlError::Unnamed)));
    let bad = EnumTable { name: Some("Answer".to_string()), variants: vec![(0, "No")] };
    assert!(matches!(declare_enum(&bad), Err(StlError::Name(_))));
    let bad = EnumTable { name: Some("1".to_string()), variants: vec![] };
    assert!(matches!(declare_enum(&bad), Err(StlError::Name(_))));
    let lib = enum_lib(Ident::try_from("Mine").unwrap(), &vec![table]).unwrap();
    assert_eq!(lib.count_types(), 1);
    let table = EnumTable { name: Some("Answer".to_string()), variants: vec![(0, "no")] };
    let twice = enum_lib(
        Ident::try_from("Mine").unwrap(),
        &vec![EnumTable { name: Some("Answer".to_string()), variants: vec![] }, table],
    );
    assert!(matches!(twice, Err(StlError::Transpile(_))));
}

#[test]
fn numbers_are_named_by_their_digits() {
    let lib = std_stl().unwrap();
    for (bits, name) in [(2u32, "U2"), (3, "U3"), (4, "U4"), (5, "U5"), (6, "U6"), (7, "U7")] {
        let id = lib.find(&Ident::try_from(name).unwrap()).unwrap();
        match lib.get(id).unwrap() {
            Ty::Enum(variants) => {
                assert_eq!(variants.len(), 1usize << bits, "{name}");
                for (k, variant) in variants.iter().enumerate() {
                    assert_eq!(variant.tag as usize, k, "{name}");
                    assert_eq!(variant.name.as_str(), format!("_{k}"), "{name}");
                }
            }
            other => panic!("unexpected {other:?}"),
        }
    }
}
