use baid58::Baid58;
use base64::Engine;
use strict_types::builder::SystemBuilder;
use strict_types::dump::push_armor_lines;
use strict_types::id::{plain_string, short_string, urn_string, SemId, TypeLibId, TypeSysId};
use strict_types::layout::{Descr, TypeInfo, TypeLayout, TypeVesper};
use strict_types::stl::{std_stl, strict_types_stl, strict_types_sym};
use strict_types::text::{push_decimal, push_hex, push_hexadecimal};
use strict_types::ty::{Alternative, Field, Ty, Variant};
use strict_types::typelib::LibBuilder;
use strict_types::typesys::{BoundError, TypeFqn, TypeSystem};
use strict_types::util::{Ident, MemberName, Sizing};
use strict_types::value::{EnumTag, StrictVal};

fn payload() -> [u8; 32] {
    let mut p = [0u8; 32];
    for (i, b) in p.iter_mut().enumerate() {
        *b = (i * 7 + 3) as u8;
    }
    p
}

#[test]
fn identities_read_as_baid58_writes_them() {
    let p = payload();
    let sys = TypeSysId::from_byte_array(p);
    let baid = Baid58::<32>::with("sts", p);
    assert_eq!(sys.to_string(), format!("urn:ubideco:{::<#}", baid));
    assert_eq!(sys.to_plain_string(), format!("urn:ubideco:{::<}", baid));
    assert_eq!(sys.to_short_string(), format!("{:#}", baid));
    assert_eq!(sys.to_mnemonic(), baid.mnemonic());
    let sem = SemId::from_byte_array(p);
    let baid = Baid58::<32>::with("semid", p);
    assert_eq!(sem.to_string(), format!("urn:ubideco:{::<#}", baid));
    assert_eq!(sem.to_value_string(), format!("{}", baid));
    let lib = TypeLibId::from_byte_array(p);
    let baid = Baid58::<32>::with("stl", p);
    assert_eq!(lib.to_string(), format!("urn:ubideco:{::<#}", baid));
    assert_eq!(urn_string("stl", p), lib.to_string());
    assert_eq!(plain_string("stl", p), lib.to_plain_string());
    assert_eq!(short_string("stl", p), lib.to_short_string());
}

#[test]
fn library_identity_reads_as_a_urn_with_three_words() {
    let text = std_stl().unwrap().id().to_string();
    let (urn, words) = text.split_once('#').unwrap();
    assert!(urn.starts_with("urn:ubideco:stl:"));
    assert!(urn.len() > "urn:ubideco:stl:".len() + 40);
    assert_eq!(words.split('-').count(), 3);
    assert!(words.chars().all(|c| c.is_ascii_lowercase() || c == '-'));
}

#[test]
fn identities_of_different_kinds_read_differently() {
    let p = payload();
    let sem = SemId::from_byte_array(p).to_string();
    let lib = TypeLibId::from_byte_array(p).to_string();
    let sys = TypeSysId::from_byte_array(p).to_string();
    assert!(sem.starts_with("urn:ubideco:semid:"));
    assert!(lib.starts_with("urn:ubideco:stl:"));
    assert!(sys.starts_with("urn:ubideco:sts:"));
    assert_ne!(sem, sys);
    assert_ne!(lib, sys);
    // the checksum is keyed by the kind
    assert_ne!(SemId::from_byte_array(p).to_mnemonic(), TypeSysId::from_byte_array(p).to_mnemonic());
    // a known value: 32 zero bytes are 32 times the digit `1` in Base58
    assert_eq!(SemId::from_byte_array([0; 32]).to_value_string(), "1".repeat(32));
}

#[test]
fn numbers_as_text() {
    let mut out = String::from("n=");
    push_decimal(&mut out, 0);
    out.push(',');
    push_decimal(&mut out, 65535);
    out.push(',');
    push_decimal(&mut out, u64::MAX);
    assert_eq!(out, "n=0,65535,18446744073709551615");
    let mut out = String::new();
    push_hex(&mut out, 5);
    out.push(',');
    push_hex(&mut out, 255);
    out.push(',');
    push_hex(&mut out, 0xabc);
    out.push(',');
    push_hexadecimal(&mut out, 0);
    assert_eq!(out, "0x05,0xff,0xabc,0");
}

#[test]
fn sizing_as_text() {
    assert_eq!(Sizing::u16().to_string(), "");
    assert_eq!(Sizing::new(1, 65535).to_string(), " ^ 1..");
    assert_eq!(Sizing::u8().to_string(), format!(" ^ {}..{:#04x}", 0, 255));
    assert_eq!(Sizing::new(2, 9).to_string(), format!(" ^ {}..{:#04x}", 2, 9));
    assert_eq!(Sizing::new(2, 9).to_string(), " ^ 2..0x09");
    assert_eq!(Sizing::new(300, 4000).to_string(), format!(" ^ {}..{:#04x}", 300, 4000));
}

#[test]
fn types_as_expressions() {
    let a = SemId::from_byte_array([0; 32]);
    let one = "1".repeat(32);
    let member = |s: &str| MemberName::try_from(s).unwrap();
    assert_eq!(Ty::<SemId>::Primitive(7).to_string(), "#7");
    let en: Ty<SemId> = Ty::Enum(vec![
        Variant { name: member("no"), tag: 0 },
        Variant { name: member("yes"), tag: 1 },
    ]);
    assert_eq!(en.to_string(), "(no=0 | yes=1)");
    assert_eq!(Ty::<SemId>::Enum(vec![]).to_string(), "()");
    let un = Ty::Union(vec![
        Alternative { name: member("none"), tag: 0, ty: a },
        Alternative { name: member("some"), tag: 1, ty: a },
    ]);
    assert_eq!(un.to_string(), format!("(none=0 {one} | some=1 {one})"));
    assert_eq!(Ty::Tuple(vec![a, a, a]).to_string(), format!("({one}, {one}, {one})"));
    let st = Ty::Struct(vec![Field { name: member("x"), ty: a }, Field { name: member("y"), ty: a }]);
    assert_eq!(st.to_string(), format!("(x {one}, y {one})"));
    assert_eq!(Ty::Array(a, 32).to_string(), format!("[{one} ^ 32]"));
    assert_eq!(Ty::List(a, Sizing::u16()).to_string(), format!("[{one}]"));
    assert_eq!(Ty::SetOf(a, Sizing::u8()).to_string(), format!("{{{one} ^ 0..0xff}}"));
    assert_eq!(Ty::MapOf(a, a, Sizing::new(1, 65535)).to_string(), format!("{{{one} -> {one} ^ 1..}}"));
    assert_eq!(Ty::Optional(a).to_string(), format!("{one}?"));
}

#[test]
fn system_listing() {
    let ident = |s: &str| Ident::try_from(s).unwrap();
    let lib = LibBuilder::new(ident("Lib"), vec![])
        .transpile(ident("Byte"), Ty::Primitive(1))
        .transpile(ident("Maybe"), Ty::Optional(TypeFqn::with(ident("Lib"), ident("Byte"))))
        .compile_symbols()
        .unwrap()
        .compile()
        .unwrap();
    let sys = SystemBuilder::new().import(&lib).unwrap().finalize().unwrap();
    let mut expected = format!("typesys -- {}\n\n", sys.id().to_string());
    for id in sys.ids() {
        expected.push_str(&format!("data {} :: {}\n", id.to_short_string(), sys.index(id).to_string()));
    }
    assert_eq!(sys.to_string(), expected);
    assert_eq!(sys.to_string().lines().count(), 4);
    assert_eq!(TypeSystem::new().to_string(), format!("typesys -- {}\n\n", TypeSystem::new().id().to_string()));
}

fn armor_as_one_string(data: &[u8]) -> String {
    // the whole in Base64, cut into lines of 64 characters
    let text = base64::engine::general_purpose::STANDARD.encode(data);
    let mut out = String::new();
    let mut rest = text.as_str();
    while rest.len() >= 64 {
        let (line, tail) = rest.split_at(64);
        out.push_str(line);
        out.push('\n');
        rest = tail;
    }
    out.push_str(rest);
    out.push('\n');
    out
}

#[test]
fn armor_lines_are_those_of_the_whole_cut_at_64() {
    for len in [0usize, 1, 2, 3, 45, 46, 47, 48, 49, 93, 94, 95, 96, 97, 1000] {
        let data: Vec<u8> = (0..len).map(|i| (i * 31 + 7) as u8).collect();
        let mut out = String::new();
        push_armor_lines(&mut out, &data);
        assert_eq!(out, armor_as_one_string(&data), "{len}");
    }
    let mut out = String::new();
    push_armor_lines(&mut out, b"hello");
    assert_eq!(out, "aGVsbG8=\n");
}

#[test]
fn armored_system() {
    let std = std_stl().unwrap();
    let sys = SystemBuilder::new().import(&std).unwrap().finalize().unwrap();
    let bytes = sys.serialize().unwrap();
    let text = sys.to_armored().unwrap();
    let expected = format!(
        "-----BEGIN STRICT TYPE SYSTEM-----\nId: {}\n\n{}\n-----END STRICT TYPE SYSTEM-----\n",
        sys.id().to_short_string(),
        armor_as_one_string(&bytes)
    );
    assert_eq!(text, expected);
    // the bytes start with the count of libraries and the identity of the one library
    assert_eq!(&bytes[..2], &[1, 0]);
    assert_eq!(&bytes[2..34], &std.id().to_byte_array());
    assert_eq!(&bytes[34..37], &[19, 0, 0]);
}

#[test]
fn empty_system_has_five_bytes() {
    assert_eq!(TypeSystem::new().serialize(), Ok(vec![0u8; 5]));
}

#[test]
fn system_too_large_is_not_closed() {
    // 1800 structures of 255 fields each take more than 2^24 bytes
    let ident = |s: &str| Ident::try_from(s).unwrap();
    let member = |s: &str| MemberName::try_from(s).unwrap();
    let byte = || TypeFqn::with(ident("Big"), ident("Byte"));
    let mut builder = LibBuilder::new(ident("Big"), vec![]).transpile(ident("Byte"), Ty::Primitive(1));
    for i in 0..1800 {
        let mut fields = vec![Field { name: member(&format!("f{i}")), ty: byte() }];
        for k in 0..254 {
            fields.push(Field { name: member(&format!("g{k}")), ty: byte() });
        }
        builder = builder.transpile(ident(&format!("T{i}")), Ty::Struct(fields));
    }
    let lib = builder.compile_symbols().unwrap().compile().unwrap();
    assert_eq!(lib.count_types(), 1801);
    match SystemBuilder::new().import(&lib).unwrap().finalize() {
        Err(e) => {
            assert!(e.missing.is_empty());
            assert_eq!(e.bound, Some(BoundError::TooLarge));
        }
        Ok(_) => panic!("a system of more than 2^24 bytes was closed"),
    }
}

#[test]
fn fully_qualified_names() {
    let fqn = TypeFqn::parse("Std.Bool").unwrap();
    assert_eq!(fqn.lib.as_str(), "Std");
    assert_eq!(fqn.name.as_str(), "Bool");
    assert_eq!(fqn.to_string(), "Std.Bool");
    assert_eq!(TypeFqn::from_static("A.B").to_string(), "A.B");
    assert!(TypeFqn::parse("NoDot").is_none());
    assert!(TypeFqn::parse(".Name").is_none());
    assert!(TypeFqn::parse("Lib.").is_none());
    assert!(TypeFqn::parse("Lib.Name.More").is_none());
    assert!(TypeFqn::parse("Lib.1name").is_none());
    assert!(TypeFqn::parse("Lïb.Name").is_none());
}

#[test]
fn strings_from_values() {
    assert_eq!(StrictVal::from("text").unwrap_string(), "text");
    assert_eq!(StrictVal::newtype(StrictVal::str("text")).unwrap_string(), "text");
    assert_eq!(StrictVal::bytes("héllo".as_bytes()).unwrap_string(), "héllo");
    assert_eq!(StrictVal::list(vec![]).unwrap_string(), "");
    let chars = StrictVal::list(vec![
        StrictVal::enumer(EnumTag::Ord(b'o')),
        StrictVal::enumer(EnumTag::Ord(b'k')),
    ]);
    assert_eq!(chars.unwrap_string(), "ok");
}

fn node(subject: &str, predicate: &str, content: Vec<TypeVesper>) -> TypeVesper {
    TypeVesper {
        descr: Descr { subject: subject.to_string(), predicate: predicate.to_string() },
        content,
    }
}

#[test]
fn flattening_and_rebuilding_gives_the_tree_back() {
    let tree = node(
        "a",
        "rec",
        vec![
            node("b", "tuple", vec![node("c", "u8", vec![]), node("d", "u16", vec![])]),
            node("e", "list", vec![node("f", "opt", vec![node("g", "u8", vec![])])]),
            node("h", "u8", vec![]),
        ],
    );
    let layout = TypeLayout::from_vesper(&tree).unwrap();
    assert_eq!(layout.len(), 8);
    let again = layout.to_vesper().unwrap();
    assert_eq!(again, tree);
    assert_eq!(
        tree.to_string(),
        "a rec\n  b tuple\n    c u8\n    d u16\n  e list\n    f opt\n      g u8\n  h u8\n"
    );
    assert_eq!(layout.to_string(), Ok(tree.to_string()));
    let leaf = TypeInfo { depth: 0, descr: Descr { subject: "x".into(), predicate: "y".into() } };
    assert_eq!(leaf.to_vesper(), node("x", "y", vec![]));
    assert!(TypeLayout::new().to_string().is_err());
}

#[test]
fn strict_types_library() {
    let sym = strict_types_sym().unwrap();
    assert_eq!(sym.name().as_str(), "StrictTypes");
    assert_eq!(sym.count_types(), 7);
    let lib = strict_types_stl().unwrap();
    assert_eq!(lib.name().as_str(), "StrictTypes");
    let ident = |s: &str| Ident::try_from(s).unwrap();
    let byte = lib.find(&ident("U8")).unwrap();
    let sem_id = lib.find(&ident("SemId")).unwrap();
    assert_eq!(Some(sem_id), Ty::Array(byte, 32).sem_id());
    // the identifier refers into the library `Std`
    let std = std_stl().unwrap();
    let chars = std.find(&ident("AlphaNumLodash")).unwrap();
    assert_eq!(lib.find(&ident("Ident")), Ty::List(chars, Sizing::new(1, 32)).sem_id());
    // alone it is not complete, together with `Std` it is
    assert!(SystemBuilder::new().import(&lib).unwrap().finalize().is_err());
    let sys = SystemBuilder::new().import(&lib).unwrap().import(&std).unwrap().finalize().unwrap();
    assert_eq!(sys.count_types(), 19 + 7);
    assert_eq!(sys.count_libs(), 2);
}

#[test]
fn flags_choose_the_form_of_an_identity() {
    let p = payload();
    let sys = TypeSysId::from_byte_array(p);
    let baid = Baid58::<32>::with("sts", p);
    // the alternate flag wins over the others
    assert_eq!(sys.to_text(true, false, false), baid.mnemonic());
    assert_eq!(sys.to_text(true, true, true), baid.mnemonic());
    // then the minus sign
    assert_eq!(sys.to_text(false, true, false), format!("{:#}", baid));
    assert_eq!(sys.to_text(false, true, true), format!("{:#}", baid));
    // then the zero
    assert_eq!(sys.to_text(false, false, true), format!("urn:ubideco:{::<}", baid));
    // with none of them the identity is written in full
    assert_eq!(sys.to_text(false, false, false), format!("urn:ubideco:{::<#}", baid));
    assert_eq!(sys.to_text(false, false, false), sys.to_string());

    let sem = SemId::from_byte_array(p);
    assert_eq!(sem.to_text(true, false, false), sem.to_mnemonic());
    assert_eq!(sem.to_text(false, true, false), sem.to_short_string());
    assert_eq!(sem.to_text(false, false, true), sem.to_plain_string());
    assert_eq!(sem.to_text(false, false, false), sem.to_string());
    let lib = TypeLibId::from_byte_array(p);
    assert_eq!(lib.to_text(true, false, false), lib.to_mnemonic());
    assert_eq!(lib.to_text(false, true, false), lib.to_short_string());
    assert_eq!(lib.to_text(false, false, true), lib.to_plain_string());
    assert_eq!(lib.to_text(false, false, false), lib.to_string());
}

#[test]
fn a_library_lists_its_types_in_ascending_order() {
    let lib = LibBuilder::new(Ident::try_from("Lib").unwrap(), vec![])
        .transpile(Ident::try_from("Byte").unwrap(), Ty::Primitive(1))
        .transpile(Ident::try_from("Word").unwrap(), Ty::Primitive(2))
        .compile_symbols()
        .unwrap()
        .compile()
        .unwrap();
    let text = lib.to_string();
    let mut lines = text.lines();
    assert_eq!(lines.next(), Some(format!("typelib Lib -- {}", lib.id().to_string()).as_str()));
    assert_eq!(lines.next(), Some(""));
    let ids = lib.ids();
    assert_eq!(ids.len(), 2);
    for id in ids {
        let expr = lib.get(id).unwrap().to_string();
        assert_eq!(lines.next(), Some(format!("data {} :: {}", id.to_short_string(), expr).as_str()));
    }
    assert_eq!(lines.next(), None);
    assert!(text.ends_with('\n'));
}
