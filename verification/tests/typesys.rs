use sha2::{Digest, Sha256};
use strict_types::builder::{ImportError, SystemBuilder};
use strict_types::hash::compute_tagged_hash;
use strict_types::id::{SemId, TypeLibId, TypeSysId};
use strict_types::ty::{Alternative, Field, Ty, Variant};
use strict_types::typelib::{
    CompileError, Dependency, Export, LibBuilder, SymbolicLib, TranspileError, TypeSymbol,
};
use strict_types::typesys::{BoundError, SymTy, TypeFqn, TypeSystem};
use strict_types::util::{Ident, MemberName, Sizing};

fn ident(s: &str) -> Ident { Ident::try_from(s).unwrap() }

fn member(s: &str) -> MemberName { MemberName::try_from(s).unwrap() }

fn fqn(lib: &str, name: &str) -> TypeFqn { TypeFqn::with(ident(lib), ident(name)) }

fn u8_ty<R>() -> Ty<R> { Ty::Primitive(0x01) }

fn sha(data: &[u8]) -> [u8; 32] { Sha256::digest(data).into() }

#[test]
fn tagged_hash_is_the_digest_of_tag_digest_twice_and_content() {
    let tag = b"urn:ubideco:strict-types:typ:v01";
    let content = [0u8, 1u8];
    let key = sha(tag);
    let mut all = Vec::new();
    all.extend_from_slice(&key);
    all.extend_from_slice(&key);
    all.extend_from_slice(&content);
    assert_eq!(compute_tagged_hash(tag, &content), sha(&all));
    assert_eq!(SemId::of_content(&content).to_byte_array(), sha(&all));
    // the empty input has a well-known digest
    let empty = sha(b"");
    assert_eq!(empty[0], 0xe3);
    assert_eq!(empty[31], 0x55);
}

#[test]
fn identities_of_different_kinds_differ_on_the_same_content() {
    let content = [7u8; 40];
    let sem = SemId::of_content(&content).to_byte_array();
    let lib = TypeLibId::of_content(&content).to_byte_array();
    let sys = TypeSysId::of_content(&content).to_byte_array();
    assert_ne!(sem, lib);
    assert_ne!(sem, sys);
    assert_ne!(lib, sys);
}

#[test]
fn identity_order_is_that_of_byte_strings() {
    let mut low = [0u8; 32];
    let mut high = [0u8; 32];
    low[31] = 255;
    high[0] = 1;
    let a = SemId::from_byte_array(low);
    let b = SemId::from_byte_array(high);
    assert!(a.before(&b));
    assert!(!b.before(&a));
    assert!(!a.before(&a));
    assert!(a.same(&a));
    assert!(!a.same(&b));
    assert!(a < b);
}

#[test]
fn encoding_of_types() {
    let id = SemId::from_byte_array([0xAB; 32]);
    assert_eq!(Ty::<SemId>::Primitive(7).encode(), Some(vec![0, 7]));
    let mut expected = vec![5u8];
    expected.extend_from_slice(&[0xAB; 32]);
    expected.extend_from_slice(&[0x34, 0x12]);
    assert_eq!(Ty::Array(id, 0x1234).encode(), Some(expected));
    let mut expected = vec![6u8];
    expected.extend_from_slice(&[0xAB; 32]);
    expected.extend_from_slice(&[1, 0, 0xFF, 0]);
    assert_eq!(Ty::List(id, Sizing::u8_nonempty()).encode(), Some(expected));
    let en: Ty<SemId> = Ty::Enum(vec![
        Variant { name: member("no"), tag: 0 },
        Variant { name: member("yes"), tag: 1 },
    ]);
    assert_eq!(en.encode(), Some(vec![1, 2, 2, b'n', b'o', 0, 3, b'y', b'e', b's', 1]));
    let st = Ty::Struct(vec![Field { name: member("f"), ty: id }]);
    let mut expected = vec![4u8, 1, 1, b'f'];
    expected.extend_from_slice(&[0xAB; 32]);
    assert_eq!(st.encode(), Some(expected));
    let un = Ty::Union(vec![Alternative { name: member("a"), tag: 9, ty: id }]);
    let mut expected = vec![2u8, 1, 1, b'a', 9];
    expected.extend_from_slice(&[0xAB; 32]);
    assert_eq!(un.encode(), Some(expected));
    let mut expected = vec![8u8];
    expected.extend_from_slice(&[0xAB; 32]);
    expected.extend_from_slice(&[0xAB; 32]);
    expected.extend_from_slice(&[0, 0, 0xFF, 0xFF]);
    assert_eq!(Ty::MapOf(id, id, Sizing::u16()).encode(), Some(expected));
}

#[test]
fn too_many_members_have_no_encoding() {
    let id = SemId::from_byte_array([1; 32]);
    let ok: Ty<SemId> = Ty::Tuple(vec![id; 255]);
    assert!(ok.is_wf());
    assert!(ok.sem_id().is_some());
    let over: Ty<SemId> = Ty::Tuple(vec![id; 256]);
    assert!(!over.is_wf());
    assert_eq!(over.encode(), None);
    assert!(over.sem_id().is_none());
}

#[test]
fn same_structure_same_identity_whatever_the_name() {
    // two libraries independently declare a type `u8`
    let one = LibBuilder::new(ident("First"), vec![]).transpile(ident("U8"), u8_ty()).compile_symbols().unwrap();
    let two = LibBuilder::new(ident("Second"), vec![]).transpile(ident("Byte"), u8_ty()).compile_symbols().unwrap();
    let one = one.compile().unwrap();
    let two = two.compile().unwrap();
    let id_one = one.find(&ident("U8")).unwrap();
    let id_two = two.find(&ident("Byte")).unwrap();
    assert_eq!(id_one, id_two);
    assert_eq!(Some(id_one), u8_ty::<SemId>().sem_id());
    assert_ne!(one.id(), two.id());
    // importing both raises no collision, and the type counts once
    let builder = SystemBuilder::new().import(&one).unwrap().import(&two).unwrap();
    assert_eq!(builder.count_types(), 1);
    let sys = builder.finalize().unwrap();
    assert_eq!(sys.count_types(), 1);
    assert_eq!(sys.count_libs(), 2);
    assert!(sys.get(id_one).unwrap().same(&u8_ty()));
}

#[test]
fn undeclared_name_fails_compile_naming_it() {
    let lib = SymbolicLib::with(
        ident("Lib"),
        vec![],
        vec![TypeSymbol { name: ident("A"), ty: Ty::Optional(fqn("Lib", "B")) }],
    );
    match lib.compile() {
        Err(CompileError::Invalid(TranspileError::UnknownType(name))) => {
            assert_eq!(name.lib.as_str(), "Lib");
            assert_eq!(name.name.as_str(), "B");
        }
        other => panic!("unexpected {other:?}"),
    }
    // a name of a library that is no dependency is unknown as well
    let lib = SymbolicLib::with(
        ident("Lib"),
        vec![],
        vec![TypeSymbol { name: ident("A"), ty: Ty::Optional(fqn("Other", "A")) }],
    );
    assert!(matches!(lib.check(), Err(TranspileError::UnknownType(_))));
    assert!(matches!(lib.compile(), Err(CompileError::Invalid(TranspileError::UnknownType(_)))));
}

#[test]
fn compile_goes_by_dependency_not_by_declaration() {
    // `Pair` is declared before the types it refers to
    let lib = LibBuilder::new(ident("Lib"), vec![])
        .transpile(ident("Pair"), Ty::Tuple(vec![fqn("Lib", "Byte"), fqn("Lib", "Maybe")]))
        .transpile(ident("Maybe"), Ty::Optional(fqn("Lib", "Byte")))
        .transpile(ident("Byte"), u8_ty())
        .compile_symbols()
        .unwrap()
        .compile()
        .unwrap();
    let byte = u8_ty::<SemId>().sem_id().unwrap();
    let maybe = Ty::Optional(byte).sem_id().unwrap();
    let pair = Ty::Tuple(vec![byte, maybe]).sem_id().unwrap();
    assert_eq!(lib.find(&ident("Byte")), Some(byte));
    assert_eq!(lib.find(&ident("Maybe")), Some(maybe));
    assert_eq!(lib.find(&ident("Pair")), Some(pair));
    assert_eq!(lib.find(&ident("Nothing")), None);
    assert_eq!(lib.count_types(), 3);
    assert!(lib.get(pair).unwrap().same(&Ty::Tuple(vec![byte, maybe])));
    let ids = lib.ids();
    assert_eq!(ids.len(), 3);
    assert!(ids[0] < ids[1] && ids[1] < ids[2]);
}

#[test]
fn cycles_of_direct_compositions_do_not_compile() {
    let lib = LibBuilder::new(ident("Lib"), vec![])
        .transpile(ident("Byte"), u8_ty())
        .transpile(ident("A"), Ty::Tuple(vec![fqn("Lib", "Byte"), fqn("Lib", "B")]))
        .transpile(ident("B"), Ty::Array(fqn("Lib", "A"), 2))
        .compile_symbols()
        .unwrap();
    match lib.compile() {
        Err(CompileError::Cyclic(name)) => assert_eq!(name.as_str(), "A"),
        other => panic!("unexpected {other:?}"),
    }
    let own = LibBuilder::new(ident("Lib"), vec![])
        .transpile(ident("Pair"), Ty::Tuple(vec![fqn("Lib", "Pair")]))
        .into_symbols();
    assert!(matches!(own.compile(), Err(CompileError::Cyclic(_))));
    // a list somewhere else does not help a cycle of direct compositions
    let mixed = LibBuilder::new(ident("Lib"), vec![])
        .transpile(ident("A"), Ty::Tuple(vec![fqn("Lib", "B")]))
        .transpile(ident("B"), Ty::Tuple(vec![fqn("Lib", "A")]))
        .transpile(ident("C"), Ty::List(fqn("Lib", "A"), Sizing::u8()))
        .into_symbols();
    assert!(matches!(mixed.compile(), Err(CompileError::Cyclic(_))));
}

#[test]
fn a_list_of_itself_compiles() {
    let lib = LibBuilder::new(ident("Lib"), vec![])
        .transpile(ident("Tree"), Ty::List(fqn("Lib", "Tree"), Sizing::u16()))
        .compile_symbols()
        .unwrap()
        .compile()
        .unwrap();
    // the library holds the list and the recursive reference to it
    assert_eq!(lib.count_types(), 2);
    let tree = lib.find(&ident("Tree")).unwrap();
    let link = fqn("Lib", "Tree").link();
    let node = Ty::<SemId>::Recursive(link);
    let node_id = node.sem_id().unwrap();
    assert!(lib.get(tree).unwrap().same(&Ty::List(node_id, Sizing::u16())));
    assert!(lib.get(node_id).unwrap().same(&node));
    assert_eq!(Some(tree), Ty::List(node_id, Sizing::u16()).sem_id());
    // the recursive reference is declared under the name made of its identity
    let auto = Ident::auto(&link.to_byte_array());
    assert_eq!(lib.find(&auto), Some(node_id));
    // and leads back to the list
    assert_eq!(lib.follow(&link), Some(tree));
    assert_eq!(lib.follow(&fqn("Lib", "Other").link()), None);
    // and the library makes a complete system
    let sys = SystemBuilder::new().import(&lib).unwrap().finalize().unwrap();
    assert_eq!(sys.count_types(), 2);
    assert!(sys.get(tree).is_some());
}

#[test]
fn types_that_hold_each_other_in_collections_compile() {
    let lib = LibBuilder::new(ident("Lib"), vec![])
        .transpile(ident("Byte"), u8_ty())
        .transpile(ident("A"), Ty::Optional(fqn("Lib", "B")))
        .transpile(ident("B"), Ty::List(fqn("Lib", "A"), Sizing::u8()))
        .transpile(ident("C"), Ty::Tuple(vec![fqn("Lib", "A"), fqn("Lib", "Byte")]))
        .transpile(ident("D"), Ty::MapOf(fqn("Lib", "Byte"), fqn("Lib", "D"), Sizing::u8()))
        .transpile(ident("E"), Ty::SetOf(fqn("Lib", "Byte"), Sizing::u8()))
        .compile_symbols()
        .unwrap()
        .compile()
        .unwrap();
    let byte = lib.find(&ident("Byte")).unwrap();
    let to_a = Ty::<SemId>::Recursive(fqn("Lib", "A").link()).sem_id().unwrap();
    let to_b = Ty::<SemId>::Recursive(fqn("Lib", "B").link()).sem_id().unwrap();
    let to_d = Ty::<SemId>::Recursive(fqn("Lib", "D").link()).sem_id().unwrap();
    let a = lib.find(&ident("A")).unwrap();
    let b = lib.find(&ident("B")).unwrap();
    assert!(lib.get(a).unwrap().same(&Ty::Optional(to_b)));
    assert!(lib.get(b).unwrap().same(&Ty::List(to_a, Sizing::u8())));
    // what holds a recursive type directly holds it by its identity
    let c = lib.find(&ident("C")).unwrap();
    assert!(lib.get(c).unwrap().same(&Ty::Tuple(vec![a, byte])));
    // a key that is no part of a cycle stays as it is
    let d = lib.find(&ident("D")).unwrap();
    assert!(lib.get(d).unwrap().same(&Ty::MapOf(byte, to_d, Sizing::u8())));
    let e = lib.find(&ident("E")).unwrap();
    assert!(lib.get(e).unwrap().same(&Ty::SetOf(byte, Sizing::u8())));
    // five declarations that are on or behind a cycle each get a recursive reference
    assert_eq!(lib.count_types(), 6 + 4);
    let sys = SystemBuilder::new().import(&lib).unwrap().finalize().unwrap();
    assert_eq!(sys.count_types(), 6 + 4);
}

#[test]
fn a_recursive_reference_can_be_declared() {
    let link = fqn("Lib", "Node").link();
    let lib = LibBuilder::new(ident("Lib"), vec![])
        .transpile(ident("Again"), Ty::Recursive(link))
        .transpile(ident("Node"), Ty::Tuple(vec![fqn("Lib", "Again")]))
        .compile_symbols()
        .unwrap()
        .compile()
        .unwrap();
    assert_eq!(lib.count_types(), 2);
    let again = lib.find(&ident("Again")).unwrap();
    assert_eq!(Some(again), Ty::<SemId>::Recursive(link).sem_id());
    assert!(lib.get(lib.find(&ident("Node")).unwrap()).unwrap().same(&Ty::Tuple(vec![again])));
    // the identity of a name is that of its canonical bytes under the tag for references
    let mut bytes = vec![3u8];
    bytes.extend_from_slice(b"Lib");
    bytes.push(4);
    bytes.extend_from_slice(b"Node");
    assert_eq!(link.to_byte_array(), compute_tagged_hash(b"urn:ubideco:strict-types:ref:v01", &bytes));
    assert_ne!(link, fqn("Lib", "Other").link());
    assert_ne!(link, fqn("Other", "Node").link());
    // its canonical bytes are its kind and the identity it holds
    let encoded = Ty::<SemId>::Recursive(link).encode().unwrap();
    assert_eq!(encoded[0], 10);
    assert_eq!(&encoded[1..], &link.to_byte_array()[..]);
}

#[test]
fn a_recursive_reference_needs_its_name_free() {
    let auto = Ident::auto(&fqn("Lib", "Tree").link().to_byte_array());
    let lib = LibBuilder::new(ident("Lib"), vec![])
        .transpile(ident("Tree"), Ty::List(fqn("Lib", "Tree"), Sizing::u16()))
        .transpile(auto.clone(), u8_ty())
        .compile_symbols()
        .unwrap();
    match lib.compile() {
        Err(CompileError::Invalid(TranspileError::DuplicateName(name))) => {
            assert_eq!(name.as_str(), auto.as_str())
        }
        other => panic!("unexpected {other:?}"),
    }
}

#[test]
fn automatic_names_are_made_of_the_identity() {
    let mut id = [0u8; 32];
    id[0] = 0xAB;
    id[1] = 0x01;
    id[2] = 0xF0;
    id[3] = 0x9C;
    id[4] = 0x77;
    assert_eq!(Ident::auto(&id).as_str(), "AutoAB01F09C");
    assert_eq!(Ident::auto(&[0u8; 32]).as_str(), "Auto00000000");
    assert_eq!(Ident::auto(&[0xffu8; 32]).as_str(), "AutoFFFFFFFF");
}

#[test]
fn faults_of_declarations() {
    let twice = LibBuilder::new(ident("Lib"), vec![])
        .transpile(ident("A"), u8_ty())
        .transpile(ident("A"), Ty::Primitive(2))
        .compile_symbols();
    match twice {
        Err(TranspileError::DuplicateName(name)) => assert_eq!(name.as_str(), "A"),
        other => panic!("unexpected {other:?}"),
    }
    let many = vec![fqn("Lib", "A"); 256];
    let wide = LibBuilder::new(ident("Lib"), vec![])
        .transpile(ident("A"), u8_ty())
        .transpile(ident("T"), Ty::Tuple(many))
        .compile_symbols();
    match wide {
        Err(TranspileError::Malformed(name)) => assert_eq!(name.as_str(), "T"),
        other => panic!("unexpected {other:?}"),
    }
}

#[test]
fn types_of_dependencies_resolve_by_their_exports() {
    let base = LibBuilder::new(ident("Base"), vec![])
        .transpile(ident("Byte"), u8_ty())
        .compile_symbols()
        .unwrap()
        .compile()
        .unwrap();
    let dep = base.to_dependency();
    assert_eq!(dep.name.as_str(), "Base");
    assert_eq!(dep.id, base.id());
    assert_eq!(dep.types.len(), 1);
    let byte = dep.find(&ident("Byte")).unwrap();
    let user = LibBuilder::new(ident("User"), vec![dep])
        .transpile(ident("Bytes"), Ty::List(fqn("Base", "Byte"), Sizing::u16()))
        .compile_symbols()
        .unwrap()
        .compile()
        .unwrap();
    let bytes = user.find(&ident("Bytes")).unwrap();
    assert_eq!(Some(bytes), Ty::List(byte, Sizing::u16()).sem_id());

    // the user depends on the base, which is not imported with it
    assert_eq!(user.dependency_ids(), &vec![base.id()]);
    assert!(SystemBuilder::new().unresolved_libs().is_empty());
    let alone = SystemBuilder::new().import(&user).unwrap();
    assert_eq!(alone.unresolved_libs(), vec![base.id()]);
    assert!(alone.import(&base).unwrap().unresolved_libs().is_empty());
    // the user alone is not complete: it refers to the byte of the base
    match SystemBuilder::new().import(&user).unwrap().finalize() {
        Err(e) => {
            assert_eq!(e.missing, vec![byte]);
            assert_eq!(e.bound, None);
        }
        Ok(_) => panic!("incomplete system was accepted"),
    }
    // adding the missing member makes it complete
    let sys = SystemBuilder::new().import(&user).unwrap().import(&base).unwrap().finalize().unwrap();
    assert_eq!(sys.count_types(), 2);
    assert!(sys.dangling_refs().is_empty());
    assert_eq!(sys.index(bytes).refs(), vec![&byte]);
}

#[test]
fn every_missing_reference_is_reported() {
    let a = SemId::from_byte_array([1; 32]);
    let b = SemId::from_byte_array([2; 32]);
    let dep = Dependency {
        name: ident("Far"),
        id: TypeLibId::from_byte_array([9; 32]),
        types: vec![Export { name: ident("A"), id: a }, Export { name: ident("B"), id: b }],
    };
    let lib = LibBuilder::new(ident("Near"), vec![dep])
        .transpile(ident("Both"), Ty::Tuple(vec![fqn("Far", "A"), fqn("Far", "B"), fqn("Far", "A")]))
        .compile_symbols()
        .unwrap()
        .compile()
        .unwrap();
    match SystemBuilder::new().import(&lib).unwrap().finalize() {
        Err(e) => assert_eq!(e.missing, vec![a, b, a]),
        Ok(_) => panic!("incomplete system was accepted"),
    }
}

#[test]
fn system_identity_ignores_the_order_of_import() {
    let one = LibBuilder::new(ident("One"), vec![]).transpile(ident("A"), u8_ty()).compile_symbols().unwrap().compile().unwrap();
    let two = LibBuilder::new(ident("Two"), vec![]).transpile(ident("B"), Ty::Primitive(2)).compile_symbols().unwrap().compile().unwrap();
    let ab = SystemBuilder::new().import(&one).unwrap().import(&two).unwrap().finalize().unwrap();
    let ba = SystemBuilder::new().import(&two).unwrap().import(&one).unwrap().finalize().unwrap();
    assert_eq!(ab.id(), ba.id());
    assert_eq!(ab.ids(), ba.ids());
    assert_eq!(ab.libs(), ba.libs());
    let only = SystemBuilder::new().import(&one).unwrap().finalize().unwrap();
    assert_ne!(ab.id(), only.id());
    // importing a library twice changes nothing
    let twice = SystemBuilder::new().import(&one).unwrap().import(&one).unwrap().finalize().unwrap();
    assert_eq!(twice.id(), only.id());
    assert_eq!(twice.count_libs(), 1);
}

#[test]
fn system_identity_is_the_tagged_hash_of_counts_and_identities() {
    let one = LibBuilder::new(ident("One"), vec![]).transpile(ident("A"), u8_ty()).compile_symbols().unwrap().compile().unwrap();
    let sys = SystemBuilder::new().import(&one).unwrap().finalize().unwrap();
    let mut content = vec![1u8, 0];
    content.extend_from_slice(&one.id().to_byte_array());
    content.extend_from_slice(&[1, 0, 0]);
    content.extend_from_slice(&u8_ty::<SemId>().sem_id().unwrap().to_byte_array());
    let mut commit = Vec::new();
    sys.sem_commit(&mut commit);
    assert_eq!(commit, content);
    assert_eq!(sys.id(), TypeSysId::of_content(&content));
    assert_eq!(
        sys.id().to_byte_array(),
        compute_tagged_hash(b"urn:ubideco:strict-types:sys:v02", &content)
    );
    assert_eq!(sys.id().to_baid58_payload(), sys.id().to_byte_array());
    // the empty system commits to two counts of zero
    let mut commit = Vec::new();
    TypeSystem::new().sem_commit(&mut commit);
    assert_eq!(commit, vec![0u8; 5]);
}

#[test]
fn library_identity_rests_on_name_dependencies_and_types() {
    let one = LibBuilder::new(ident("One"), vec![]).transpile(ident("A"), u8_ty()).compile_symbols().unwrap().compile().unwrap();
    let same = LibBuilder::new(ident("One"), vec![]).transpile(ident("Other"), u8_ty()).compile_symbols().unwrap().compile().unwrap();
    assert_eq!(one.id(), same.id());
    let mut content = vec![3u8, b'O', b'n', b'e', 0, 0, 1, 0, 0];
    content.extend_from_slice(&u8_ty::<SemId>().sem_id().unwrap().to_byte_array());
    assert_eq!(one.id(), TypeLibId::of_content(&content));
    assert_eq!(one.name().as_str(), "One");
}

#[test]
fn container_holds_what_came_in() {
    let empty = TypeSystem::new();
    assert_eq!(empty.count_types(), 0);
    let lib = LibBuilder::new(ident("Lib"), vec![])
        .transpile(ident("Byte"), u8_ty())
        .transpile(ident("Maybe"), Ty::Optional(fqn("Lib", "Byte")))
        .compile_symbols()
        .unwrap()
        .compile()
        .unwrap();
    let byte = lib.find(&ident("Byte")).unwrap();
    let maybe = lib.find(&ident("Maybe")).unwrap();
    let sys = SystemBuilder::new().import(&lib).unwrap().finalize().unwrap();
    let other = SemId::from_byte_array([5; 32]);
    assert!(sys.get(other).is_none());
    assert!(!sys.contains(&other));
    assert!(empty.get(byte).is_none());
    assert_eq!(sys.count_types(), 2);
    assert!(sys.contains(&byte));
    assert!(sys.get(byte).unwrap().same(&u8_ty()));
    assert!(sys.index(maybe).same(&Ty::Optional(byte)));
    let mut expected = vec![byte, maybe];
    expected.sort();
    assert_eq!(sys.ids(), expected);
    assert!(sys.dangling_refs().is_empty());
    let copy = sys.clone();
    assert_eq!(copy.ids(), sys.ids());
    assert_eq!(copy.id(), sys.id());
    assert_eq!(TypeSystem::default().id(), empty.id());
}

#[test]
fn libraries_are_named_once_and_in_order() {
    let make = |name: &str, code: u8| {
        LibBuilder::new(ident(name), vec![])
            .transpile(ident("T"), Ty::Primitive(code))
            .compile_symbols()
            .unwrap()
            .compile()
            .unwrap()
    };
    let libs = [make("A", 1), make("B", 2), make("C", 3)];
    let mut builder = SystemBuilder::new();
    for lib in [&libs[1], &libs[2], &libs[0], &libs[1]] {
        builder = builder.import(lib).unwrap();
    }
    let sys = builder.finalize().unwrap();
    let mut expected: Vec<TypeLibId> = libs.iter().map(|lib| lib.id()).collect();
    expected.sort();
    assert_eq!(sys.libs(), &expected);
    assert_eq!(sys.count_libs(), 3);
    assert_eq!(sys.count_types(), 3);
    let _ = BoundError::TooManyLibs;
}

#[test]
fn collision_is_reported_with_its_identity() {
    // a library whose type stands under the identity of another structure cannot be
    // made by compiling; the collision shows where the builder meets such a type
    let lib = LibBuilder::new(ident("One"), vec![]).transpile(ident("A"), u8_ty()).compile_symbols().unwrap().compile().unwrap();
    let id = lib.find(&ident("A")).unwrap();
    let builder = SystemBuilder::new().import(&lib).unwrap();
    assert_eq!(builder.count_types(), 1);
    // importing the same again finds the same structure: no collision
    assert!(builder.import(&lib).is_ok());
    let _ = ImportError::Collision(id);
}

#[test]
fn symbolic_types() {
    let ty = SymTy::named(ident("Lib"), ident("Name"), u8_ty());
    assert_eq!(ty.orig.as_ref().unwrap().lib.as_str(), "Lib");
    assert_eq!(ty.orig.as_ref().unwrap().name.as_str(), "Name");
    assert!(SymTy::unnamed(u8_ty()).orig.is_none());
    assert!(SymTy::with(Some(fqn("A", "B")), u8_ty()).orig.unwrap().same(&fqn("A", "B")));
    assert!(!fqn("A", "B").same(&fqn("A", "C")));
}
