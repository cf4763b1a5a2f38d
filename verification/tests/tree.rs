use strict_types::builder::SystemBuilder;
use strict_types::id::SemId;
use strict_types::layout::LayoutError;
use strict_types::ty::Ty;
use strict_types::typelib::LibBuilder;
use strict_types::typesys::{TypeFqn, TypeSystem};
use strict_types::util::{Ident, Sizing};

fn ident(s: &str) -> Ident { Ident::try_from(s).unwrap() }

fn fqn(name: &str) -> TypeFqn { TypeFqn::with(ident("Lib"), ident(name)) }

fn system() -> (TypeSystem, SemId, SemId, SemId) {
    let lib = LibBuilder::new(ident("Lib"), vec![])
        .transpile(ident("Byte"), Ty::Primitive(1))
        .transpile(ident("Bytes"), Ty::List(fqn("Byte"), Sizing::u16()))
        .transpile(ident("Pair"), Ty::Tuple(vec![fqn("Bytes"), fqn("Byte")]))
        .compile_symbols()
        .unwrap()
        .compile()
        .unwrap();
    let byte = lib.find(&ident("Byte")).unwrap();
    let bytes = lib.find(&ident("Bytes")).unwrap();
    let pair = lib.find(&ident("Pair")).unwrap();
    (SystemBuilder::new().import(&lib).unwrap().finalize().unwrap(), byte, bytes, pair)
}

#[test]
fn composition_of_a_type() {
    let (sys, byte, bytes, pair) = system();
    let tree = sys.tree_of(&pair, 8).unwrap();
    assert_eq!(tree.descr.subject, pair.to_value_string());
    assert_eq!(tree.descr.predicate, "tuple");
    assert_eq!(tree.content.len(), 2);
    assert_eq!(tree.content[0].descr.subject, bytes.to_value_string());
    assert_eq!(tree.content[0].descr.predicate, "list");
    assert_eq!(tree.content[0].content.len(), 1);
    assert_eq!(tree.content[0].content[0].descr.subject, byte.to_value_string());
    assert_eq!(tree.content[0].content[0].descr.predicate, "primitive");
    assert!(tree.content[0].content[0].content.is_empty());
    assert_eq!(tree.content[1].descr.predicate, "primitive");
    // three levels are needed, and three are enough
    assert!(sys.tree_of(&pair, 3).is_some());
    assert!(sys.tree_of(&pair, 2).is_none());
    assert!(sys.tree_of(&pair, 0).is_none());
    assert!(sys.tree_of(&byte, 1).is_some());
    // a type that is not there has no composition
    assert!(sys.tree_of(&SemId::from_byte_array([0; 32]), 8).is_none());
}

#[test]
fn layout_of_a_type_rebuilds_to_its_composition() {
    let (sys, _, _, pair) = system();
    let tree = sys.tree_of(&pair, 8).unwrap();
    let layout = sys.layout_of(&pair, 8).unwrap();
    assert_eq!(layout.len(), 4);
    assert_eq!(layout.to_vesper(), Ok(tree));
    assert_eq!(layout.to_string().unwrap().lines().count(), 4);
    assert!(sys.layout_of(&pair, 2).is_none());
    let _ = LayoutError::ZeroItems;
}


#[test]
fn a_recursive_type_has_a_finite_composition() {
    let lib = LibBuilder::new(ident("Lib"), vec![])
        .transpile(ident("Tree"), Ty::List(fqn("Tree"), Sizing::u16()))
        .compile_symbols()
        .unwrap()
        .compile()
        .unwrap();
    let tree = lib.find(&ident("Tree")).unwrap();
    let sys = SystemBuilder::new().import(&lib).unwrap().finalize().unwrap();
    let shown = sys.tree_of(&tree, 8).unwrap();
    assert_eq!(shown.descr.predicate, "list");
    assert_eq!(shown.content.len(), 1);
    assert_eq!(shown.content[0].descr.predicate, "recursive");
    assert!(shown.content[0].content.is_empty());
    let layout = sys.layout_of(&tree, 8).unwrap();
    assert_eq!(layout.len(), 2);
    assert_eq!(layout.to_vesper(), Ok(shown));
}
