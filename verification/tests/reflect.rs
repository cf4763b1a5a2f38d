use strict_types::stl::{std_stl, strict_types_on};
use strict_types::util::Ident;
use strict_types::{SystemBuilder, TypeLib};

fn strict_types_lib(std: &TypeLib) -> TypeLib {
    strict_types_on(std.to_dependency()).unwrap().compile().unwrap()
}

#[test]
fn reflect() {
    let std = std_stl().unwrap();
    let lib = strict_types_lib(&std);

    let builder = SystemBuilder::new().import(&lib).unwrap().import(&std).unwrap();
    match builder.finalize() {
        Ok(sys) => {
            println!("{}", sys.to_string());
            println!("{}", sys.to_armored().unwrap());
        }
        Err(errors) => {
            for err in errors.missing {
                println!("Error: {}", err.to_string());
            }
            panic!()
        }
    }
}

#[test]
fn reflect_lib() {
    let std = std_stl().unwrap();
    let lib = strict_types_lib(&std);
    let sys = SystemBuilder::new().import(&lib).unwrap().import(&std).unwrap().finalize().unwrap();
    let id = lib.find(&Ident::try_from("TypeFqn").unwrap()).unwrap();
    let _tt = sys.layout_of(&id, 16).unwrap();
}
