//! Strict types: a deterministic, content-addressed type-schema format.
//!
//! The crate holds the identity scheme for types and type systems, the bounded
//! type-system container, the compiler from symbolic to semantically
//! identified libraries, and the reconstruction of a type layout tree from
//! its flat, depth-annotated form.

pub mod util;
pub mod size;
pub mod text;
pub mod layout;
pub mod hash;
pub mod id;
pub mod ty;
pub mod typesys;
pub mod typelib;
pub mod builder;
pub mod dump;
pub mod codec;
pub mod tree;
pub mod stl;
pub mod value;

pub use builder::{FinalizeError, ImportError, SystemBuilder};
pub use codec::DecodeError;
pub use id::{SemId, TypeLibId, TypeSysId};
pub use layout::{LayoutError, TypeInfo, TypeLayout, TypeVesper};
pub use size::Size;
pub use ty::Ty;
pub use typelib::{CompileError, Dependency, LibBuilder, SymbolicLib, TranspileError, TypeLib};
pub use typesys::{BoundError, SymTy, TypeFqn, TypeSystem};
pub use util::{FieldName, Ident, InvalidIdent, LibName, Sizing, TypeName, VariantName};
pub use value::{EnumTag, StrictNum, StrictVal};
