//! Libraries of types: symbolic, where types refer to each other by name,
//! and compiled, where they refer to each other by semantic identity.

use vstd::prelude::*;
use crate::hash::{append_array, tagged_hash};
use crate::id::{lib_id_tag, SemId, TypeLibId};
use crate::ty::{encode_members, encode_u16, replace_refs, sem_id_of, Ty, TyView};
use crate::typesys::{encode_u24, found, id_row, id_views, link_id, lists_keys, FqnView, TypeFqn, TypeMap};
use crate::typesys::{holds_count, type_map, MAX_TYPES};
use crate::util::{auto_name, encode_name, Ident, LibName, TypeName};

verus! {

/// One type of a library that another library depends on: its name there
/// and its semantic identity.
#[derive(Clone, Debug)]
pub struct Export {
    pub name: TypeName,
    pub id: SemId,
}

/// An offered type, as plain values.
pub struct ExportView {
    pub name: Seq<char>,
    pub id: Seq<u8>,
}

impl View for Export {
    type V = ExportView;

    open spec fn view(&self) -> ExportView {
        ExportView { name: self.name@, id: self.id@ }
    }
}

/// A library that another library depends on: its name, its identity, and
/// the types it offers, each with its semantic identity.
#[derive(Clone, Debug)]
pub struct Dependency {
    pub name: LibName,
    pub id: TypeLibId,
    pub types: Vec<Export>,
}

/// A dependency, as plain values.
pub struct DependencyView {
    pub name: Seq<char>,
    pub id: Seq<u8>,
    pub types: Seq<ExportView>,
}

impl View for Dependency {
    type V = DependencyView;

    open spec fn view(&self) -> DependencyView {
        DependencyView {
            name: self.name@,
            id: self.id@,
            types: self.types@.map_values(|e: Export| e@),
        }
    }
}

/// A declaration of a symbolic library: a name and the type it stands for,
/// which refers to other types by their fully qualified names.
#[derive(Clone, Debug)]
pub struct TypeSymbol {
    pub name: TypeName,
    pub ty: Ty<TypeFqn>,
}

/// A declaration, as plain values.
pub struct SymbolView {
    pub name: Seq<char>,
    pub ty: TyView<FqnView>,
}

impl View for TypeSymbol {
    type V = SymbolView;

    open spec fn view(&self) -> SymbolView {
        SymbolView { name: self.name@, ty: self.ty@ }
    }
}

/// A library whose types still refer to each other by name.
#[derive(Clone, Debug)]
pub struct SymbolicLib {
    name: LibName,
    dependencies: Vec<Dependency>,
    types: Vec<TypeSymbol>,
}

/// A symbolic library, as plain values: its name, its dependencies and its
/// declarations in their order.
pub struct SymbolicView {
    pub name: Seq<char>,
    pub dependencies: Seq<DependencyView>,
    pub types: Seq<SymbolView>,
}

impl View for SymbolicLib {
    type V = SymbolicView;

    closed spec fn view(&self) -> SymbolicView {
        SymbolicView {
            name: self.name@,
            dependencies: self.dependencies@.map_values(|d: Dependency| d@),
            types: self.types@.map_values(|t: TypeSymbol| t@),
        }
    }
}

/// The identity that the first of `exports` named `name` has, if any is.
pub open spec fn find_export(exports: Seq<ExportView>, name: Seq<char>, from: int) -> Option<
    Seq<u8>,
>
    decreases exports.len() - from,
{
    if from < 0 || from >= exports.len() {
        None
    } else if exports[from].name == name {
        Some(exports[from].id)
    } else {
        find_export(exports, name, from + 1)
    }
}

/// The place of the first of `deps`, from `from` on, that is named `lib`.
pub open spec fn find_dependency(deps: Seq<DependencyView>, lib: Seq<char>, from: int) -> Option<
    int,
>
    decreases deps.len() - from,
{
    if from < 0 || from >= deps.len() {
        None
    } else if deps[from].name == lib {
        Some(from)
    } else {
        find_dependency(deps, lib, from + 1)
    }
}

/// The place of the first declaration, from `from` on, named `name`.
pub open spec fn find_symbol(types: Seq<SymbolView>, name: Seq<char>, from: int) -> Option<int>
    decreases types.len() - from,
{
    if from < 0 || from >= types.len() {
        None
    } else if types[from].name == name {
        Some(from)
    } else {
        find_symbol(types, name, from + 1)
    }
}

/// The identity that the dependencies give to the type named `fqn`: that of
/// the type of this name in the first dependency of this library name.
pub open spec fn import_id(deps: Seq<DependencyView>, fqn: FqnView) -> Option<Seq<u8>> {
    match find_dependency(deps, fqn.lib, 0) {
        Some(at) => find_export(deps[at].types, fqn.name, 0),
        None => None,
    }
}

impl SymbolicView {
    /// The name `fqn` means something here: a declaration of this library,
    /// where it names this library, else a type of a dependency.
    pub open spec fn knows(self, fqn: FqnView) -> bool {
        if fqn.lib == self.name {
            find_symbol(self.types, fqn.name, 0) is Some
        } else {
            import_id(self.dependencies, fqn) is Some
        }
    }

    /// The semantic identity of what `fqn` names, as far as it can be had
    /// within `fuel` steps from declaration to declaration.
    pub open spec fn ref_id(self, fuel: nat, fqn: FqnView) -> Option<Seq<u8>>
        decreases fuel, 1int, 0nat,
    {
        if fqn.lib == self.name {
            match find_symbol(self.types, fqn.name, 0) {
                Some(at) => self.symbol_id(fuel, at),
                None => None,
            }
        } else {
            import_id(self.dependencies, fqn)
        }
    }

    /// The semantic identities of what `refs` name, if all can be had within
    /// `fuel` steps.
    pub open spec fn ref_ids(self, fuel: nat, refs: Seq<FqnView>) -> Option<Seq<Seq<u8>>>
        decreases fuel, 2int, refs.len(),
    {
        if refs.len() == 0 {
            Some(Seq::empty())
        } else {
            match (self.ref_ids(fuel, refs.drop_last()), self.ref_id(fuel, refs.last())) {
                (Some(ids), Some(id)) => Some(ids.push(id)),
                _ => None,
            }
        }
    }

    /// The compiled form of the declaration at `at`: its type with every
    /// name replaced by the semantic identity of what it names. It can be
    /// had within `fuel` steps where all that it refers to can be had within
    /// one step less; with no step, nothing can.
    pub open spec fn symbol_ty(self, fuel: nat, at: int) -> Option<TyView<Seq<u8>>>
        decreases fuel, 0int, 0nat,
    {
        if fuel == 0 {
            None
        } else {
            match self.ref_ids((fuel - 1) as nat, self.types[at].ty.refs()) {
                Some(ids) => Some(replace_refs(self.types[at].ty, ids)),
                None => None,
            }
        }
    }

    /// The semantic identity of the declaration at `at`, if its compiled
    /// form can be had within `fuel` steps.
    pub open spec fn symbol_id(self, fuel: nat, at: int) -> Option<Seq<u8>>
        decreases fuel, 0int, 1nat,
    {
        match self.symbol_ty(fuel, at) {
            Some(ty) => Some(sem_id_of(ty)),
            None => None,
        }
    }

    /// What is wrong with the declaration at `at` taken alone, if anything:
    /// that an earlier one has its name, that it holds more than the format
    /// can count, or that it refers to a name that means nothing here.
    pub open spec fn symbol_fault(self, at: int) -> Option<FaultView> {
        if find_symbol(self.types, self.types[at].name, 0) != Some(at) {
            Some(FaultView::DuplicateName(self.types[at].name))
        } else if !self.types[at].ty.wf() {
            Some(FaultView::Malformed(self.types[at].name))
        } else {
            match self.first_unknown(self.types[at].ty.refs(), 0) {
                Some(k) => Some(FaultView::UnknownType(self.types[at].ty.refs()[k])),
                None => None,
            }
        }
    }

    /// The place of the first of `refs`, from `from` on, that means nothing
    /// here.
    pub open spec fn first_unknown(self, refs: Seq<FqnView>, from: int) -> Option<int>
        decreases refs.len() - from,
    {
        if from < 0 || from >= refs.len() {
            None
        } else if !self.knows(refs[from]) {
            Some(from)
        } else {
            self.first_unknown(refs, from + 1)
        }
    }

    /// What is wrong with the first declaration, from `from` on, that has a
    /// fault.
    pub open spec fn first_fault(self, from: int) -> Option<FaultView>
        decreases self.types.len() - from,
    {
        if from < 0 || from >= self.types.len() {
            None
        } else {
            match self.symbol_fault(from) {
                Some(fault) => Some(fault),
                None => self.first_fault(from + 1),
            }
        }
    }
}

/// Why declarations do not make a symbolic library.
#[derive(Clone, Debug)]
pub enum TranspileError {
    /// Two declarations have this name.
    DuplicateName(TypeName),
    /// The declaration of this name holds more variants, alternatives,
    /// members or fields than the format can count.
    Malformed(TypeName),
    /// A declaration refers to this name, which is neither declared in the
    /// library nor offered by a dependency.
    UnknownType(TypeFqn),
}

/// The fault of a declaration, as plain values.
pub enum FaultView {
    DuplicateName(Seq<char>),
    Malformed(Seq<char>),
    UnknownType(FqnView),
}

impl View for TranspileError {
    type V = FaultView;

    open spec fn view(&self) -> FaultView {
        match self {
            TranspileError::DuplicateName(name) => FaultView::DuplicateName(name@),
            TranspileError::Malformed(name) => FaultView::Malformed(name@),
            TranspileError::UnknownType(fqn) => FaultView::UnknownType(fqn@),
        }
    }
}

impl Dependency {
    /// The identity of the type that the library offers under `name`.
    pub fn find(&self, name: &TypeName) -> (res: Option<SemId>)
        ensures
            match res {
                Some(id) => find_export(self@.types, name@, 0) == Some(id@),
                None => find_export(self@.types, name@, 0) is None,
            },
    {
        let ghost exports = self@.types;
        let mut i: usize = 0;
        while i < self.types.len()
            invariant
                0 <= i <= self.types.len(),
                exports == self@.types,
                find_export(exports, name@, 0) == find_export(exports, name@, i as int),
            decreases self.types.len() - i,
        {
            assert(exports[i as int] == self.types@[i as int]@);
            if self.types[i].name.same(name) {
                return Some(self.types[i].id);
            }
            i = i + 1;
        }
        None
    }
}

impl SymbolicLib {
    /// The symbolic library `name` with these dependencies and declarations,
    /// taken as they are.
    pub fn with(name: LibName, dependencies: Vec<Dependency>, types: Vec<TypeSymbol>) -> (res:
        SymbolicLib)
        ensures
            res@.name == name@,
            res@.dependencies == dependencies@.map_values(|d: Dependency| d@),
            res@.types == types@.map_values(|t: TypeSymbol| t@),
    {
        SymbolicLib { name, dependencies, types }
    }

    /// The name of the library.
    pub fn name(&self) -> (res: &LibName)
        ensures
            res@ == self@.name,
    {
        &self.name
    }

    /// The number of declarations.
    pub fn count_types(&self) -> (res: usize)
        ensures
            res == self@.types.len(),
    {
        self.types.len()
    }

    /// The number of libraries that the library depends on.
    pub fn count_dependencies(&self) -> (res: usize)
        ensures
            res == self@.dependencies.len(),
    {
        self.dependencies.len()
    }

    /// The place of the first declaration named `name`.
    pub fn position(&self, name: &TypeName) -> (res: Option<usize>)
        ensures
            match res {
                Some(at) => find_symbol(self@.types, name@, 0) == Some(at as int) && at
                    < self@.types.len(),
                None => find_symbol(self@.types, name@, 0) is None,
            },
    {
        let ghost types = self@.types;
        let mut i: usize = 0;
        while i < self.types.len()
            invariant
                0 <= i <= self.types.len(),
                types == self@.types,
                find_symbol(types, name@, 0) == find_symbol(types, name@, i as int),
            decreases self.types.len() - i,
        {
            assert(types[i as int] == self.types@[i as int]@);
            if self.types[i].name.same(name) {
                return Some(i);
            }
            i = i + 1;
        }
        None
    }

    /// The identity that the dependencies give to the type named `fqn`.
    pub fn imported(&self, fqn: &TypeFqn) -> (res: Option<SemId>)
        ensures
            match res {
                Some(id) => import_id(self@.dependencies, fqn@) == Some(id@),
                None => import_id(self@.dependencies, fqn@) is None,
            },
    {
        let ghost deps = self@.dependencies;
        let mut i: usize = 0;
        while i < self.dependencies.len()
            invariant
                0 <= i <= self.dependencies.len(),
                deps == self@.dependencies,
                find_dependency(deps, fqn@.lib, 0) == find_dependency(deps, fqn@.lib, i as int),
            decreases self.dependencies.len() - i,
        {
            assert(deps[i as int] == self.dependencies@[i as int]@);
            if self.dependencies[i].name.same(&fqn.lib) {
                return self.dependencies[i].find(&fqn.name);
            }
            i = i + 1;
        }
        None
    }

    /// Whether the name `fqn` means something in this library.
    pub fn knows(&self, fqn: &TypeFqn) -> (res: bool)
        ensures
            res == self@.knows(fqn@),
    {
        if fqn.lib.same(&self.name) {
            self.position(&fqn.name).is_some()
        } else {
            self.imported(fqn).is_some()
        }
    }

    /// Looks for the first declaration with a fault: one that has the name
    /// of an earlier one, that holds more than the format can count, or that
    /// refers to a name that means nothing in this library.
    pub fn check(&self) -> (res: Result<(), TranspileError>)
        ensures
            match res {
                Ok(()) => self@.first_fault(0) is None,
                Err(e) => self@.first_fault(0) == Some(e@),
            },
    {
        let ghost sym = self@;
        let mut i: usize = 0;
        while i < self.types.len()
            invariant
                0 <= i <= self.types.len(),
                sym == self@,
                sym.first_fault(0) == sym.first_fault(i as int),
            decreases self.types.len() - i,
        {
            let decl = &self.types[i];
            assert(sym.types[i as int] == decl@);
            match self.position(&decl.name) {
                Some(at) => {
                    if at != i {
                        return Err(TranspileError::DuplicateName(decl.name.clone()));
                    }
                },
                None => {
                    return Err(TranspileError::DuplicateName(decl.name.clone()));
                },
            }
            if !decl.ty.is_wf() {
                return Err(TranspileError::Malformed(decl.name.clone()));
            }
            let refs = decl.ty.refs();
            let ghost names = decl@.ty.refs();
            let mut k: usize = 0;
            while k < refs.len()
                invariant
                    0 <= k <= refs.len(),
                    0 <= i < self.types.len(),
                    sym == self@,
                    names == sym.types[i as int].ty.refs(),
                    find_symbol(sym.types, sym.types[i as int].name, 0) == Some(i as int),
                    sym.types[i as int].ty.wf(),
                    sym.first_fault(0) == sym.first_fault(i as int),
                    refs@.len() == names.len(),
                    forall|j: int| 0 <= j < refs@.len() ==> (#[trigger] refs@[j])@ == names[j],
                    sym.first_unknown(names, 0) == sym.first_unknown(names, k as int),
                decreases refs.len() - k,
            {
                if !self.knows(refs[k]) {
                    return Err(TranspileError::UnknownType(refs[k].clone()));
                }
                k = k + 1;
            }
            i = i + 1;
        }
        Ok(())
    }
}

/// The identity of the first of `exports`, from `from` on, whose name in
/// the library `lib` has the identity `link`.
pub open spec fn find_link(lib: Seq<char>, exports: Seq<ExportView>, link: Seq<u8>, from: int) -> Option<
    Seq<u8>,
>
    decreases exports.len() - from,
{
    if from < 0 || from >= exports.len() {
        None
    } else if link_id(FqnView { lib, name: exports[from].name }) == link {
        Some(exports[from].id)
    } else {
        find_link(lib, exports, link, from + 1)
    }
}

/// The identity behind an optional identity.
pub open spec fn opt_view(id: Option<SemId>) -> Option<Seq<u8>> {
    match id {
        Some(id) => Some(id@),
        None => None,
    }
}

/// `known` holds, for each declaration, the identity that it has within
/// `fuel` steps.
pub open spec fn knows_ids(sym: SymbolicView, known: Seq<Option<SemId>>, fuel: nat) -> bool {
    &&& known.len() == sym.types.len()
    &&& forall|i: int| 0 <= i < known.len() ==> opt_view(#[trigger] known[i]) == sym.symbol_id(fuel, i)
}

impl SymbolicView {
    /// The semantic identity of the declaration at `at`, in a library in
    /// which every declaration can be compiled.
    pub open spec fn id_at(self, at: int) -> Seq<u8> {
        self.symbol_id(self.types.len(), at)->Some_0
    }

    /// The compiled form of the declaration at `at`, in a library in which
    /// every declaration can be compiled.
    pub open spec fn ty_at(self, at: int) -> TyView<Seq<u8>> {
        self.symbol_ty(self.types.len(), at)->Some_0
    }

    /// The place of the first declaration, from `from` on, that cannot be
    /// compiled however many steps are taken: it refers to itself, directly
    /// or through other declarations.
    pub open spec fn first_cyclic(self, from: int) -> Option<int>
        decreases self.types.len() - from,
    {
        if from < 0 || from >= self.types.len() {
            None
        } else if self.symbol_id(self.types.len(), from) is None {
            Some(from)
        } else {
            self.first_cyclic(from + 1)
        }
    }

    /// The identities of the declarations before `upto`.
    pub open spec fn ids_before(self, upto: int) -> Set<Seq<u8>> {
        Set::new(|id: Seq<u8>| exists|i: int| 0 <= i < upto && #[trigger] self.id_at(i) == id)
    }

    /// Why the declaration at `at` cannot join those before it, if anything:
    /// an earlier one has its identity and another structure, or the library
    /// is full.
    pub open spec fn assembly_fault(self, at: int) -> Option<AssemblyFault> {
        if exists|i: int| 0 <= i < at && #[trigger] self.id_at(i) == self.id_at(at) && self.ty_at(i) != self.ty_at(at) {
            Some(AssemblyFault::Collision(self.id_at(at)))
        } else if !self.ids_before(at).contains(self.id_at(at)) && self.ids_before(at).len()
            >= MAX_TYPES {
            Some(AssemblyFault::TooManyTypes)
        } else {
            None
        }
    }

    /// The first fault of assembly, from `from` on.
    pub open spec fn first_assembly_fault(self, from: int) -> Option<AssemblyFault>
        decreases self.types.len() - from,
    {
        if from < 0 || from >= self.types.len() {
            None
        } else {
            match self.assembly_fault(from) {
                Some(fault) => Some(fault),
                None => self.first_assembly_fault(from + 1),
            }
        }
    }

    /// What the compiled library offers: each declaration's name with its
    /// semantic identity, in the order of the declarations.
    pub open spec fn exports(self) -> Seq<ExportView> {
        Seq::new(
            self.types.len(),
            |i: int| ExportView { name: self.types[i].name, id: self.id_at(i) },
        )
    }
}

/// What keeps a compiled declaration from joining those before it.
pub enum AssemblyFault {
    Collision(Seq<u8>),
    TooManyTypes,
}

/// What can be had within some steps can be had within more, and is the same.
pub proof fn lemma_more_fuel(sym: SymbolicView, fuel: nat, more: nat)
    requires
        fuel <= more,
    ensures
        forall|at: int| #[trigger] sym.symbol_ty(fuel, at) is Some ==> sym.symbol_ty(more, at) == sym.symbol_ty(fuel, at),
        forall|at: int| #[trigger] sym.symbol_id(fuel, at) is Some ==> sym.symbol_id(more, at) == sym.symbol_id(fuel, at),
        forall|fqn: FqnView| #[trigger] sym.ref_id(fuel, fqn) is Some ==> sym.ref_id(more, fqn) == sym.ref_id(fuel, fqn),
    decreases fuel,
{
    if fuel > 0 {
        lemma_more_fuel(sym, (fuel - 1) as nat, (more - 1) as nat);
        assert forall|at: int| #[trigger] sym.symbol_ty(fuel, at) is Some implies sym.symbol_ty(more, at) == sym.symbol_ty(fuel, at) by {
            lemma_more_fuel_refs(sym, (fuel - 1) as nat, (more - 1) as nat, sym.types[at].ty.refs());
        }
        assert forall|at: int| #[trigger] sym.symbol_id(fuel, at) is Some implies sym.symbol_id(more, at) == sym.symbol_id(fuel, at) by {
            assert(sym.symbol_ty(fuel, at) is Some);
        }
        assert forall|fqn: FqnView| #[trigger] sym.ref_id(fuel, fqn) is Some implies sym.ref_id(more, fqn) == sym.ref_id(fuel, fqn) by {
            if fqn.lib == sym.name {
                let at = find_symbol(sym.types, fqn.name, 0)->Some_0;
                assert(sym.symbol_id(fuel, at) is Some);
            }
        }
    } else {
        assert forall|fqn: FqnView| #[trigger] sym.ref_id(fuel, fqn) is Some implies sym.ref_id(more, fqn) == sym.ref_id(fuel, fqn) by {
            if fqn.lib == sym.name {
                let at = find_symbol(sym.types, fqn.name, 0)->Some_0;
                assert(sym.symbol_ty(0, at) is None);
            }
        }
    }
}

/// The references that can all be had within some steps can all be had
/// within more, and are the same.
pub proof fn lemma_more_fuel_refs(sym: SymbolicView, fuel: nat, more: nat, refs: Seq<FqnView>)
    requires
        fuel <= more,
        forall|fqn: FqnView| #[trigger] sym.ref_id(fuel, fqn) is Some ==> sym.ref_id(more, fqn) == sym.ref_id(fuel, fqn),
    ensures
        sym.ref_ids(fuel, refs) is Some ==> sym.ref_ids(more, refs) == sym.ref_ids(fuel, refs),
    decreases refs.len(),
{
    if refs.len() > 0 {
        lemma_more_fuel_refs(sym, fuel, more, refs.drop_last());
        if sym.ref_ids(fuel, refs) is Some {
            assert(sym.ref_id(fuel, refs.last()) is Some);
        }
    }
}

/// Where all references can be had, so can any first few of them.
pub proof fn lemma_ref_ids_prefix(sym: SymbolicView, fuel: nat, refs: Seq<FqnView>, k: int)
    requires
        0 <= k <= refs.len(),
        sym.ref_ids(fuel, refs) is Some,
    ensures
        sym.ref_ids(fuel, refs.take(k)) is Some,
    decreases refs.len(),
{
    if k < refs.len() {
        lemma_ref_ids_prefix(sym, fuel, refs.drop_last(), k);
        assert(refs.drop_last().take(k) =~= refs.take(k));
    } else {
        assert(refs.take(k) =~= refs);
    }
}

/// All references that are had are as many as were asked for.
pub proof fn lemma_ref_ids_len(sym: SymbolicView, fuel: nat, refs: Seq<FqnView>)
    requires
        sym.ref_ids(fuel, refs) is Some,
    ensures
        sym.ref_ids(fuel, refs)->Some_0.len() == refs.len(),
    decreases refs.len(),
{
    if refs.len() > 0 {
        lemma_ref_ids_len(sym, fuel, refs.drop_last());
    }
}

/// Where no declaration from `from` on has a fault, the one at `at` has none.
pub proof fn lemma_no_fault(sym: SymbolicView, from: int, at: int)
    requires
        0 <= from <= at < sym.types.len(),
        sym.first_fault(from) is None,
    ensures
        sym.symbol_fault(at) is None,
    decreases at - from,
{
    if from < at {
        lemma_no_fault(sym, from + 1, at);
    }
}

/// Where no declaration from `from` on is cyclic, the one at `at` is not.
pub proof fn lemma_not_cyclic(sym: SymbolicView, from: int, at: int)
    requires
        0 <= from <= at < sym.types.len(),
        sym.first_cyclic(from) is None,
    ensures
        sym.symbol_id(sym.types.len(), at) is Some,
    decreases at - from,
{
    if from < at {
        lemma_not_cyclic(sym, from + 1, at);
    }
}

impl SymbolicLib {
    /// The identity of what `fqn` names, as `known` has it for the
    /// declarations of this library.
    fn resolve(&self, known: &Vec<Option<SemId>>, fuel: Ghost<nat>, fqn: &TypeFqn) -> (res: Option<
        SemId,
    >)
        requires
            knows_ids(self@, known@, fuel@),
        ensures
            opt_view(res) == self@.ref_id(fuel@, fqn@),
    {
        if fqn.lib.same(&self.name) {
            match self.position(&fqn.name) {
                Some(at) => known[at],
                None => None,
            }
        } else {
            self.imported(fqn)
        }
    }

    /// The identities of all that `ty` refers to, as `known` has them.
    fn resolve_all(&self, known: &Vec<Option<SemId>>, fuel: Ghost<nat>, ty: &Ty<TypeFqn>) -> (res:
        Option<Vec<SemId>>)
        requires
            knows_ids(self@, known@, fuel@),
        ensures
            match res {
                Some(ids) => self@.ref_ids(fuel@, ty@.refs()) == Some(id_views(ids@)),
                None => self@.ref_ids(fuel@, ty@.refs()) is None,
            },
    {
        let refs = ty.refs();
        let ghost names = ty@.refs();
        let mut out: Vec<SemId> = Vec::new();
        let mut k: usize = 0;
        assert(names.take(0) =~= Seq::<FqnView>::empty());
        assert(id_views(out@) =~= Seq::<Seq<u8>>::empty());
        while k < refs.len()
            invariant
                0 <= k <= refs.len(),
                knows_ids(self@, known@, fuel@),
                names == ty@.refs(),
                refs@.len() == names.len(),
                forall|j: int| 0 <= j < refs@.len() ==> (#[trigger] refs@[j])@ == names[j],
                self@.ref_ids(fuel@, names.take(k as int)) == Some(id_views(out@)),
            decreases refs.len() - k,
        {
            let ghost before = id_views(out@);
            proof {
                assert(names.take(k + 1).drop_last() =~= names.take(k as int));
                assert(names.take(k + 1).last() == names[k as int]);
            }
            match self.resolve(known, fuel, refs[k]) {
                Some(id) => {
                    out.push(id);
                    assert(id_views(out@) =~= before.push(id@));
                },
                None => {
                    proof {
                        if self@.ref_ids(fuel@, names) is Some {
                            lemma_ref_ids_prefix(self@, fuel@, names, k + 1);
                        }
                    }
                    return None;
                },
            }
            k = k + 1;
        }
        assert(names.take(k as int) =~= names);
        Some(out)
    }

    /// The compiled form of the declaration at `at` and its identity, as they
    /// follow from what `known` has for the declarations it refers to.
    fn compile_one(&self, known: &Vec<Option<SemId>>, fuel: Ghost<nat>, at: usize) -> (res: Option<
        (SemId, Ty<SemId>),
    >)
        requires
            knows_ids(self@, known@, fuel@),
            at < self@.types.len(),
            self@.types[at as int].ty.wf(),
        ensures
            match res {
                Some((id, ty)) => {
                    &&& self@.symbol_ty(fuel@ + 1, at as int) == Some(ty@)
                    &&& self@.symbol_id(fuel@ + 1, at as int) == Some(id@)
                    &&& ty@.wf()
                },
                None => self@.symbol_id(fuel@ + 1, at as int) is None,
            },
    {
        let decl = &self.types[at];
        assert(self@.types[at as int] == decl@);
        match self.resolve_all(known, fuel, &decl.ty) {
            Some(ids) => {
                proof {
                    lemma_ref_ids_len(self@, fuel@, decl@.ty.refs());
                    crate::ty::lemma_replace_refs(decl@.ty, id_views(ids@));
                    assert(ids@.map_values(|r: SemId| r@) =~= id_views(ids@));
                }
                let ty = decl.ty.map_refs(&ids);
                match ty.sem_id() {
                    Some(id) => Some((id, ty)),
                    None => None,
                }
            },
            None => None,
        }
    }
}

/// Why a symbolic library does not compile.
#[derive(Clone, Debug)]
pub enum CompileError {
    /// A declaration has a fault of its own.
    Invalid(TranspileError),
    /// The declaration of this name holds itself, directly or through other
    /// declarations of the library, by direct composition alone: in arrays,
    /// tuples, structures and unions.
    Cyclic(TypeName),
    /// Two declarations have this semantic identity and differ in structure.
    Collision(SemId),
    /// The library would hold more than `MAX_TYPES` types.
    TooManyTypes,
}

/// The identities of the dependencies, in their order.
pub open spec fn dependency_ids(deps: Seq<DependencyView>) -> Seq<Seq<u8>> {
    Seq::new(deps.len(), |i: int| deps[i].id)
}

/// The views of a row of exports.
pub open spec fn export_views(exports: Seq<Export>) -> Seq<ExportView> {
    Seq::new(exports.len(), |i: int| exports[i]@)
}

/// What a library commits to: its name, how many libraries it depends on
/// and their identities in the order they were declared, how many types it
/// holds and their identities in ascending order.
pub open spec fn lib_commitment(name: Seq<char>, deps: Seq<Seq<u8>>, ids: Seq<Seq<u8>>) -> Seq<u8> {
    encode_name(name) + encode_u16((deps.len() % 65536) as u16) + encode_members(deps) + encode_u24(
        ids.len(),
    ) + encode_members(ids)
}

/// A compiled library: its types refer to each other, and to the types of
/// the libraries it depends on, by semantic identity.
#[derive(Debug)]
pub struct TypeLib {
    name: LibName,
    dependencies: Vec<TypeLibId>,
    exports: Vec<Export>,
    types: TypeMap,
}

impl TypeLib {
    /// The name of the library.
    pub closed spec fn spec_name(self) -> Seq<char> {
        self.name@
    }

    /// The identities of the libraries that the library depends on.
    pub closed spec fn dependencies(self) -> Seq<Seq<u8>> {
        crate::typesys::lib_views(self.dependencies@)
    }

    /// What the library offers: the names it declares, each with the
    /// semantic identity of its type.
    pub closed spec fn exports(self) -> Seq<ExportView> {
        export_views(self.exports@)
    }

    /// The types of the library, each under the bytes of its identity.
    pub closed spec fn types(self) -> Map<Seq<u8>, Ty<SemId>> {
        type_map(self.types)
    }

    /// The library is what `sym` compiles to.
    pub open spec fn is_compiled_from(self, sym: SymbolicView) -> bool {
        &&& self.spec_name() == sym.name
        &&& self.dependencies() == dependency_ids(sym.dependencies)
        &&& self.exports() == sym.exports()
        &&& self.types().dom() == sym.ids_before(sym.types.len() as int)
        &&& forall|i: int|
            0 <= i < sym.types.len() ==> self.types()[#[trigger] sym.id_at(i)]@ == sym.ty_at(i)
    }

    /// The identity of the library.
    pub open spec fn spec_id(self) -> Seq<u8> {
        tagged_hash(
            lib_id_tag(),
            lib_commitment(self.spec_name(), self.dependencies(), id_row(self.types().dom())),
        )
    }

    /// The name of the library.
    pub fn name(&self) -> (res: &LibName)
        ensures
            res@ == self.spec_name(),
    {
        &self.name
    }

    /// The identities of the libraries that the library depends on, in the
    /// order in which they were declared.
    pub fn dependency_ids(&self) -> (res: &Vec<TypeLibId>)
        ensures
            crate::typesys::lib_views(res@) == self.dependencies(),
    {
        &self.dependencies
    }

    /// The number of types in the library.
    pub fn count_types(&self) -> (res: usize)
        ensures
            holds_count(self.types(), res as nat),
            res <= MAX_TYPES,
    {
        self.types.len()
    }

    /// The type under `sem_id`, if the library holds one.
    pub fn get(&self, sem_id: SemId) -> (res: Option<&Ty<SemId>>)
        ensures
            res == match found(self.types(), sem_id@) {
                Some(ty) => Some(&ty),
                None => None,
            },
    {
        let key = sem_id.to_byte_array();
        self.types.get(&key)
    }

    /// The semantic identity of the type that the library declares as `name`.
    pub fn find(&self, name: &TypeName) -> (res: Option<SemId>)
        ensures
            opt_view(res) == find_export(self.exports(), name@, 0),
    {
        let ghost exports = self.exports();
        let mut i: usize = 0;
        while i < self.exports.len()
            invariant
                0 <= i <= self.exports.len(),
                exports == self.exports(),
                find_export(exports, name@, 0) == find_export(exports, name@, i as int),
            decreases self.exports.len() - i,
        {
            if self.exports[i].name.same(name) {
                return Some(self.exports[i].id);
            }
            i = i + 1;
        }
        None
    }

    /// The semantic identity of the type that a recursive reference refers
    /// to: that of the first declaration of the library whose fully
    /// qualified name has the identity `link`, which the reference holds.
    pub fn follow(&self, link: &SemId) -> (res: Option<SemId>)
        ensures
            opt_view(res) == find_link(self.spec_name(), self.exports(), link@, 0),
    {
        let ghost exports = self.exports();
        let ghost lib = self.spec_name();
        let mut i: usize = 0;
        while i < self.exports.len()
            invariant
                0 <= i <= self.exports.len(),
                exports == self.exports(),
                lib == self.spec_name(),
                find_link(lib, exports, link@, 0) == find_link(lib, exports, link@, i as int),
            decreases self.exports.len() - i,
        {
            let fqn = TypeFqn::with(self.name.clone(), self.exports[i].name.clone());
            if fqn.link().same(link) {
                return Some(self.exports[i].id);
            }
            i = i + 1;
        }
        None
    }

    /// The identities of the types of the library, in ascending order.
    pub fn ids(&self) -> (res: Vec<SemId>)
        ensures
            id_views(res@) == id_row(self.types().dom()),
            lists_keys(self.types(), id_views(res@)),
    {
        let keys = self.types.keys();
        let mut out: Vec<SemId> = Vec::new();
        let mut i: usize = 0;
        while i < keys.len()
            invariant
                0 <= i <= keys.len(),
                out@.len() == i,
                forall|j: int| 0 <= j < i ==> (#[trigger] out@[j])@ == keys@[j]@,
            decreases keys.len() - i,
        {
            out.push(SemId::from_byte_array(keys[i]));
            i = i + 1;
        }
        proof {
            assert(id_views(out@) =~= crate::typesys::key_views(keys@));
            crate::id::lemma_sorted_unique(
                crate::typesys::key_views(keys@),
                id_row(self.types().dom()),
            );
        }
        out
    }

    /// The library as others depend on it: its name, its identity, and what
    /// it offers.
    pub fn to_dependency(&self) -> (res: Dependency)
        ensures
            res@.name == self.spec_name(),
            res@.id == self.spec_id(),
            res@.types == self.exports(),
    {
        let mut types: Vec<Export> = Vec::new();
        let mut i: usize = 0;
        while i < self.exports.len()
            invariant
                0 <= i <= self.exports.len(),
                types@.len() == i,
                forall|j: int| 0 <= j < i ==> (#[trigger] types@[j])@ == self.exports@[j]@,
            decreases self.exports.len() - i,
        {
            types.push(Export { name: self.exports[i].name.clone(), id: self.exports[i].id });
            i = i + 1;
        }
        let res = Dependency { name: self.name.clone(), id: self.id(), types };
        assert(res@.types =~= self.exports());
        res
    }

    /// The identity of the library: the hash, under the tag for libraries, of
    /// what the library commits to.
    pub fn id(&self) -> (res: TypeLibId)
        ensures
            res@ == self.spec_id(),
    {
        let ghost deps = self.dependencies();
        let mut out: Vec<u8> = Vec::new();
        self.name.encode_into(&mut out);
        let count = self.dependencies.len();
        out.push(((count % 65536) % 256) as u8);
        out.push(((count % 65536) / 256) as u8);
        let ghost head = out@;
        assert(head =~= encode_name(self.spec_name()) + encode_u16((deps.len() % 65536) as u16));
        let mut i: usize = 0;
        while i < self.dependencies.len()
            invariant
                0 <= i <= self.dependencies.len(),
                deps == self.dependencies(),
                out@ == head + encode_members(deps.take(i as int)),
            decreases self.dependencies.len() - i,
        {
            assert(deps.take(i + 1).drop_last() =~= deps.take(i as int));
            let bytes = self.dependencies[i].to_byte_array();
            append_array(&mut out, &bytes);
            i = i + 1;
        }
        assert(deps.take(i as int) =~= deps);
        let sem_ids = self.ids();
        let ghost ids = id_views(sem_ids@);
        let n = sem_ids.len();
        out.push((n % 256) as u8);
        out.push(((n / 256) % 256) as u8);
        out.push(((n / 65536) % 256) as u8);
        let ghost middle = out@;
        assert(middle =~= head + encode_members(deps) + encode_u24(ids.len()));
        let mut k: usize = 0;
        while k < sem_ids.len()
            invariant
                0 <= k <= sem_ids.len(),
                ids == id_views(sem_ids@),
                out@ == middle + encode_members(ids.take(k as int)),
            decreases sem_ids.len() - k,
        {
            assert(ids.take(k + 1).drop_last() =~= ids.take(k as int));
            let bytes = sem_ids[k].to_byte_array();
            append_array(&mut out, &bytes);
            k = k + 1;
        }
        assert(ids.take(k as int) =~= ids);
        assert(out@ =~= lib_commitment(self.spec_name(), deps, ids));
        TypeLibId::of_content(out.as_slice())
    }
}

/// The identities before `upto + 1` are those before `upto` and that of the
/// declaration at `upto`.
pub proof fn lemma_ids_before_next(sym: SymbolicView, upto: int)
    requires
        0 <= upto,
    ensures
        sym.ids_before(upto + 1) == sym.ids_before(upto).insert(sym.id_at(upto)),
        forall|i: int| 0 <= i < upto ==> sym.ids_before(upto).contains(#[trigger] sym.id_at(i)),
{
    assert forall|id: Seq<u8>| sym.ids_before(upto + 1).contains(id) <==> sym.ids_before(
        upto,
    ).insert(sym.id_at(upto)).contains(id) by {
        if sym.ids_before(upto + 1).contains(id) {
            let i = choose|i: int| 0 <= i < upto + 1 && #[trigger] sym.id_at(i) == id;
            if i < upto {
                assert(sym.ids_before(upto).contains(id));
            }
        }
        if sym.ids_before(upto).contains(id) {
            let i = choose|i: int| 0 <= i < upto && #[trigger] sym.id_at(i) == id;
            assert(sym.id_at(i) == id);
        }
        if id == sym.id_at(upto) {
            assert(sym.id_at(upto) == id);
        }
    }
    assert(sym.ids_before(upto + 1) =~= sym.ids_before(upto).insert(sym.id_at(upto)));
}

impl SymbolicView {
    /// What compiling the library as it stands gives: the library that it
    /// compiles to, where no declaration has a fault of its own, none refers
    /// to itself, directly or through others, and each can join those before
    /// it; else the error that tells the first of these that fails.
    pub open spec fn plainly(self, res: Result<TypeLib, CompileError>) -> bool {
        match res {
            Ok(lib) => {
                &&& self.first_fault(0) is None
                &&& self.first_cyclic(0) is None
                &&& self.first_assembly_fault(0) is None
                &&& lib.is_compiled_from(self)
            },
            Err(CompileError::Invalid(e)) => self.first_fault(0) == Some(e@),
            Err(CompileError::Cyclic(name)) => {
                &&& self.first_fault(0) is None
                &&& self.first_cyclic(0) matches Some(at) && self.types[at].name == name@
            },
            Err(CompileError::Collision(id)) => {
                &&& self.first_fault(0) is None
                &&& self.first_cyclic(0) is None
                &&& self.first_assembly_fault(0) == Some(AssemblyFault::Collision(id@))
            },
            Err(CompileError::TooManyTypes) => {
                &&& self.first_fault(0) is None
                &&& self.first_cyclic(0) is None
                &&& self.first_assembly_fault(0) == Some(AssemblyFault::TooManyTypes)
            },
        }
    }
}

impl SymbolicView {
    /// The declaration at `at` is loose: its identity cannot be had by
    /// taking the declarations each after those it refers to, because it
    /// refers to itself, directly or through others, or to one that does.
    pub open spec fn is_loose(self, at: int) -> bool {
        self.symbol_id(self.types.len(), at) is None
    }

    /// `fqn` names a loose declaration of this library.
    pub open spec fn names_loose(self, fqn: FqnView) -> bool {
        fqn.lib == self.name && match find_symbol(self.types, fqn.name, 0) {
            Some(at) => self.is_loose(at),
            None => false,
        }
    }

    /// The name under which this library declares the recursive reference
    /// to the type named `fqn`.
    pub open spec fn link_fqn(self, fqn: FqnView) -> FqnView {
        FqnView { lib: self.name, name: auto_name(link_id(fqn)) }
    }

    /// What a list, a set, a map or an optional refers to in place of
    /// `fqn`: the recursive reference to it where it names a loose
    /// declaration, else `fqn` itself.
    pub open spec fn loosened_ref(self, fqn: FqnView) -> FqnView {
        if self.names_loose(fqn) {
            self.link_fqn(fqn)
        } else {
            fqn
        }
    }

    /// The type `ty` with every loose declaration that it holds in a list,
    /// a set, a map or an optional replaced by the recursive reference to
    /// it. What a type holds directly (in an array, a tuple, a structure or
    /// a union) stays.
    pub open spec fn loosened(self, ty: TyView<FqnView>) -> TyView<FqnView> {
        match ty {
            TyView::List(item, sizing) => TyView::List(self.loosened_ref(item), sizing),
            TyView::SetOf(item, sizing) => TyView::SetOf(self.loosened_ref(item), sizing),
            TyView::MapOf(key, value, sizing) => TyView::MapOf(
                self.loosened_ref(key),
                self.loosened_ref(value),
                sizing,
            ),
            TyView::Optional(item) => TyView::Optional(self.loosened_ref(item)),
            _ => ty,
        }
    }

    /// The declarations of the library, each with its type loosened.
    pub open spec fn loosened_symbols(self) -> Seq<SymbolView> {
        Seq::new(
            self.types.len(),
            |i: int| SymbolView { name: self.types[i].name, ty: self.loosened(self.types[i].ty) },
        )
    }

    /// The declaration of the recursive reference to the declaration at
    /// `at`: it holds the identity of the fully qualified name of that
    /// declaration and is named after that identity.
    pub open spec fn link_symbol(self, at: int) -> SymbolView {
        let fqn = FqnView { lib: self.name, name: self.types[at].name };
        SymbolView { name: auto_name(link_id(fqn)), ty: TyView::Recursive(link_id(fqn)) }
    }

    /// The recursive references to the loose declarations before `upto`, in
    /// the order of those declarations.
    pub open spec fn links(self, upto: int) -> Seq<SymbolView>
        decreases upto,
    {
        if upto <= 0 {
            Seq::empty()
        } else if self.is_loose(upto - 1) {
            self.links(upto - 1).push(self.link_symbol(upto - 1))
        } else {
            self.links(upto - 1)
        }
    }

    /// The library with its cycles unfolded: every loose declaration that a
    /// list, a set, a map or an optional holds is replaced there by the
    /// recursive reference to it, and those recursive references are
    /// declared behind the declarations of the library. What is left of a
    /// cycle then goes through direct compositions only.
    pub open spec fn unfolded(self) -> SymbolicView {
        SymbolicView {
            name: self.name,
            dependencies: self.dependencies,
            types: self.loosened_symbols() + self.links(self.types.len() as int),
        }
    }

    /// What compiling the library gives. A library without a fault and
    /// without a cycle compiles as it stands, and so does the error of one
    /// with a fault; a library with a cycle compiles with its cycles
    /// unfolded, and is `Cyclic` only where a cycle of direct compositions
    /// is left.
    pub open spec fn compiles_to(self, res: Result<TypeLib, CompileError>) -> bool {
        if self.first_fault(0) is Some || self.first_cyclic(0) is None {
            self.plainly(res)
        } else {
            self.unfolded().plainly(res)
        }
    }
}

impl SymbolicLib {
    /// For each declaration its semantic identity, where it can be had by
    /// taking the declarations each after those it refers to.
    fn identify(&self) -> (known: Vec<Option<SemId>>)
        requires
            self@.first_fault(0) is None,
        ensures
            knows_ids(self@, known@, self@.types.len()),
    {
        let ghost sym = self@;
        let n = self.types.len();
        let mut known: Vec<Option<SemId>> = Vec::new();
        let mut i: usize = 0;
        while i < n
            invariant
                0 <= i <= n,
                known@.len() == i,
                forall|j: int| 0 <= j < i ==> (#[trigger] known@[j]) is None,
            decreases n - i,
        {
            known.push(None);
            i = i + 1;
        }
        let mut round: usize = 0;
        let mut all = n == 0;
        while round < n && !all
            invariant
                0 <= round <= n,
                n == sym.types.len(),
                sym == self@,
                sym.first_fault(0) is None,
                knows_ids(sym, known@, round as nat),
                all ==> forall|j: int| 0 <= j < n ==> (#[trigger] known@[j]) is Some,
            decreases n - round,
        {
            let mut next: Vec<Option<SemId>> = Vec::new();
            let mut complete = true;
            let mut at: usize = 0;
            while at < n
                invariant
                    0 <= at <= n,
                    0 <= round < n,
                    n == sym.types.len(),
                    sym == self@,
                    sym.first_fault(0) is None,
                    knows_ids(sym, known@, round as nat),
                    next@.len() == at,
                    forall|j: int|
                        0 <= j < at ==> opt_view(#[trigger] next@[j]) == sym.symbol_id(
                            (round + 1) as nat,
                            j,
                        ),
                    complete ==> forall|j: int| 0 <= j < at ==> (#[trigger] next@[j]) is Some,
                decreases n - at,
            {
                proof {
                    lemma_no_fault(sym, 0, at as int);
                }
                match self.compile_one(&known, Ghost(round as nat), at) {
                    Some((id, _)) => {
                        next.push(Some(id));
                    },
                    None => {
                        next.push(None);
                        complete = false;
                    },
                }
                at = at + 1;
            }
            known = next;
            all = complete;
            round = round + 1;
        }
        proof {
            lemma_more_fuel(sym, round as nat, n as nat);
            assert forall|j: int| 0 <= j < known@.len() implies opt_view(#[trigger] known@[j])
                == sym.symbol_id(n as nat, j) by {
                if known@[j] is None {
                    assert(!all);
                } else {
                    assert(sym.symbol_id(round as nat, j) is Some);
                }
            }
        }
        known
    }

    /// Whether `fqn` names a loose declaration of this library.
    fn names_loose(&self, known: &Vec<Option<SemId>>, fqn: &TypeFqn) -> (res: bool)
        requires
            knows_ids(self@, known@, self@.types.len()),
        ensures
            res == self@.names_loose(fqn@),
    {
        if !fqn.lib.same(&self.name) {
            return false;
        }
        match self.position(&fqn.name) {
            Some(at) => known[at].is_none(),
            None => false,
        }
    }

    /// What a list, a set, a map or an optional refers to in place of
    /// `fqn`.
    fn loosen_ref(&self, known: &Vec<Option<SemId>>, fqn: &TypeFqn) -> (res: TypeFqn)
        requires
            knows_ids(self@, known@, self@.types.len()),
        ensures
            res@ == self@.loosened_ref(fqn@),
    {
        if self.names_loose(known, fqn) {
            let link = fqn.link().to_byte_array();
            TypeFqn::with(self.name.clone(), Ident::auto(&link))
        } else {
            fqn.clone()
        }
    }

    /// The type `ty` loosened, where that is another type than `ty`.
    fn patch(&self, known: &Vec<Option<SemId>>, ty: &Ty<TypeFqn>) -> (res: Option<Ty<TypeFqn>>)
        requires
            knows_ids(self@, known@, self@.types.len()),
        ensures
            match res {
                Some(patched) => patched@ == self@.loosened(ty@),
                None => self@.loosened(ty@) == ty@,
            },
    {
        match ty {
            Ty::List(item, sizing) => Some(Ty::List(self.loosen_ref(known, item), *sizing)),
            Ty::SetOf(item, sizing) => Some(Ty::SetOf(self.loosen_ref(known, item), *sizing)),
            Ty::MapOf(key, value, sizing) => Some(
                Ty::MapOf(self.loosen_ref(known, key), self.loosen_ref(known, value), *sizing),
            ),
            Ty::Optional(item) => Some(Ty::Optional(self.loosen_ref(known, item))),
            _ => None,
        }
    }

    /// The library with its cycles unfolded.
    fn unfold(self, known: &Vec<Option<SemId>>) -> (res: SymbolicLib)
        requires
            knows_ids(self@, known@, self@.types.len()),
        ensures
            res@ == self@.unfolded(),
    {
        let ghost sym = self@;
        let ghost target = sym.loosened_symbols();
        let n = self.types.len();
        let mut patches: Vec<Option<Ty<TypeFqn>>> = Vec::new();
        let mut links: Vec<TypeSymbol> = Vec::new();
        let mut i: usize = 0;
        assert(links@.map_values(|t: TypeSymbol| t@) =~= sym.links(0));
        while i < n
            invariant
                0 <= i <= n,
                n == self.types@.len(),
                sym == self@,
                knows_ids(sym, known@, n as nat),
                patches@.len() == i,
                forall|j: int|
                    0 <= j < i ==> match #[trigger] patches@[j] {
                        Some(patched) => patched@ == sym.loosened(sym.types[j].ty),
                        None => sym.loosened(sym.types[j].ty) == sym.types[j].ty,
                    },
                links@.map_values(|t: TypeSymbol| t@) == sym.links(i as int),
            decreases n - i,
        {
            let decl = &self.types[i];
            assert(sym.types[i as int] == decl@);
            let patched = self.patch(known, &decl.ty);
            patches.push(patched);
            if known[i].is_none() {
                let fqn = TypeFqn::with(self.name.clone(), decl.name.clone());
                let link = fqn.link();
                let bytes = link.to_byte_array();
                let ghost before = links@.map_values(|t: TypeSymbol| t@);
                let node = TypeSymbol { name: Ident::auto(&bytes), ty: Ty::Recursive(link) };
                assert(node@ == sym.link_symbol(i as int));
                links.push(node);
                assert(links@.map_values(|t: TypeSymbol| t@) =~= before.push(node@));
            }
            i = i + 1;
        }
        let ghost first = self.types@;
        let ghost all = patches@;
        let SymbolicLib { name, dependencies, types } = self;
        let mut types = types;
        let mut back: Vec<TypeSymbol> = Vec::new();
        while types.len() > 0
            invariant
                types@.len() <= n,
                n == first.len(),
                target.len() == n,
                types@ == first.take(types@.len() as int),
                patches@ == all.take(types@.len() as int),
                all.len() == n,
                back@.len() == n - types@.len(),
                forall|j: int|
                    0 <= j < n ==> match #[trigger] all[j] {
                        Some(patched) => patched@ == target[j].ty,
                        None => target[j].ty == first[j]@.ty,
                    },
                forall|j: int| 0 <= j < n ==> (#[trigger] target[j]).name == first[j]@.name,
                forall|k: int| 0 <= k < back@.len() ==> (#[trigger] back@[k])@ == target[n - 1 - k],
            decreases types@.len(),
        {
            let ghost at = types@.len() - 1;
            let decl = match types.pop() {
                Some(decl) => decl,
                None => vstd::pervasive::unreached(),
            };
            let patched = match patches.pop() {
                Some(patched) => patched,
                None => vstd::pervasive::unreached(),
            };
            assert(decl == first[at]);
            assert(patched == all[at]);
            let ty = match patched {
                Some(ty) => ty,
                None => decl.ty,
            };
            let moved = TypeSymbol { name: decl.name, ty };
            assert(moved@ == target[at]);
            back.push(moved);
            assert(types@ =~= first.take(types@.len() as int));
            assert(patches@ =~= all.take(types@.len() as int));
        }
        let mut out: Vec<TypeSymbol> = Vec::new();
        while back.len() > 0
            invariant
                out@.len() + back@.len() == n,
                target.len() == n,
                forall|k: int| 0 <= k < back@.len() ==> (#[trigger] back@[k])@ == target[n - 1 - k],
                forall|k: int| 0 <= k < out@.len() ==> (#[trigger] out@[k])@ == target[k],
            decreases back@.len(),
        {
            let moved = match back.pop() {
                Some(moved) => moved,
                None => vstd::pervasive::unreached(),
            };
            out.push(moved);
        }
        let ghost nodes = links@;
        out.append(&mut links);
        let res = SymbolicLib { name, dependencies, types: out };
        assert(res@.types =~= sym.unfolded().types) by {
            assert forall|k: int| 0 <= k < res@.types.len() implies res@.types[k]
                == sym.unfolded().types[k] by {
                if k >= n {
                    assert(res@.types[k] == nodes.map_values(|t: TypeSymbol| t@)[k - n]);
                }
            }
        }
        res
    }

    /// Compiles the library: replaces every name by the semantic identity of
    /// the type it names, a declaration after those it refers to, in whatever
    /// order they were declared. A type may hold itself in a list, a set, a
    /// map or an optional, itself or through others: what is held there is
    /// then a recursive reference, which is declared in the library.
    ///
    /// The first declaration with a fault of its own makes it `Invalid`;
    /// else the first declaration that holds itself through direct
    /// compositions alone makes it `Cyclic`; else the first declaration that
    /// cannot join those before it makes it a `Collision` or `TooManyTypes`.
    /// A recursive reference is declared under the name that `Ident::auto`
    /// makes of the identity it holds; where the library has a declaration
    /// of that name already, the recursive reference is a `DuplicateName`.
    pub fn compile(self) -> (res: Result<TypeLib, CompileError>)
        ensures
            self@.compiles_to(res),
    {
        let ghost sym = self@;
        match self.check() {
            Err(e) => {
                return Err(CompileError::Invalid(e));
            },
            Ok(()) => {},
        }
        let n = self.types.len();
        let known = self.identify();
        let mut at: usize = 0;
        while at < n
            invariant
                0 <= at <= n,
                n == sym.types.len(),
                sym == self@,
                sym.first_fault(0) is None,
                knows_ids(sym, known@, n as nat),
                forall|j: int| 0 <= j < at ==> (#[trigger] known@[j]) is Some,
            decreases n - at,
        {
            if known[at].is_none() {
                proof {
                    if sym.first_cyclic(0) is None {
                        lemma_not_cyclic(sym, 0, at as int);
                    }
                }
                let unfolded = self.unfold(&known);
                return unfolded.compile_plain();
            }
            at = at + 1;
        }
        proof {
            assert forall|i: int| 0 <= i < sym.types.len() implies (#[trigger] sym.symbol_id(
                sym.types.len(),
                i,
            )) is Some by {
                assert(known@[i] is Some);
            }
            lemma_none_cyclic(sym, 0);
        }
        self.compile_plain()
    }

    /// Compiles the library as it stands: replaces every name by the
    /// semantic identity of the type it names, a declaration after those it
    /// refers to, in whatever order they were declared.
    ///
    /// The first declaration with a fault of its own makes it `Invalid`;
    /// else the first declaration that refers to itself, directly or through
    /// others, makes it `Cyclic`; else the first declaration that cannot join
    /// those before it makes it a `Collision` or `TooManyTypes`.
    fn compile_plain(&self) -> (res: Result<TypeLib, CompileError>)
        ensures
            self@.plainly(res),
    {
        let ghost sym = self@;
        match self.check() {
            Err(e) => {
                return Err(CompileError::Invalid(e));
            },
            Ok(()) => {},
        }
        let n = self.types.len();
        let known = self.identify();
        // the first declaration left without an identity is cyclic
        let mut at: usize = 0;
        while at < n
            invariant
                0 <= at <= n,
                n == sym.types.len(),
                sym == self@,
                knows_ids(sym, known@, n as nat),
                sym.first_fault(0) is None,
                sym.first_cyclic(0) == sym.first_cyclic(at as int),
            decreases n - at,
        {
            if known[at].is_none() {
                assert(sym.types[at as int] == self.types@[at as int]@);
                return Err(CompileError::Cyclic(self.types[at].name.clone()));
            }
            assert(sym.symbol_id(n as nat, at as int) is Some);
            at = at + 1;
        }
        let mut types = TypeMap::new();
        let mut exports: Vec<Export> = Vec::new();
        let mut at: usize = 0;
        proof {
            assert(sym.ids_before(0) =~= Set::<Seq<u8>>::empty());
            assert(type_map(types).dom() =~= sym.ids_before(0));
        }
        while at < n
            invariant
                0 <= at <= n,
                n == sym.types.len(),
                sym == self@,
                sym.first_fault(0) is None,
                sym.first_cyclic(0) is None,
                knows_ids(sym, known@, n as nat),
                type_map(types).dom() == sym.ids_before(at as int),
                forall|i: int|
                    0 <= i < at ==> type_map(types)[#[trigger] sym.id_at(i)]@ == sym.ty_at(i),
                sym.first_assembly_fault(0) == sym.first_assembly_fault(at as int),
                exports@.len() == at,
                forall|i: int|
                    0 <= i < at ==> (#[trigger] exports@[i])@ == (ExportView {
                        name: sym.types[i].name,
                        id: sym.id_at(i),
                    }),
            decreases n - at,
        {
            let ghost before = type_map(types);
            proof {
                lemma_no_fault(sym, 0, at as int);
                lemma_not_cyclic(sym, 0, at as int);
                lemma_more_fuel(sym, n as nat, (n + 1) as nat);
                lemma_ids_before_next(sym, at as int);
                assert(sym.symbol_ty(n as nat, at as int) is Some);
            }
            let (id, ty) = match self.compile_one(&known, Ghost(n as nat), at) {
                Some(pair) => pair,
                None => vstd::pervasive::unreached(),
            };
            assert(id@ == sym.id_at(at as int));
            assert(ty@ == sym.ty_at(at as int));
            let key = id.to_byte_array();
            let present = match types.get(&key) {
                Some(existing) => Some(existing.same(&ty)),
                None => None,
            };
            match present {
                Some(same) => {
                    let ghost i = choose|i: int| 0 <= i < at && #[trigger] sym.id_at(i) == id@;
                    assert(sym.id_at(i) == id@);
                    assert(before[id@]@ == sym.ty_at(i));
                    if !same {
                        assert(sym.ty_at(i) != sym.ty_at(at as int));
                        return Err(CompileError::Collision(id));
                    }
                    proof {
                        assert(sym.assembly_fault(at as int) is None);
                        assert(sym.ids_before(at + 1) =~= sym.ids_before(at as int));
                    }
                },
                None => {
                    proof {
                        assert forall|i: int| 0 <= i < at implies #[trigger] sym.id_at(i) != id@ by {
                            assert(sym.ids_before(at as int).contains(sym.id_at(i)));
                        }
                    }
                    match types.insert(key, ty) {
                        Ok(_) => {},
                        Err(_) => {
                            return Err(CompileError::TooManyTypes);
                        },
                    }
                    proof {
                        assert(sym.assembly_fault(at as int) is None);
                        assert(type_map(types).dom() =~= sym.ids_before(at + 1));
                    }
                },
            }
            assert(sym.types[at as int] == self.types@[at as int]@);
            exports.push(Export { name: self.types[at].name.clone(), id });
            at = at + 1;
        }
        let mut dependencies: Vec<TypeLibId> = Vec::new();
        let mut d: usize = 0;
        while d < self.dependencies.len()
            invariant
                0 <= d <= self.dependencies.len(),
                dependencies@.len() == d,
                forall|j: int| 0 <= j < d ==> (#[trigger] dependencies@[j])@ == self.dependencies@[j].id@,
            decreases self.dependencies.len() - d,
        {
            dependencies.push(self.dependencies[d].id);
            d = d + 1;
        }
        let lib = TypeLib { name: self.name.clone(), dependencies, exports, types };
        proof {
            assert(lib.dependencies() =~= dependency_ids(sym.dependencies));
            assert(lib.exports() =~= sym.exports());
        }
        Ok(lib)
    }
}

/// Declarations on their way to a library.
#[derive(Clone, Debug)]
pub struct LibBuilder {
    name: LibName,
    dependencies: Vec<Dependency>,
    types: Vec<TypeSymbol>,
}

impl View for LibBuilder {
    type V = SymbolicView;

    closed spec fn view(&self) -> SymbolicView {
        SymbolicView {
            name: self.name@,
            dependencies: self.dependencies@.map_values(|d: Dependency| d@),
            types: self.types@.map_values(|t: TypeSymbol| t@),
        }
    }
}

impl LibBuilder {
    /// A builder for the library `name`, which depends on `dependencies`
    /// and declares nothing yet.
    pub fn new(name: LibName, dependencies: Vec<Dependency>) -> (res: LibBuilder)
        ensures
            res@.name == name@,
            res@.dependencies == dependencies@.map_values(|d: Dependency| d@),
            res@.types == Seq::<SymbolView>::empty(),
    {
        let res = LibBuilder { name, dependencies, types: Vec::new() };
        assert(res@.types =~= Seq::<SymbolView>::empty());
        res
    }

    /// Declares `ty` under `name`, after what is declared already.
    pub fn transpile(self, name: TypeName, ty: Ty<TypeFqn>) -> (res: LibBuilder)
        ensures
            res@.name == self@.name,
            res@.dependencies == self@.dependencies,
            res@.types == self@.types.push(SymbolView { name: name@, ty: ty@ }),
    {
        let mut types = self.types;
        types.push(TypeSymbol { name, ty });
        let res = LibBuilder { name: self.name, dependencies: self.dependencies, types };
        assert(res@.types =~= self@.types.push(SymbolView { name: name@, ty: ty@ }));
        res
    }

    /// The symbolic library of what is declared, where no declaration has a
    /// fault of its own; else the fault of the first that has one.
    pub fn compile_symbols(self) -> (res: Result<SymbolicLib, TranspileError>)
        ensures
            match res {
                Ok(lib) => self@.first_fault(0) is None && lib@ == self@,
                Err(e) => self@.first_fault(0) == Some(e@),
            },
    {
        let lib = SymbolicLib { name: self.name, dependencies: self.dependencies, types: self.types };
        match lib.check() {
            Ok(()) => Ok(lib),
            Err(e) => Err(e),
        }
    }

    /// The symbolic library of what is declared, whatever its faults.
    pub fn into_symbols(self) -> (res: SymbolicLib)
        ensures
            res@ == self@,
    {
        SymbolicLib { name: self.name, dependencies: self.dependencies, types: self.types }
    }
}

/// Where no declaration from `from` on has a fault of its own, there is no
/// first one that has.
pub proof fn lemma_first_fault_none(sym: SymbolicView, from: int)
    requires
        0 <= from,
        forall|i: int| from <= i < sym.types.len() ==> (#[trigger] sym.symbol_fault(i)) is None,
    ensures
        sym.first_fault(from) is None,
    decreases sym.types.len() - from,
{
    if from < sym.types.len() {
        assert(sym.symbol_fault(from) is None);
        lemma_first_fault_none(sym, from + 1);
    }
}

/// Where the declaration at `at` has a fault of its own and none of those
/// from `from` up to it has, its fault is the first.
pub proof fn lemma_first_fault_at(sym: SymbolicView, from: int, at: int)
    requires
        0 <= from <= at < sym.types.len(),
        forall|i: int| from <= i < at ==> (#[trigger] sym.symbol_fault(i)) is None,
        sym.symbol_fault(at) is Some,
    ensures
        sym.first_fault(from) == sym.symbol_fault(at),
    decreases at - from,
{
    if from < at {
        assert(sym.symbol_fault(from) is None);
        lemma_first_fault_at(sym, from + 1, at);
    }
}

/// Where every declaration can be compiled, none from `from` on is cyclic.
pub proof fn lemma_none_cyclic(sym: SymbolicView, from: int)
    requires
        0 <= from,
        forall|i: int|
            0 <= i < sym.types.len() ==> (#[trigger] sym.symbol_id(sym.types.len(), i)) is Some,
    ensures
        sym.first_cyclic(from) is None,
    decreases sym.types.len() - from,
{
    if from < sym.types.len() {
        assert(sym.symbol_id(sym.types.len(), from) is Some);
        lemma_none_cyclic(sym, from + 1);
    }
}

/// A declaration that refers to nothing can be compiled in one step, and so
/// in any number of steps but none.
pub proof fn lemma_no_refs_grounded(sym: SymbolicView, fuel: nat, at: int)
    requires
        fuel >= 1,
        sym.types[at].ty.refs().len() == 0,
    ensures
        sym.symbol_ty(fuel, at) is Some,
        sym.symbol_id(fuel, at) is Some,
{
    assert(sym.ref_ids((fuel - 1) as nat, sym.types[at].ty.refs()) is Some);
}

/// Where each of `refs` can be had within `fuel` steps, all of them can.
pub proof fn lemma_refs_grounded(sym: SymbolicView, fuel: nat, refs: Seq<FqnView>)
    requires
        forall|k: int| 0 <= k < refs.len() ==> sym.ref_id(fuel, #[trigger] refs[k]) is Some,
    ensures
        sym.ref_ids(fuel, refs) is Some,
    decreases refs.len(),
{
    if refs.len() > 0 {
        assert forall|k: int| 0 <= k < refs.drop_last().len() implies sym.ref_id(
            fuel,
            #[trigger] refs.drop_last()[k],
        ) is Some by {
            assert(refs.drop_last()[k] == refs[k]);
        }
        lemma_refs_grounded(sym, fuel, refs.drop_last());
        assert(sym.ref_id(fuel, refs[refs.len() - 1]) is Some);
    }
}

/// Where each of `refs` means something, none of them is the first that
/// does not.
pub proof fn lemma_all_known(sym: SymbolicView, refs: Seq<FqnView>, from: int)
    requires
        0 <= from,
        forall|k: int| from <= k < refs.len() ==> sym.knows(#[trigger] refs[k]),
    ensures
        sym.first_unknown(refs, from) is None,
    decreases refs.len() - from,
{
    if from < refs.len() {
        assert(sym.knows(refs[from]));
        lemma_all_known(sym, refs, from + 1);
    }
}

/// The declaration at `at` is the first of its name where none before it
/// has that name.
pub proof fn lemma_find_symbol_at(types: Seq<SymbolView>, name: Seq<char>, from: int, at: int)
    requires
        0 <= from <= at < types.len(),
        types[at].name == name,
        forall|j: int| from <= j < at ==> (#[trigger] types[j]).name != name,
    ensures
        find_symbol(types, name, from) == Some(at),
    decreases at - from,
{
    if from < at {
        assert(types[from].name != name);
        lemma_find_symbol_at(types, name, from + 1, at);
    }
}

/// Where no two declarations bear one name, each is the first of its name.
pub proof fn lemma_find_distinct(types: Seq<SymbolView>, at: int)
    requires
        0 <= at < types.len(),
        forall|i: int, j: int|
            0 <= i < j < types.len() ==> (#[trigger] types[i]).name != (#[trigger] types[j]).name,
    ensures
        find_symbol(types, types[at].name, 0) == Some(at),
{
    assert forall|j: int| 0 <= j < at implies (#[trigger] types[j]).name != types[at].name by {
        assert(types[j].name != types[at].name);
    }
    lemma_find_symbol_at(types, types[at].name, 0, at);
}

/// A name that no declaration from `from` on bears is not found from there.
pub proof fn lemma_find_symbol_none(types: Seq<SymbolView>, name: Seq<char>, from: int)
    requires
        0 <= from,
        forall|j: int| from <= j < types.len() ==> (#[trigger] types[j]).name != name,
    ensures
        find_symbol(types, name, from) is None,
    decreases types.len() - from,
{
    if from < types.len() {
        assert(types[from].name != name);
        lemma_find_symbol_none(types, name, from + 1);
    }
}

/// A name that one of `exports`, from `from` on, bears is found among them.
pub proof fn lemma_find_export_some(exports: Seq<ExportView>, name: Seq<char>, from: int, at: int)
    requires
        0 <= from <= at < exports.len(),
        exports[at].name == name,
    ensures
        find_export(exports, name, from) is Some,
    decreases at - from,
{
    if from < at {
        lemma_find_export_some(exports, name, from + 1, at);
    }
}

/// What compiling gives for the symbolic library `sym`, which has no fault
/// of its own and no cycle: the library it compiles to, or the first fault
/// for which a declaration cannot join those before it.
pub open spec fn assembled(sym: SymbolicView, res: Result<TypeLib, CompileError>) -> bool {
    match res {
        Ok(lib) => sym.first_assembly_fault(0) is None && lib.is_compiled_from(sym),
        Err(CompileError::Collision(id)) => sym.first_assembly_fault(0) == Some(
            AssemblyFault::Collision(id@),
        ),
        Err(CompileError::TooManyTypes) => sym.first_assembly_fault(0) == Some(
            AssemblyFault::TooManyTypes,
        ),
        Err(_) => false,
    }
}

/// What is found among declarations is found at its place when more follow.
pub proof fn lemma_find_symbol_more(
    first: Seq<SymbolView>,
    more: Seq<SymbolView>,
    name: Seq<char>,
    from: int,
)
    requires
        0 <= from,
        find_symbol(first, name, from) is Some,
    ensures
        find_symbol(first + more, name, from) == find_symbol(first, name, from),
    decreases first.len() - from,
{
    if from < first.len() {
        assert((first + more)[from] == first[from]);
        if first[from].name != name {
            lemma_find_symbol_more(first, more, name, from + 1);
        }
    }
}

/// What is found is a declaration, and bears the name.
pub proof fn lemma_find_symbol_is(types: Seq<SymbolView>, name: Seq<char>, from: int)
    requires
        0 <= from,
        find_symbol(types, name, from) is Some,
    ensures
        from <= find_symbol(types, name, from)->Some_0 < types.len(),
        types[find_symbol(types, name, from)->Some_0].name == name,
    decreases types.len() - from,
{
    if from < types.len() && types[from].name != name {
        lemma_find_symbol_is(types, name, from + 1);
    }
}

/// Where a name is found goes by the names of the declarations alone.
pub proof fn lemma_find_symbol_names(
    a: Seq<SymbolView>,
    b: Seq<SymbolView>,
    name: Seq<char>,
    from: int,
)
    requires
        0 <= from,
        a.len() == b.len(),
        forall|i: int| 0 <= i < a.len() ==> (#[trigger] a[i]).name == b[i].name,
    ensures
        find_symbol(a, name, from) == find_symbol(b, name, from),
    decreases a.len() - from,
{
    if from < a.len() {
        assert(a[from].name == b[from].name);
        lemma_find_symbol_names(a, b, name, from + 1);
    }
}

/// Where all references are had, each of them is.
pub proof fn lemma_ref_ids_each(sym: SymbolicView, fuel: nat, refs: Seq<FqnView>, k: int)
    requires
        sym.ref_ids(fuel, refs) is Some,
        0 <= k < refs.len(),
    ensures
        sym.ref_id(fuel, refs[k]) is Some,
    decreases refs.len(),
{
    if k < refs.len() - 1 {
        lemma_ref_ids_each(sym, fuel, refs.drop_last(), k);
        assert(refs.drop_last()[k] == refs[k]);
    } else {
        assert(refs.last() == refs[k]);
    }
}

/// Two libraries that have the same for each reference have the same for
/// all of them.
pub proof fn lemma_ref_ids_same(a: SymbolicView, b: SymbolicView, fuel: nat, refs: Seq<FqnView>)
    requires
        forall|k: int| 0 <= k < refs.len() ==> a.ref_id(fuel, #[trigger] refs[k]) == b.ref_id(fuel, refs[k]),
    ensures
        a.ref_ids(fuel, refs) == b.ref_ids(fuel, refs),
    decreases refs.len(),
{
    if refs.len() > 0 {
        assert forall|k: int| 0 <= k < refs.drop_last().len() implies a.ref_id(
            fuel,
            #[trigger] refs.drop_last()[k],
        ) == b.ref_id(fuel, refs.drop_last()[k]) by {
            assert(refs.drop_last()[k] == refs[k]);
        }
        lemma_ref_ids_same(a, b, fuel, refs.drop_last());
        assert(a.ref_id(fuel, refs[refs.len() - 1]) == b.ref_id(fuel, refs[refs.len() - 1]));
    }
}

/// The recursive references to the loose declarations before `upto` are no
/// more than `upto`, each is a recursive reference, and there is one for
/// each loose declaration.
pub proof fn lemma_links(sym: SymbolicView, upto: int)
    requires
        0 <= upto <= sym.types.len(),
    ensures
        sym.links(upto).len() <= upto,
        forall|k: int| 0 <= k < sym.links(upto).len() ==> (#[trigger] sym.links(upto)[k]).ty is Recursive,
        forall|t: int|
            0 <= t < upto && #[trigger] sym.is_loose(t) ==> exists|k: int|
                0 <= k < sym.links(upto).len() && #[trigger] sym.links(upto)[k] == sym.link_symbol(t),
    decreases upto,
{
    if upto > 0 {
        lemma_links(sym, upto - 1);
        let before = sym.links(upto - 1);
        let now = sym.links(upto);
        assert forall|k: int| 0 <= k < now.len() implies (#[trigger] now[k]).ty is Recursive by {
            if k < before.len() {
                assert(now[k] == before[k]);
            }
        }
        assert forall|t: int| 0 <= t < upto && #[trigger] sym.is_loose(t) implies exists|k: int|
            0 <= k < now.len() && #[trigger] now[k] == sym.link_symbol(t) by {
            if t < upto - 1 {
                let k = choose|k: int| 0 <= k < before.len() && #[trigger] before[k] == sym.link_symbol(t);
                assert(now[k] == sym.link_symbol(t));
            } else {
                assert(now[now.len() - 1] == sym.link_symbol(t));
            }
        }
    }
}

/// A declaration whose identity can be had by taking the declarations each
/// after those it refers to stays as it is where the cycles of the library
/// are unfolded, and keeps its identity.
pub proof fn lemma_tight_stays(sym: SymbolicView, fuel: nat, at: int)
    requires
        fuel <= sym.types.len(),
        0 <= at < sym.types.len(),
        sym.symbol_id(fuel, at) is Some,
    ensures
        sym.unfolded().types[at] == sym.types[at],
        sym.unfolded().symbol_ty(fuel, at) == sym.symbol_ty(fuel, at),
        sym.unfolded().symbol_id(fuel, at) == sym.symbol_id(fuel, at),
    decreases fuel,
{
    let n = sym.types.len();
    let unf = sym.unfolded();
    let ty = sym.types[at].ty;
    let refs = ty.refs();
    assert(sym.symbol_ty(fuel, at) is Some);
    let less = (fuel - 1) as nat;
    assert(sym.ref_ids(less, refs) is Some);
    lemma_more_fuel(sym, less, n as nat);
    assert forall|k: int| 0 <= k < refs.len() implies !sym.names_loose(#[trigger] refs[k])
        && unf.ref_id(less, refs[k]) == sym.ref_id(less, refs[k]) by {
        let r = refs[k];
        lemma_ref_ids_each(sym, less, refs, k);
        assert(sym.ref_id(n as nat, r) == sym.ref_id(less, r));
        if r.lib == sym.name {
            lemma_find_symbol_is(sym.types, r.name, 0);
            let t = find_symbol(sym.types, r.name, 0)->Some_0;
            lemma_find_symbol_names(sym.loosened_symbols(), sym.types, r.name, 0);
            lemma_find_symbol_more(sym.loosened_symbols(), sym.links(n as int), r.name, 0);
            assert(find_symbol(unf.types, r.name, 0) == Some(t));
            assert(sym.symbol_id(less, t) is Some);
            lemma_tight_stays(sym, less, t);
        }
    }
    assert(sym.loosened(ty) == ty) by {
        match ty {
            TyView::List(item, _) => {
                assert(refs[0] == item);
            },
            TyView::SetOf(item, _) => {
                assert(refs[0] == item);
            },
            TyView::MapOf(key, value, _) => {
                assert(refs[0] == key);
                assert(refs[1] == value);
            },
            TyView::Optional(item) => {
                assert(refs[0] == item);
            },
            _ => {},
        }
    }
    assert(unf.types[at] == sym.loosened_symbols()[at]);
    lemma_ref_ids_same(unf, sym, less, refs);
}

/// A list, a set, a map or an optional never stands in the way of
/// compiling: where the cycles of a library are unfolded, and the names of
/// the recursive references are free, the identity of such a declaration
/// can be had, whatever it holds and whatever holds it.
pub proof fn lemma_collections_compile(sym: SymbolicView, at: int)
    requires
        sym.first_fault(0) is None,
        sym.unfolded().first_fault(0) is None,
        0 <= at < sym.types.len(),
        sym.types[at].ty is List || sym.types[at].ty is SetOf || sym.types[at].ty is MapOf
            || sym.types[at].ty is Optional,
    ensures
        sym.unfolded().symbol_id(sym.unfolded().types.len(), at) is Some,
{
    let n = sym.types.len();
    let unf = sym.unfolded();
    let links = sym.links(n as int);
    let m = unf.types.len();
    lemma_links(sym, n as int);
    assert(m == n + links.len());
    let ty = sym.types[at].ty;
    let refs = ty.refs();
    assert(unf.types[at] == sym.loosened_symbols()[at]);
    let held = unf.types[at].ty.refs();
    lemma_no_fault(sym, 0, at);
    assert(sym.first_unknown(refs, 0) is None);
    assert forall|k: int| 0 <= k < held.len() implies unf.ref_id(n as nat, #[trigger] held[k]) is Some by {
        assert(held.len() == refs.len());
        let r = refs[k];
        assert(held[k] == sym.loosened_ref(r)) by {
            match ty {
                TyView::List(item, _) => {},
                TyView::SetOf(item, _) => {},
                TyView::MapOf(key, value, _) => {},
                TyView::Optional(item) => {},
                _ => {},
            }
        }
        lemma_known_each(sym, refs, 0, k);
        assert(sym.knows(r));
        if sym.names_loose(r) {
            lemma_find_symbol_is(sym.types, r.name, 0);
            let t = find_symbol(sym.types, r.name, 0)->Some_0;
            let j = choose|j: int| 0 <= j < links.len() && #[trigger] links[j] == sym.link_symbol(t);
            let node = n + j;
            assert(unf.types[node] == links[j]);
            assert(r == FqnView { lib: sym.name, name: sym.types[t].name });
            assert(unf.types[node].name == sym.link_fqn(r).name);
            lemma_no_fault(unf, 0, node);
            assert(find_symbol(unf.types, unf.types[node].name, 0) == Some(node));
            assert(unf.types[node].ty.refs().len() == 0);
            lemma_no_refs_grounded(unf, n as nat, node);
        } else if r.lib == sym.name {
            lemma_find_symbol_is(sym.types, r.name, 0);
            let t = find_symbol(sym.types, r.name, 0)->Some_0;
            assert(sym.symbol_id(n as nat, t) is Some);
            lemma_find_symbol_names(sym.loosened_symbols(), sym.types, r.name, 0);
            lemma_find_symbol_more(sym.loosened_symbols(), links, r.name, 0);
            lemma_tight_stays(sym, n as nat, t);
        } else {
            assert(import_id(unf.dependencies, r) is Some);
        }
    }
    lemma_refs_grounded(unf, n as nat, held);
    assert(unf.symbol_id((n + 1) as nat, at) is Some);
    if links.len() > 0 {
        lemma_more_fuel(unf, (n + 1) as nat, m as nat);
    } else {
        assert(!sym.is_loose(at));
        lemma_tight_stays(sym, n as nat, at);
    }
}

/// The first cyclic declaration is a declaration, and its identity cannot
/// be had.
pub proof fn lemma_first_cyclic_is(sym: SymbolicView, from: int)
    requires
        0 <= from,
        sym.first_cyclic(from) is Some,
    ensures
        from <= sym.first_cyclic(from)->Some_0 < sym.types.len(),
        sym.symbol_id(sym.types.len(), sym.first_cyclic(from)->Some_0) is None,
    decreases sym.types.len() - from,
{
    if from < sym.types.len() && sym.symbol_id(sym.types.len(), from) is Some {
        lemma_first_cyclic_is(sym, from + 1);
    }
}

/// Only a cycle of direct compositions keeps a library from compiling:
/// where the cycles of a library are unfolded, and the names of the
/// recursive references are free, the declaration that is told as cyclic is
/// one of the library as it was declared, and it is an array, a tuple, a
/// structure or a union.
pub proof fn lemma_cyclic_is_direct(sym: SymbolicView, at: int)
    requires
        sym.first_fault(0) is None,
        sym.unfolded().first_fault(0) is None,
        sym.unfolded().first_cyclic(0) == Some(at),
    ensures
        0 <= at < sym.types.len(),
        sym.unfolded().types[at].name == sym.types[at].name,
        sym.types[at].ty is Array || sym.types[at].ty is Tuple || sym.types[at].ty is Struct
            || sym.types[at].ty is Union,
{
    let n = sym.types.len();
    let unf = sym.unfolded();
    let links = sym.links(n as int);
    lemma_first_cyclic_is(unf, 0);
    lemma_links(sym, n as int);
    if at >= n {
        assert(unf.types[at] == links[at - n]);
        assert(unf.types[at].ty.refs().len() == 0);
        lemma_no_refs_grounded(unf, unf.types.len(), at);
    } else {
        assert(unf.types[at] == sym.loosened_symbols()[at]);
        let ty = sym.types[at].ty;
        if ty is List || ty is SetOf || ty is MapOf || ty is Optional {
            lemma_collections_compile(sym, at);
        } else if ty is Primitive || ty is Enum || ty is Recursive {
            assert(unf.types[at].ty == ty);
            assert(ty.refs().len() == 0);
            lemma_no_refs_grounded(unf, unf.types.len(), at);
        }
    }
}

/// Where none of `refs` from `from` on is the first that means nothing,
/// each of them means something.
pub proof fn lemma_known_each(sym: SymbolicView, refs: Seq<FqnView>, from: int, k: int)
    requires
        0 <= from <= k < refs.len(),
        sym.first_unknown(refs, from) is None,
    ensures
        sym.knows(refs[k]),
    decreases k - from,
{
    if from < k {
        lemma_known_each(sym, refs, from + 1, k);
    }
}

/// The identity of the library that `sym` compiles to.
pub open spec fn compiled_id(sym: SymbolicView) -> Seq<u8> {
    tagged_hash(
        lib_id_tag(),
        lib_commitment(
            sym.name,
            dependency_ids(sym.dependencies),
            id_row(sym.ids_before(sym.types.len() as int)),
        ),
    )
}

/// The library that `sym` compiles to, as others depend on it: its name,
/// its identity, and each declaration's name with its semantic identity.
pub open spec fn compiled_dependency(sym: SymbolicView) -> DependencyView {
    DependencyView { name: sym.name, id: compiled_id(sym), types: sym.exports() }
}

impl TypeLib {
    /// Two libraries compiled from one symbolic library are the same: they
    /// have one name, the same dependencies and exports, the same types
    /// under the same identities, and one identity.
    pub proof fn lemma_compiled_once(self, other: TypeLib, sym: SymbolicView)
        requires
            self.is_compiled_from(sym),
            other.is_compiled_from(sym),
        ensures
            self.spec_name() == other.spec_name(),
            self.dependencies() == other.dependencies(),
            self.exports() == other.exports(),
            self.types().dom() == other.types().dom(),
            forall|id: Seq<u8>| #[trigger]
                self.types().dom().contains(id) ==> self.types()[id]@ == other.types()[id]@,
            self.spec_id() == other.spec_id(),
    {
        assert forall|id: Seq<u8>| #[trigger]
            self.types().dom().contains(id) implies self.types()[id]@ == other.types()[id]@ by {
            assert(sym.ids_before(sym.types.len() as int).contains(id));
            let i = choose|i: int| 0 <= i < sym.types.len() && #[trigger] sym.id_at(i) == id;
            assert(self.types()[sym.id_at(i)]@ == sym.ty_at(i));
            assert(other.types()[sym.id_at(i)]@ == sym.ty_at(i));
        }
    }

    /// What a library compiled from `sym` hands to those that depend on it
    /// is fixed by `sym`.
    pub proof fn lemma_dependency(self, sym: SymbolicView, dep: DependencyView)
        requires
            self.is_compiled_from(sym),
            dep.name == self.spec_name(),
            dep.id == self.spec_id(),
            dep.types == self.exports(),
        ensures
            dep == compiled_dependency(sym),
    {
    }
}

} // verus!
