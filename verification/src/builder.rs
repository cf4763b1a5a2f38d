//! Assembling a type system from compiled libraries.

use vstd::prelude::*;
use crate::id::{SemId, TypeLibId};
use crate::ty::Ty;
use crate::typelib::TypeLib;
use crate::typesys::{complete, dangling, id_views, lists_keys, BoundError, TypeSystem};
use crate::typesys::{broken_bound, closed, holds_count, MAX_LIBS, MAX_TYPES};

verus! {

/// Why a library cannot join the libraries imported before it.
#[derive(Copy, Clone, Debug)]
pub enum ImportError {
    /// The library and what was imported before it hold, under this
    /// identity, types of different structure.
    Collision(SemId),
    /// A bound of the type system would be broken.
    Bound(BoundError),
}

/// A type system in the making: the types of the libraries imported so far,
/// and the libraries that those depend on.
#[derive(Debug)]
pub struct SystemBuilder {
    sys: TypeSystem,
    dependencies: Vec<TypeLibId>,
}

/// `id` stands, in `a` and in `b`, for types of different structure.
pub open spec fn collide(a: Map<Seq<u8>, Ty<SemId>>, b: Map<Seq<u8>, Ty<SemId>>, id: Seq<u8>) -> bool {
    a.dom().contains(id) && b.dom().contains(id) && a[id]@ != b[id]@
}

/// `all` holds what `a` and `b` hold, and nothing else.
pub open spec fn merges(
    all: Map<Seq<u8>, Ty<SemId>>,
    a: Map<Seq<u8>, Ty<SemId>>,
    b: Map<Seq<u8>, Ty<SemId>>,
) -> bool {
    &&& all.dom() == a.dom().union(b.dom())
    &&& forall|id: Seq<u8>| a.dom().contains(id) ==> (#[trigger] all[id])@ == a[id]@
    &&& forall|id: Seq<u8>| b.dom().contains(id) ==> (#[trigger] all[id])@ == b[id]@
}

/// What keeps a type of a library from joining the types that are there.
pub enum ImportFault {
    /// It has the identity of a type that is there with another structure.
    Collision(Seq<u8>),
    /// It is new, and `MAX_TYPES` types are there already.
    TooManyTypes,
}

/// The identities that are there when the type at `upto` of the library
/// comes in: those of `before`, and those of the library under `row` before
/// `upto`.
pub open spec fn merged_before(
    before: Map<Seq<u8>, Ty<SemId>>,
    row: Seq<Seq<u8>>,
    upto: int,
) -> Set<Seq<u8>> {
    before.dom().union(row.take(upto).to_set())
}

/// What keeps the type at `at` of the library from joining, if anything.
pub open spec fn import_fault(
    before: Map<Seq<u8>, Ty<SemId>>,
    lib: Map<Seq<u8>, Ty<SemId>>,
    row: Seq<Seq<u8>>,
    at: int,
) -> Option<ImportFault> {
    if collide(before, lib, row[at]) {
        Some(ImportFault::Collision(row[at]))
    } else if !merged_before(before, row, at).contains(row[at]) && merged_before(
        before,
        row,
        at,
    ).len() >= MAX_TYPES {
        Some(ImportFault::TooManyTypes)
    } else {
        None
    }
}

/// What keeps the first type of the library, from `from` on, that cannot
/// join.
pub open spec fn first_import_fault(
    before: Map<Seq<u8>, Ty<SemId>>,
    lib: Map<Seq<u8>, Ty<SemId>>,
    row: Seq<Seq<u8>>,
    from: int,
) -> Option<ImportFault>
    decreases row.len() - from,
{
    if from < 0 || from >= row.len() {
        None
    } else {
        match import_fault(before, lib, row, from) {
            Some(fault) => Some(fault),
            None => first_import_fault(before, lib, row, from + 1),
        }
    }
}

/// Those of `wanted` that are not among `there`, in their order.
pub open spec fn not_among(wanted: Seq<Seq<u8>>, there: Seq<Seq<u8>>) -> Seq<Seq<u8>>
    decreases wanted.len(),
{
    if wanted.len() == 0 {
        Seq::empty()
    } else if there.contains(wanted.last()) {
        not_among(wanted.drop_last(), there)
    } else {
        not_among(wanted.drop_last(), there).push(wanted.last())
    }
}

/// The library `lib` can be named beside `libs`: it is named already, or
/// fewer than `MAX_LIBS` are.
pub open spec fn lib_fits(libs: Seq<Seq<u8>>, lib: Seq<u8>) -> bool {
    libs.contains(lib) || libs.len() < MAX_LIBS
}

impl SystemBuilder {
    /// The types imported so far, each under the bytes of its identity.
    pub closed spec fn types(self) -> Map<Seq<u8>, Ty<SemId>> {
        self.sys.types()
    }

    /// The identities of the libraries imported so far, ascending.
    pub closed spec fn lib_ids(self) -> Seq<Seq<u8>> {
        self.sys.lib_ids()
    }

    /// The identities of the libraries that the libraries imported so far
    /// depend on, in the order in which they were imported and declared.
    pub closed spec fn dependencies(self) -> Seq<Seq<u8>> {
        crate::typesys::lib_views(self.dependencies@)
    }

    /// The libraries are named in ascending order, each once.
    pub closed spec fn wf(self) -> bool {
        self.sys.wf()
    }

    /// A builder into which nothing is imported yet.
    pub fn new() -> (res: SystemBuilder)
        ensures
            res.wf(),
            res.types() == crate::typesys::empty_types(),
            res.lib_ids() == Seq::<Seq<u8>>::empty(),
            res.dependencies() == Seq::<Seq<u8>>::empty(),
    {
        let res = SystemBuilder { sys: TypeSystem::new(), dependencies: Vec::new() };
        assert(res.dependencies() =~= Seq::<Seq<u8>>::empty());
        res
    }

    /// The libraries that are depended on and not imported: each identity
    /// that an imported library declares as a dependency and that is not
    /// the identity of an imported library, in the order in which they were
    /// declared.
    pub fn unresolved_libs(&self) -> (res: Vec<TypeLibId>)
        requires
            self.wf(),
        ensures
            crate::typesys::lib_views(res@) == not_among(self.dependencies(), self.lib_ids()),
    {
        let ghost wanted = self.dependencies();
        let ghost there = self.lib_ids();
        let libs = self.sys.libs();
        let mut out: Vec<TypeLibId> = Vec::new();
        let mut i: usize = 0;
        proof {
            assert(wanted.take(0) =~= Seq::<Seq<u8>>::empty());
            assert(crate::typesys::lib_views(out@) =~= not_among(wanted.take(0), there));
        }
        while i < self.dependencies.len()
            invariant
                0 <= i <= self.dependencies.len(),
                wanted == crate::typesys::lib_views(self.dependencies@),
                there == crate::typesys::lib_views(libs@),
                crate::typesys::lib_views(out@) == not_among(wanted.take(i as int), there),
            decreases self.dependencies.len() - i,
        {
            let wanted_id = self.dependencies[i];
            // look for it among the libraries that are imported
            let mut found = false;
            let mut k: usize = 0;
            while k < libs.len() && !found
                invariant
                    0 <= k <= libs.len(),
                    there == crate::typesys::lib_views(libs@),
                    found ==> there.contains(wanted_id@),
                    !found ==> forall|j: int| 0 <= j < k ==> there[j] != wanted_id@,
                decreases libs.len() - k + if found { 0int } else { 1int },
            {
                if libs[k].same(&wanted_id) {
                    assert(there[k as int] == wanted_id@);
                    found = true;
                } else {
                    k = k + 1;
                }
            }
            proof {
                assert(wanted.take(i + 1).drop_last() =~= wanted.take(i as int));
                assert(wanted.take(i + 1).last() == wanted_id@);
                if !found {
                    assert(!there.contains(wanted_id@));
                }
            }
            if !found {
                let ghost had = crate::typesys::lib_views(out@);
                out.push(wanted_id);
                assert(crate::typesys::lib_views(out@) =~= had.push(wanted_id@));
            }
            i = i + 1;
        }
        assert(wanted.take(i as int) =~= wanted);
        out
    }

    /// The number of types imported so far.
    pub fn count_types(&self) -> (res: u32)
        ensures
            holds_count(self.types(), res as nat),
            res <= MAX_TYPES,
    {
        self.sys.count_types()
    }

    /// Imports the types of `lib`, in ascending order of their identities.
    /// A type that is there already, under the same identity and with the
    /// same structure, is counted once. The first type that cannot join is
    /// reported, and nothing is imported then: one that has the identity of
    /// a type that is there with another structure, or one that is new
    /// where `MAX_TYPES` types are there.
    pub fn import(self, lib: &TypeLib) -> (res: Result<SystemBuilder, ImportError>)
        requires
            self.wf(),
        ensures
            match res {
                Ok(next) => {
                    &&& next.wf()
                    &&& next.dependencies() == self.dependencies() + lib.dependencies()
                    &&& lib_fits(self.lib_ids(), lib.spec_id())
                    &&& first_import_fault(
                        self.types(),
                        lib.types(),
                        crate::typesys::id_row(lib.types().dom()),
                        0,
                    ) is None
                    &&& merges(next.types(), self.types(), lib.types())
                    &&& forall|id: Seq<u8>| !collide(self.types(), lib.types(), id)
                    &&& next.lib_ids().to_set() == self.lib_ids().to_set().insert(lib.spec_id())
                },
                Err(ImportError::Bound(BoundError::TooManyLibs)) => !lib_fits(
                    self.lib_ids(),
                    lib.spec_id(),
                ),
                Err(ImportError::Collision(id)) => {
                    &&& lib_fits(self.lib_ids(), lib.spec_id())
                    &&& first_import_fault(
                        self.types(),
                        lib.types(),
                        crate::typesys::id_row(lib.types().dom()),
                        0,
                    ) == Some(ImportFault::Collision(id@))
                },
                Err(ImportError::Bound(BoundError::TooManyTypes)) => {
                    &&& lib_fits(self.lib_ids(), lib.spec_id())
                    &&& first_import_fault(
                        self.types(),
                        lib.types(),
                        crate::typesys::id_row(lib.types().dom()),
                        0,
                    ) == Some(ImportFault::TooManyTypes)
                },
                Err(_) => false,
            },
    {
        let ghost old_types = self.types();
        let ghost lib_types = lib.types();
        let ghost old_dependencies = self.dependencies();
        let mut dependencies = self.dependencies;
        let declared = lib.dependency_ids();
        let mut d: usize = 0;
        while d < declared.len()
            invariant
                0 <= d <= declared.len(),
                crate::typesys::lib_views(dependencies@) == old_dependencies
                    + crate::typesys::lib_views(declared@).take(d as int),
            decreases declared.len() - d,
        {
            let ghost had = crate::typesys::lib_views(dependencies@);
            dependencies.push(declared[d]);
            assert(crate::typesys::lib_views(dependencies@) =~= had.push(declared@[d as int]@));
            assert(crate::typesys::lib_views(declared@).take(d + 1) =~= crate::typesys::lib_views(
                declared@,
            ).take(d as int).push(declared@[d as int]@));
            d = d + 1;
        }
        assert(crate::typesys::lib_views(declared@).take(d as int) =~= crate::typesys::lib_views(
            declared@,
        ));
        let mut sys = self.sys;
        match sys.add_lib(lib.id()) {
            Ok(()) => {},
            Err(e) => {
                return Err(ImportError::Bound(BoundError::TooManyLibs));
            },
        }
        let ids = lib.ids();
        let ghost row = id_views(ids@);
        let mut i: usize = 0;
        while i < ids.len()
            invariant
                0 <= i <= ids.len(),
                sys.wf(),
                row == id_views(ids@),
                lists_keys(lib_types, row),
                lib_types == lib.types(),
                sys.lib_ids().to_set() == self.lib_ids().to_set().insert(lib.spec_id()),
                lib_fits(self.lib_ids(), lib.spec_id()),
                row == crate::typesys::id_row(lib_types.dom()),
                first_import_fault(old_types, lib_types, row, 0) == first_import_fault(
                    old_types,
                    lib_types,
                    row,
                    i as int,
                ),
                old_types == self.types(),
                // what is in the system: the old types and the first `i` of the library
                forall|id: Seq<u8>|
                    sys.types().dom().contains(id) <==> (old_types.dom().contains(id) || exists|
                        j: int,
                    |
                        0 <= j < i && #[trigger] row[j] == id),
                forall|id: Seq<u8>|
                    old_types.dom().contains(id) ==> (#[trigger] sys.types()[id])@ == old_types[id]@,
                forall|j: int|
                    0 <= j < i ==> (#[trigger] sys.types()[row[j]])@ == lib_types[row[j]]@,
                forall|j: int| 0 <= j < i ==> !collide(old_types, lib_types, #[trigger] row[j]),
            decreases ids.len() - i,
        {
            let id = ids[i];
            let ghost before = sys.types();
            assert(row[i as int] == id@);
            assert(row.to_set().contains(id@));
            proof {
                // what is in the system is what was there and what came from the library
                assert(before.dom() =~= merged_before(old_types, row, i as int)) by {
                    assert forall|v: Seq<u8>| before.dom().contains(v) <==> merged_before(
                        old_types,
                        row,
                        i as int,
                    ).contains(v) by {
                        if before.dom().contains(v) && !old_types.dom().contains(v) {
                            let j = choose|j: int| 0 <= j < i && #[trigger] row[j] == v;
                            assert(row.take(i as int)[j] == v);
                        }
                        if row.take(i as int).to_set().contains(v) {
                            let j = choose|j: int|
                                0 <= j < row.take(i as int).len() && row.take(i as int)[j] == v;
                            assert(row[j] == v);
                        }
                    }
                }
            }
            let ty = match lib.get(id) {
                Some(ty) => ty,
                None => vstd::pervasive::unreached(),
            };
            let present = match sys.get(id) {
                Some(existing) => Some(existing.same(ty)),
                None => None,
            };
            match present {
                Some(same) => {
                    proof {
                        // it was there before, as no identity comes twice in the library
                        if !old_types.dom().contains(id@) {
                            let j = choose|j: int| 0 <= j < i && #[trigger] row[j] == id@;
                            assert(crate::id::lex_lt(row[j], row[i as int]));
                            crate::id::lemma_lex_irreflexive(id@);
                        }
                        assert(before[id@]@ == old_types[id@]@);
                    }
                    if !same {
                        return Err(ImportError::Collision(id));
                    }
                },
                None => {
                    match sys.insert_unchecked(id, ty.duplicate()) {
                        Ok(_) => {},
                        Err(e) => {
                            return Err(ImportError::Bound(BoundError::TooManyTypes));
                        },
                    }
                },
            }
            proof {
                let after = sys.types();
                assert forall|v: Seq<u8>|
                    after.dom().contains(v) <==> (old_types.dom().contains(v) || exists|j: int|
                        0 <= j < i + 1 && #[trigger] row[j] == v) by {
                    if after.dom().contains(v) {
                        if before.dom().contains(v) {
                            if !old_types.dom().contains(v) {
                                let j = choose|j: int| 0 <= j < i && #[trigger] row[j] == v;
                                assert(row[j] == v);
                            }
                        } else {
                            assert(v == id@);
                            assert(row[i as int] == v);
                        }
                    }
                    if exists|j: int| 0 <= j < i + 1 && #[trigger] row[j] == v {
                        let j = choose|j: int| 0 <= j < i + 1 && #[trigger] row[j] == v;
                        if j < i {
                            assert(row[j] == v);
                            assert(before.dom().contains(v));
                        }
                    }
                }
                assert forall|j: int| 0 <= j < i + 1 implies (#[trigger] after[row[j]])@
                    == lib_types[row[j]]@ by {
                    if j < i {
                        assert(before[row[j]]@ == lib_types[row[j]]@);
                        assert(before.dom().contains(row[j])) by {
                            assert(row[j] == row[j]);
                        }
                    }
                }
                assert forall|j: int| 0 <= j < i + 1 implies !collide(
                    old_types,
                    lib_types,
                    #[trigger] row[j],
                ) by {
                    if j == i {
                        if old_types.dom().contains(id@) {
                            assert(before[id@]@ == old_types[id@]@);
                        }
                    }
                }
            }
            i = i + 1;
        }
        let next = SystemBuilder { sys, dependencies };
        proof {
            let all = next.types();
            assert(all.dom() =~= old_types.dom().union(lib_types.dom())) by {
                assert forall|v: Seq<u8>| all.dom().contains(v) <==> old_types.dom().union(
                    lib_types.dom(),
                ).contains(v) by {
                    if all.dom().contains(v) && !old_types.dom().contains(v) {
                        let j = choose|j: int| 0 <= j < i && #[trigger] row[j] == v;
                        assert(row.to_set().contains(row[j]));
                    }
                    if lib_types.dom().contains(v) {
                        assert(row.to_set().contains(v));
                        let j = choose|j: int| 0 <= j < row.len() && row[j] == v;
                        assert(row[j] == v);
                    }
                }
            }
            assert forall|v: Seq<u8>| lib_types.dom().contains(v) implies (#[trigger] all[v])@
                == lib_types[v]@ by {
                assert(row.to_set().contains(v));
                let j = choose|j: int| 0 <= j < row.len() && row[j] == v;
                assert(all[row[j]]@ == lib_types[row[j]]@);
            }
            assert forall|v: Seq<u8>| !collide(old_types, lib_types, v) by {
                if lib_types.dom().contains(v) {
                    assert(row.to_set().contains(v));
                    let j = choose|j: int| 0 <= j < row.len() && row[j] == v;
                    assert(!collide(old_types, lib_types, row[j]));
                }
            }
        }
        Ok(next)
    }

    /// Closes the type system. It can be closed where every type that a
    /// type refers to is there, no type holds more than the format can
    /// count, and the canonical bytes of the system are no more than
    /// `MAX_SIZE`. Else all that is wrong is reported: one identity for each
    /// reference to a type that is missing, in the ascending order of the
    /// types that refer to them and, within a type, in the order of its
    /// references, and the bound that is broken.
    pub fn finalize(self) -> (res: Result<TypeSystem, FinalizeError>)
        requires
            self.wf(),
        ensures
            match res {
                Ok(sys) => {
                    &&& sys.is_closed()
                    &&& sys.types() == self.types()
                    &&& sys.lib_ids() == self.lib_ids()
                },
                Err(e) => {
                    &&& !closed(self.lib_ids(), self.types())
                    &&& id_views(e.missing@) == crate::typesys::missing_refs(
                        self.types(),
                        crate::typesys::id_row(self.types().dom()),
                    )
                    &&& forall|id: Seq<u8>|
                        id_views(e.missing@).contains(id) <==> dangling(self.types(), id)
                    &&& e.missing@.len() == 0 <==> complete(self.types())
                    &&& e.bound == broken_bound(self.lib_ids(), self.types())
                },
            },
    {
        let missing = self.sys.dangling_refs();
        let bound = match self.sys.serialize() {
            Ok(_) => None,
            Err(e) => Some(e),
        };
        if missing.len() == 0 && bound.is_none() {
            Ok(self.sys)
        } else {
            Err(FinalizeError { missing, bound })
        }
    }
}

/// Why the types imported make no type system.
#[derive(Clone, Debug)]
pub struct FinalizeError {
    /// Every identity that a type refers to and that is not among the types.
    pub missing: Vec<SemId>,
    /// The bound that is broken, if one is.
    pub bound: Option<BoundError>,
}

} // verus!
