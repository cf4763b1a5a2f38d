//! The type system: a bounded, complete collection of compiled types.

use amplify::confinement::MediumOrdMap;
use vstd::prelude::*;
use vstd::string::*;
use crate::hash::append_array;
use crate::hash::tagged_hash;
use crate::id::{lemma_lex_asymmetric, lemma_lex_irreflexive, lemma_lex_transitive, lemma_sorted_unique};
use crate::id::{lex_lt, sorted_ids, typesys_id_tag, SemId, TypeLibId, TypeSysId};
use crate::ty::{encode_members, encode_u16, Ty, TyView};
use crate::util::{LibName, TypeName};

verus! {

/// `amplify::confinement::Error`: why a confined collection refuses an
/// operation. It is carried through as it is.
#[verifier::external_type_specification]
#[verifier::external_body]
pub struct ExConfinementError(amplify::confinement::Error);

/// `core::fmt::Formatter`: what `Debug` writes to. It is carried through
/// as it is.
#[verifier::external_type_specification]
#[verifier::external_body]
pub struct ExFormatter<'a>(core::fmt::Formatter<'a>);

/// `core::fmt::Error`: that writing failed. It is carried through as it is.
#[verifier::external_type_specification]
#[verifier::external_body]
pub struct ExFmtError(core::fmt::Error);

/// Most types that a type system may hold.
pub const MAX_TYPES: usize = 0xFFFFFF;

/// Most bytes that the canonical form of a type system may have.
pub const MAX_SIZE: usize = 0xFFFFFF;

/// Most libraries that a type system may name.
pub const MAX_LIBS: usize = 0xFFFF;

/// The name of a type together with the name of its library.
#[derive(Debug)]
pub struct TypeFqn {
    pub lib: LibName,
    pub name: TypeName,
}

/// A fully qualified name, as text.
pub struct FqnView {
    pub lib: Seq<char>,
    pub name: Seq<char>,
}

/// The identity of a fully qualified name: the hash, under the tag for
/// recursive references, of the canonical bytes of the name of the library
/// and of the name of the type. The type that bears the name does not enter.
pub open spec fn link_id(fqn: FqnView) -> Seq<u8> {
    tagged_hash(crate::id::link_tag(), crate::util::encode_name(fqn.lib) + crate::util::encode_name(fqn.name))
}

impl View for TypeFqn {
    type V = FqnView;

    open spec fn view(&self) -> FqnView {
        FqnView { lib: self.lib@, name: self.name@ }
    }
}

impl Clone for TypeFqn {
    fn clone(&self) -> (res: TypeFqn)
        ensures
            res@ == self@,
    {
        TypeFqn { lib: self.lib.clone(), name: self.name.clone() }
    }
}

/// The place of the first `.` of `text`, from `from` on.
pub open spec fn first_dot(text: Seq<char>, from: int) -> Option<int>
    decreases text.len() - from,
{
    if from < 0 || from >= text.len() {
        None
    } else if text[from] == '.' {
        Some(from)
    } else {
        first_dot(text, from + 1)
    }
}

/// The fully qualified name that `text` spells: the name of a library, a
/// `.`, and the name of a type.
pub open spec fn parse_fqn(text: Seq<char>) -> Option<FqnView> {
    match first_dot(text, 0) {
        Some(at) => if vstd::utf8::is_ascii_chars(text) && crate::util::is_ident(text.take(at))
            && crate::util::is_ident(text.skip(at + 1)) {
            Some(FqnView { lib: text.take(at), name: text.skip(at + 1) })
        } else {
            None
        },
        None => None,
    }
}

/// A fully qualified name as text: the name of the library, a `.`, and the
/// name of the type.
pub open spec fn fqn_text(fqn: FqnView) -> Seq<char> {
    fqn.lib + "."@ + fqn.name
}

impl TypeFqn {
    /// The fully qualified name that `value` spells, if it spells one.
    pub fn parse(value: &str) -> (res: Option<TypeFqn>)
        ensures
            match res {
                Some(fqn) => parse_fqn(value@) == Some(fqn@),
                None => parse_fqn(value@) is None,
            },
    {
        broadcast use vstd::string::is_ascii_spec_bytes;

        if !value.is_ascii() {
            return None;
        }
        let bytes = value.as_bytes();
        let n = bytes.len();
        assert(forall|i: int| 0 <= i < n ==> bytes@[i] == value@[i] as u8);
        let mut at: usize = 0;
        while at < n
            invariant
                0 <= at <= n,
                n == value@.len(),
                n == bytes@.len(),
                vstd::utf8::is_ascii_chars(value@),
                forall|i: int| 0 <= i < n ==> bytes@[i] == value@[i] as u8,
                first_dot(value@, 0) == first_dot(value@, at as int),
            decreases n - at,
        {
            assert('\0' <= value@[at as int] <= '\u{7f}');
            if bytes[at] == 0x2e {
                assert(value@[at as int] == '.');
                let lib = value.substring_ascii(0, at);
                let name = value.substring_ascii(at + 1, n);
                assert(lib@ =~= value@.take(at as int));
                assert(name@ =~= value@.skip(at + 1));
                return match (crate::util::Ident::try_from(lib), crate::util::Ident::try_from(name)) {
                    (Ok(lib), Ok(name)) => Some(TypeFqn { lib, name }),
                    _ => None,
                };
            }
            assert(value@[at as int] != '.');
            at = at + 1;
        }
        None
    }

    /// The fully qualified name that `value` spells.
    pub fn from_static(value: &'static str) -> (res: TypeFqn)
        requires
            parse_fqn(value@) is Some,
        ensures
            parse_fqn(value@) == Some(res@),
    {
        match TypeFqn::parse(value) {
            Some(fqn) => fqn,
            None => vstd::pervasive::unreached(),
        }
    }

    /// The name as text: the name of the library, a `.`, and the name of
    /// the type.
    pub fn to_string(&self) -> (res: String)
        ensures
            res@ == fqn_text(self@),
    {
        let mut out = String::from_str(self.lib.as_str());
        out.append(".");
        out.append(self.name.as_str());
        out
    }

    /// The fully qualified name of the type `name` of the library `lib`.
    pub fn with(lib: LibName, name: TypeName) -> (res: TypeFqn)
        ensures
            res@ == (FqnView { lib: lib@, name: name@ }),
    {
        TypeFqn { lib, name }
    }

    /// The identity of the name, as a recursive reference to the type of
    /// this name holds it.
    pub fn link(&self) -> (res: SemId)
        ensures
            res@ == link_id(self@),
    {
        let mut bytes: Vec<u8> = Vec::new();
        self.lib.encode_into(&mut bytes);
        self.name.encode_into(&mut bytes);
        SemId::of_link(bytes.as_slice())
    }

    /// Whether both name the same type of the same library.
    pub fn same(&self, other: &TypeFqn) -> (res: bool)
        ensures
            res == (self@ == other@),
    {
        self.lib.same(&other.lib) && self.name.same(&other.name)
    }
}

/// A compiled type with, where it has one, the name it was declared under.
#[derive(Clone, Debug)]
pub struct SymTy {
    /// From which library and under which name the type comes; nothing for
    /// an unnamed type.
    pub orig: Option<TypeFqn>,
    /// The type, which refers to other types by their semantic identity.
    pub ty: Ty<SemId>,
}

/// The semantic identity of a type rests on its structure alone: two types
/// of the same structure have it in common, whatever the names and the
/// libraries under which they were declared.
pub proof fn lemma_sem_id_by_structure(a: SymTy, b: SymTy)
    requires
        a.ty@ == b.ty@,
    ensures
        a.spec_id() == b.spec_id(),
{
}

impl SymTy {
    /// The semantic identity of the type.
    pub open spec fn spec_id(self) -> Seq<u8> {
        crate::ty::sem_id_of(self.ty@)
    }

    /// The semantic identity of the type, or `None` where it holds more
    /// variants, alternatives, members or fields than the format can count.
    pub fn id(&self) -> (res: Option<SemId>)
        ensures
            match res {
                Some(id) => self.ty@.wf() && id@ == self.spec_id(),
                None => !self.ty@.wf(),
            },
    {
        self.ty.sem_id()
    }

    /// The type `ty`, declared as `ty_name` in the library `lib_name`.
    pub fn named(lib_name: LibName, ty_name: TypeName, ty: Ty<SemId>) -> (res: SymTy)
        ensures
            res.ty == ty,
            res.orig matches Some(fqn) && fqn@ == (FqnView { lib: lib_name@, name: ty_name@ }),
    {
        SymTy::with(Some(TypeFqn::with(lib_name, ty_name)), ty)
    }

    /// The type `ty`, without a name.
    pub fn unnamed(ty: Ty<SemId>) -> (res: SymTy)
        ensures
            res.ty == ty,
            res.orig is None,
    {
        SymTy::with(None, ty)
    }

    /// The type `ty` with the origin `orig`.
    pub fn with(orig: Option<TypeFqn>, ty: Ty<SemId>) -> (res: SymTy)
        ensures
            res.ty == ty,
            res.orig == orig,
    {
        SymTy { orig, ty }
    }
}

/// A bound of the type system that an operation would break.
#[derive(Copy, Clone, PartialEq, Eq, Structural, Hash, Debug)]
pub enum BoundError {
    /// The system holds `MAX_TYPES` types already.
    TooManyTypes,
    /// The system names `MAX_LIBS` libraries already.
    TooManyLibs,
    /// The canonical bytes of the system would be more than `MAX_SIZE` bytes.
    TooLarge,
    /// A type holds more variants, alternatives, members or fields than the
    /// format can count.
    TooManyMembers,
}

/// The types of a system, each under its semantic identity; ordered by
/// identity, and confined to `MAX_TYPES` entries. It is the `MediumOrdMap`
/// of `amplify`: a `BTreeMap` that refuses to grow beyond that bound.
#[verifier::external_body]
pub struct TypeMap {
    inner: MediumOrdMap<[u8; 32], Ty<SemId>>,
}

/// What a map of types holds: each type under the 32 bytes of its key.
pub uninterp spec fn type_map(map: TypeMap) -> Map<Seq<u8>, Ty<SemId>>;

/// `types` holds `count` types, and no more.
pub open spec fn holds_count(types: Map<Seq<u8>, Ty<SemId>>, count: nat) -> bool {
    types.dom().finite() && types.dom().len() == count
}

/// No types at all.
pub open spec fn empty_types() -> Map<Seq<u8>, Ty<SemId>> {
    Map::empty()
}

/// The byte strings that the keys hold, in their order.
pub open spec fn key_views(keys: Seq<[u8; 32]>) -> Seq<Seq<u8>> {
    Seq::new(keys.len(), |i: int| keys[i]@)
}

/// `row` lists the keys of `types`: each once, in ascending order.
pub open spec fn lists_keys(types: Map<Seq<u8>, Ty<SemId>>, row: Seq<Seq<u8>>) -> bool {
    sorted_ids(row) && row.to_set() == types.dom()
}

/// What `get` finds in `types` under `key`.
pub open spec fn found(types: Map<Seq<u8>, Ty<SemId>>, key: Seq<u8>) -> Option<Ty<SemId>> {
    if types.dom().contains(key) {
        Some(types[key])
    } else {
        None
    }
}

/// What `insert` returns, and what it leaves in the map, where the map held
/// `before` and was asked to take `ty` under `key`: at `MAX_TYPES` entries it
/// refuses and changes nothing, below that it puts `ty` under `key` and hands
/// back what was there.
pub open spec fn inserted(
    before: Map<Seq<u8>, Ty<SemId>>,
    key: Seq<u8>,
    ty: Ty<SemId>,
    after: Map<Seq<u8>, Ty<SemId>>,
    refused: bool,
    displaced: Option<Ty<SemId>>,
) -> bool {
    if before.dom().len() >= MAX_TYPES {
        refused && after == before
    } else {
        !refused && after == before.insert(key, ty) && displaced == found(before, key)
    }
}

/// The outcome of an insertion as plain values.
pub open spec fn outcome(res: Result<Option<Ty<SemId>>, amplify::confinement::Error>) -> (
    bool,
    Option<Ty<SemId>>,
) {
    match res {
        Ok(displaced) => (false, displaced),
        Err(_) => (true, None),
    }
}

impl TypeMap {
    /// `Confined::new`: a map that holds nothing.
    #[verifier::external_body]
    pub(crate) fn new() -> (res: TypeMap)
        ensures
            type_map(res) == empty_types(),
    {
        TypeMap { inner: MediumOrdMap::new() }
    }

    /// `Confined::len`, which is the length of the `BTreeMap` inside: the
    /// number of keys. The confinement keeps it at `MAX_TYPES` or below.
    #[verifier::external_body]
    pub(crate) fn len(&self) -> (res: usize)
        ensures
            holds_count(type_map(*self), res as nat),
            res <= MAX_TYPES,
    {
        self.inner.len()
    }

    /// `BTreeMap::get`, reached through `Confined`: the value under `key`,
    /// if there is one.
    #[verifier::external_body]
    pub(crate) fn get(&self, key: &[u8; 32]) -> (res: Option<&Ty<SemId>>)
        ensures
            res == match found(type_map(*self), key@) {
                Some(ty) => Some(&ty),
                None => None,
            },
    {
        self.inner.get(key)
    }

    /// `Confined::insert` on a keyed collection: with `MAX_TYPES` entries in
    /// the map it returns an error and leaves the map as it is, whether or
    /// not `key` is there already; else it is `BTreeMap::insert`, which puts
    /// the value under the key and returns the value that was there.
    #[verifier::external_body]
    pub(crate) fn insert(&mut self, key: [u8; 32], ty: Ty<SemId>) -> (res: Result<
        Option<Ty<SemId>>,
        amplify::confinement::Error,
    >)
        ensures
            inserted(
                type_map(*old(self)),
                key@,
                ty,
                type_map(*final(self)),
                outcome(res).0,
                outcome(res).1,
            ),
    {
        self.inner.insert(key, ty)
    }

    /// `BTreeMap::keys`, reached through `Confined`: the keys in ascending
    /// order, each once. Arrays of bytes are ordered as byte strings are.
    #[verifier::external_body]
    pub(crate) fn keys(&self) -> (res: Vec<[u8; 32]>)
        ensures
            lists_keys(type_map(*self), key_views(res@)),
    {
        self.inner.keys().copied().collect()
    }
}

/// Both maps hold types of the same structure under the same identities.
pub open spec fn same_types(a: Map<Seq<u8>, Ty<SemId>>, b: Map<Seq<u8>, Ty<SemId>>) -> bool {
    &&& a.dom() == b.dom()
    &&& forall|id: Seq<u8>| #[trigger] a.dom().contains(id) ==> a[id]@ == b[id]@
}

impl Clone for TypeMap {
    /// `Confined::clone`, derived, which clones the `BTreeMap` inside: a map
    /// with the same keys and, under each, a copy of the type, which has the
    /// same structure.
    #[verifier::external_body]
    fn clone(&self) -> (res: TypeMap)
        ensures
            same_types(type_map(res), type_map(*self)),
    {
        TypeMap { inner: self.inner.clone() }
    }
}

impl core::fmt::Debug for TypeMap {
    /// `Confined::fmt`, derived.
    #[verifier::external_body]
    fn fmt(&self, f: &mut core::fmt::Formatter<'_>) -> (res: Result<(), core::fmt::Error>) {
        core::fmt::Debug::fmt(&self.inner, f)
    }
}

/// The ascending row of the identities in `ids`.
pub open spec fn id_row(ids: Set<Seq<u8>>) -> Seq<Seq<u8>> {
    choose|row: Seq<Seq<u8>>| sorted_ids(row) && row.to_set() == ids
}

/// The three bytes of `n`, the lowest first.
pub open spec fn encode_u24(n: nat) -> Seq<u8> {
    seq![(n % 256) as u8, ((n / 256) % 256) as u8, ((n / 65536) % 256) as u8]
}

/// The views of a row of library identities.
pub open spec fn lib_views(libs: Seq<TypeLibId>) -> Seq<Seq<u8>> {
    Seq::new(libs.len(), |i: int| libs[i]@)
}

/// The views of a row of semantic identities.
pub open spec fn id_views(ids: Seq<SemId>) -> Seq<Seq<u8>> {
    Seq::new(ids.len(), |i: int| ids[i]@)
}

/// What a type system commits to: how many libraries it names, their
/// identities in ascending order, how many types it holds, their identities
/// in ascending order.
pub open spec fn commitment(libs: Seq<Seq<u8>>, ids: Seq<Seq<u8>>) -> Seq<u8> {
    encode_u16(libs.len() as u16) + encode_members(libs) + encode_u24(ids.len()) + encode_members(
        ids,
    )
}

/// `id` is referred to by a type of `types` and is not itself among them.
pub open spec fn dangling(types: Map<Seq<u8>, Ty<SemId>>, id: Seq<u8>) -> bool {
    &&& !types.dom().contains(id)
    &&& exists|key: Seq<u8>, i: int|
        types.dom().contains(key) && 0 <= i < types[key]@.refs().len()
            && #[trigger] refers(types, key, i) == id
}

/// The `i`-th reference of the type under `key`.
pub open spec fn refers(types: Map<Seq<u8>, Ty<SemId>>, key: Seq<u8>, i: int) -> Seq<u8> {
    types[key]@.refs()[i]
}

/// Every type that a type of `types` refers to is among them.
pub open spec fn complete(types: Map<Seq<u8>, Ty<SemId>>) -> bool {
    forall|id: Seq<u8>| !dangling(types, id)
}

/// A set of compiled types, assembled from one or more libraries, with all
/// that is needed to analyse any of them: it holds fewer than 2^24 types,
/// each under its semantic identity, and names the libraries they came from.
#[derive(Debug)]
pub struct TypeSystem {
    libs: Vec<TypeLibId>,
    types: TypeMap,
}

impl TypeSystem {
    /// The libraries are named in ascending order, each once, and there are
    /// no more of them than `MAX_LIBS`.
    pub closed spec fn wf(self) -> bool {
        &&& sorted_ids(lib_views(self.libs@))
        &&& self.libs@.len() <= MAX_LIBS
    }

    /// The libraries of a system whose libraries are in order are in order,
    /// and no more than `MAX_LIBS`.
    pub proof fn lemma_libs_in_order(self)
        requires
            self.wf(),
        ensures
            sorted_ids(self.lib_ids()),
            self.lib_ids().len() <= MAX_LIBS,
    {
    }

    /// The types of the system, each under the bytes of its identity.
    pub closed spec fn types(self) -> Map<Seq<u8>, Ty<SemId>> {
        type_map(self.types)
    }

    /// The identities of the libraries that the system names, ascending.
    pub closed spec fn lib_ids(self) -> Seq<Seq<u8>> {
        lib_views(self.libs@)
    }

    /// The system is closed: its libraries are in order, every type that a
    /// type refers to is in it, and no bound is broken. Every type system
    /// that leaves this crate is.
    pub open spec fn is_closed(self) -> bool {
        &&& self.wf()
        &&& closed(self.lib_ids(), self.types())
        &&& all_ok(self.types())
        &&& lists_keys(self.types(), self.sem_ids())
    }

    /// The identities of the types of the system, ascending.
    pub open spec fn sem_ids(self) -> Seq<Seq<u8>> {
        id_row(self.types().dom())
    }

    /// The identity of the system.
    pub open spec fn spec_id(self) -> Seq<u8> {
        tagged_hash(typesys_id_tag(), commitment(self.lib_ids(), self.sem_ids()))
    }

    /// A type system without types or libraries.
    pub fn new() -> (res: TypeSystem)
        ensures
            res.is_closed(),
            res.types() == empty_types(),
            res.lib_ids() == Seq::<Seq<u8>>::empty(),
    {
        let res = TypeSystem { libs: Vec::new(), types: TypeMap::new() };
        proof {
            assert(res.lib_ids() =~= Seq::<Seq<u8>>::empty());
            lemma_empty_closed();
        }
        res
    }

    /// The number of types in the system.
    pub fn count_types(&self) -> (res: u32)
        ensures
            holds_count(self.types(), res as nat),
            res <= MAX_TYPES,
    {
        self.types.len() as u32
    }

    /// The number of libraries that the system names.
    pub fn count_libs(&self) -> (res: u16)
        requires
            self.wf(),
        ensures
            res == self.lib_ids().len(),
    {
        self.libs.len() as u16
    }

    /// Puts `ty` into the system under `sem_id`, whatever its own identity
    /// is, and tells whether a type was there under `sem_id` before. A
    /// system that holds `MAX_TYPES` types stays as it is and the bound is
    /// reported.
    pub(crate) fn insert_unchecked(&mut self, sem_id: SemId, ty: Ty<SemId>) -> (res: Result<
        bool,
        BoundError,
    >)
        ensures
            final(self).lib_ids() == old(self).lib_ids(),
            final(self).wf() == old(self).wf(),
            match res {
                Ok(present) => {
                    &&& old(self).types().dom().len() < MAX_TYPES
                    &&& present == old(self).types().dom().contains(sem_id@)
                    &&& final(self).types() == old(self).types().insert(sem_id@, ty)
                },
                Err(e) => {
                    &&& e == BoundError::TooManyTypes
                    &&& old(self).types().dom().len() >= MAX_TYPES
                    &&& final(self).types() == old(self).types()
                },
            },
    {
        match self.types.insert(sem_id.to_byte_array(), ty) {
            Ok(displaced) => Ok(displaced.is_some()),
            Err(_) => Err(BoundError::TooManyTypes),
        }
    }

    /// The type under `sem_id`, if the system holds one.
    pub fn get(&self, sem_id: SemId) -> (res: Option<&Ty<SemId>>)
        ensures
            res == match found(self.types(), sem_id@) {
                Some(ty) => Some(&ty),
                None => None,
            },
    {
        let key = sem_id.to_byte_array();
        self.types.get(&key)
    }

    /// The type under `sem_id`, which the system holds.
    pub fn index(&self, index: SemId) -> (res: &Ty<SemId>)
        requires
            self.types().dom().contains(index@),
        ensures
            *res == self.types()[index@],
    {
        match self.get(index) {
            Some(ty) => ty,
            None => vstd::pervasive::unreached(),
        }
    }

    /// Whether the system holds a type under `sem_id`.
    pub fn contains(&self, sem_id: &SemId) -> (res: bool)
        ensures
            res == self.types().dom().contains(sem_id@),
    {
        let key = sem_id.to_byte_array();
        self.types.get(&key).is_some()
    }

    /// The identities of the types of the system, in ascending order.
    pub fn ids(&self) -> (res: Vec<SemId>)
        ensures
            id_views(res@) == self.sem_ids(),
            lists_keys(self.types(), self.sem_ids()),
    {
        let keys = self.types.keys();
        let mut out: Vec<SemId> = Vec::new();
        let mut i: usize = 0;
        while i < keys.len()
            invariant
                0 <= i <= keys.len(),
                out@.len() == i,
                forall|j: int| 0 <= j < i ==> (#[trigger] out@[j])@ == keys@[j]@,
            decreases keys.len() - i,
        {
            out.push(SemId::from_byte_array(keys[i]));
            i = i + 1;
        }
        proof {
            assert(id_views(out@) =~= key_views(keys@));
            let row = id_row(self.types().dom());
            lemma_sorted_unique(key_views(keys@), row);
        }
        out
    }

    /// The identities of the libraries that the system names, in ascending
    /// order.
    pub fn libs(&self) -> (res: &Vec<TypeLibId>)
        requires
            self.wf(),
        ensures
            lib_views(res@) == self.lib_ids(),
            sorted_ids(self.lib_ids()),
            res@.len() <= MAX_LIBS,
    {
        &self.libs
    }

    /// Notes that types of the library `lib` are in the system. A library
    /// that is named already is not named twice; a system that names
    /// `MAX_LIBS` other libraries stays as it is and the bound is reported.
    pub(crate) fn add_lib(&mut self, lib: TypeLibId) -> (res: Result<(), BoundError>)
        requires
            old(self).wf(),
        ensures
            final(self).wf(),
            final(self).types() == old(self).types(),
            sorted_ids(final(self).lib_ids()),
            match res {
                Ok(()) => {
                    &&& final(self).lib_ids().to_set() == old(self).lib_ids().to_set().insert(lib@)
                    &&& (old(self).lib_ids().contains(lib@) || old(self).lib_ids().len() < MAX_LIBS)
                },
                Err(e) => {
                    &&& e == BoundError::TooManyLibs
                    &&& final(self).lib_ids() == old(self).lib_ids()
                    &&& !old(self).lib_ids().contains(lib@)
                    &&& old(self).lib_ids().len() >= MAX_LIBS
                },
            },
    {
        let ghost before = lib_views(self.libs@);
        proof {
            lib.lemma_len();
        }
        // the place of the first identity that does not come before `lib`
        let mut at: usize = 0;
        while at < self.libs.len() && self.libs[at].before(&lib)
            invariant
                0 <= at <= self.libs.len(),
                *self == *old(self),
                self.wf(),
                before == lib_views(self.libs@),
                forall|j: int| 0 <= j < at ==> lex_lt(#[trigger] before[j], lib@),
            decreases self.libs.len() - at,
        {
            at = at + 1;
        }
        if at < self.libs.len() && self.libs[at].same(&lib) {
            assert(before[at as int] == lib@);
            assert(before.to_set().insert(lib@) =~= before.to_set());
            return Ok(());
        }
        proof {
            // `lib` is not in the row: all before `at` come before it, all from `at` on come after
            assert forall|j: int| 0 <= j < before.len() implies before[j] != lib@ by {
                if j < at {
                    lemma_lex_irreflexive(lib@);
                } else if j > at {
                    assert(lex_lt(before[at as int], before[j]));
                    crate::id::lemma_lex_total(before[at as int], lib@);
                    if lex_lt(before[at as int], lib@) {
                    } else {
                        lemma_lex_transitive(lib@, before[at as int], before[j]);
                        lemma_lex_irreflexive(lib@);
                    }
                }
            }
            assert(!before.contains(lib@));
        }
        if self.libs.len() >= MAX_LIBS {
            return Err(BoundError::TooManyLibs);
        }
        self.libs.insert(at, lib);
        proof {
            let after = lib_views(self.libs@);
            assert(after =~= before.insert(at as int, lib@));
            assert forall|i: int, j: int| 0 <= i < j < after.len() implies lex_lt(
                #[trigger] after[i],
                #[trigger] after[j],
            ) by {
                if j < at {
                } else if j == at {
                } else if i == at {
                    // after[j] == before[j - 1], at or behind the first that does not come before `lib`
                    let k = j - 1;
                    assert(after[j] == before[k]);
                    crate::id::lemma_lex_total(before[at as int], lib@);
                    if lex_lt(before[at as int], lib@) {
                        assert(false);
                    }
                    if k > at {
                        assert(lex_lt(before[at as int], before[k]));
                        lemma_lex_transitive(lib@, before[at as int], before[k]);
                    }
                } else if i > at {
                    assert(after[i] == before[i - 1]);
                    assert(after[j] == before[j - 1]);
                } else {
                    assert(after[i] == before[i]);
                    assert(after[j] == before[j - 1]);
                    if j - 1 == i {
                        assert(false);
                    }
                }
            }
            assert(after.to_set() =~= before.to_set().insert(lib@)) by {
                assert forall|v: Seq<u8>| after.to_set().contains(v) <==> before.to_set().insert(
                    lib@,
                ).contains(v) by {
                    if after.to_set().contains(v) {
                        let i = choose|i: int| 0 <= i < after.len() && after[i] == v;
                        if i < at {
                            assert(before[i] == v);
                        } else if i > at {
                            assert(before[i - 1] == v);
                        }
                    }
                    if before.to_set().contains(v) {
                        let i = choose|i: int| 0 <= i < before.len() && before[i] == v;
                        if i < at {
                            assert(after[i] == v);
                        } else {
                            assert(after[i + 1] == v);
                        }
                    }
                    if v == lib@ {
                        assert(after[at as int] == v);
                    }
                }
            }
        }
        Ok(())
    }
}

/// A row that lists the keys of `types` is the ascending row of its keys.
pub proof fn lemma_keys_row(types: Map<Seq<u8>, Ty<SemId>>, row: Seq<Seq<u8>>)
    requires
        lists_keys(types, row),
    ensures
        row == id_row(types.dom()),
{
    let other = id_row(types.dom());
    assert(sorted_ids(row) && row.to_set() == types.dom());
    lemma_sorted_unique(row, other);
}

/// Those of `refs` under which `types` holds no type, in their order, each
/// as often as it stands in `refs`.
pub open spec fn missing_of(types: Map<Seq<u8>, Ty<SemId>>, refs: Seq<Seq<u8>>) -> Seq<Seq<u8>>
    decreases refs.len(),
{
    if refs.len() == 0 {
        Seq::empty()
    } else if types.dom().contains(refs.last()) {
        missing_of(types, refs.drop_last())
    } else {
        missing_of(types, refs.drop_last()).push(refs.last())
    }
}

/// The references of the types under `row` that lead out of `types`: one
/// for each reference under which `types` holds no type, in the order of
/// `row` and, within a type, of its references.
pub open spec fn missing_refs(types: Map<Seq<u8>, Ty<SemId>>, row: Seq<Seq<u8>>) -> Seq<Seq<u8>>
    decreases row.len(),
{
    if row.len() == 0 {
        Seq::empty()
    } else {
        missing_refs(types, row.drop_last()) + missing_of(types, types[row.last()]@.refs())
    }
}

/// `id` is referred to from nowhere within `types`, counting among the types
/// under `row` only the references before the `b`-th of the `a`-th type.
pub open spec fn dangling_before(
    types: Map<Seq<u8>, Ty<SemId>>,
    row: Seq<Seq<u8>>,
    a: int,
    b: int,
    id: Seq<u8>,
) -> bool {
    &&& !types.dom().contains(id)
    &&& exists|j: int, i: int|
        0 <= j < row.len() && 0 <= i < types[row[j]]@.refs().len() && (j < a || (j == a && i < b))
            && #[trigger] refers(types, row[j], i) == id
}

fn push_u24(out: &mut Vec<u8>, n: usize)
    ensures
        final(out)@ == old(out)@ + encode_u24(n as nat),
{
    out.push((n % 256) as u8);
    out.push(((n / 256) % 256) as u8);
    out.push(((n / 65536) % 256) as u8);
    assert(out@ =~= old(out)@ + encode_u24(n as nat));
}

impl TypeSystem {
    /// Appends to `out` what the system commits to: the number of its
    /// libraries and their identities, the number of its types and their
    /// identities, both in ascending order.
    pub fn sem_commit(&self, out: &mut Vec<u8>)
        requires
            self.wf(),
        ensures
            final(out)@ == old(out)@ + commitment(self.lib_ids(), self.sem_ids()),
    {
        let ghost libs = self.lib_ids();
        let ghost ids = self.sem_ids();
        let count = self.libs.len();
        out.push((count % 256) as u8);
        out.push((count / 256) as u8);
        let ghost head = out@;
        assert(head =~= old(out)@ + encode_u16(libs.len() as u16));
        let mut i: usize = 0;
        while i < self.libs.len()
            invariant
                0 <= i <= self.libs.len(),
                libs == lib_views(self.libs@),
                out@ == head + encode_members(libs.take(i as int)),
            decreases self.libs.len() - i,
        {
            assert(libs.take(i + 1).drop_last() =~= libs.take(i as int));
            let bytes = self.libs[i].to_byte_array();
            append_array(out, &bytes);
            i = i + 1;
        }
        assert(libs.take(i as int) =~= libs);
        let sem_ids = self.ids();
        push_u24(out, sem_ids.len());
        let ghost middle = out@;
        let mut k: usize = 0;
        while k < sem_ids.len()
            invariant
                0 <= k <= sem_ids.len(),
                ids == id_views(sem_ids@),
                out@ == middle + encode_members(ids.take(k as int)),
            decreases sem_ids.len() - k,
        {
            assert(ids.take(k + 1).drop_last() =~= ids.take(k as int));
            let bytes = sem_ids[k].to_byte_array();
            append_array(out, &bytes);
            k = k + 1;
        }
        assert(ids.take(k as int) =~= ids);
        assert(out@ =~= old(out)@ + commitment(libs, ids));
    }

    /// The identity of the system: the hash, under the tag for type systems,
    /// of what the system commits to. It is computed anew on each call.
    pub fn id(&self) -> (res: TypeSysId)
        requires
            self.wf(),
        ensures
            res@ == self.spec_id(),
    {
        let mut content: Vec<u8> = Vec::new();
        self.sem_commit(&mut content);
        assert(content@ =~= commitment(self.lib_ids(), self.sem_ids()));
        TypeSysId::of_content(content.as_slice())
    }

    /// The references that lead out of the system: each identity that a type
    /// of the system refers to and that the system holds no type under, in
    /// the order of the types and of their references. The system is
    /// complete where there is none.
    pub fn dangling_refs(&self) -> (res: Vec<SemId>)
        ensures
            id_views(res@) == missing_refs(self.types(), self.sem_ids()),
            forall|id: Seq<u8>| id_views(res@).contains(id) <==> dangling(self.types(), id),
            res@.len() == 0 <==> complete(self.types()),
    {
        let ghost types = self.types();
        let keys = self.types.keys();
        let ghost row = key_views(keys@);
        let mut out: Vec<SemId> = Vec::new();
        let mut a: usize = 0;
        proof {
            assert(row.take(0) =~= Seq::<Seq<u8>>::empty());
            assert(id_views(out@) =~= missing_refs(types, row.take(0)));
        }
        while a < keys.len()
            invariant
                0 <= a <= keys.len(),
                types == self.types(),
                row == key_views(keys@),
                lists_keys(types, row),
                id_views(out@) == missing_refs(types, row.take(a as int)),
                forall|id: Seq<u8>|
                    id_views(out@).contains(id) <==> dangling_before(types, row, a as int, 0, id),
            decreases keys.len() - a,
        {
            let key = keys[a];
            assert(row[a as int] == key@);
            assert(row.to_set().contains(key@));
            let ty = match self.types.get(&key) {
                Some(ty) => ty,
                None => vstd::pervasive::unreached(),
            };
            let refs = ty.refs();
            let mut b: usize = 0;
            let ghost targets = ty@.refs();
            proof {
                assert(targets.take(0) =~= Seq::<Seq<u8>>::empty());
                assert(id_views(out@) =~= missing_refs(types, row.take(a as int)) + missing_of(
                    types,
                    targets.take(0),
                ));
            }
            while b < refs.len()
                invariant
                    0 <= b <= refs.len(),
                    0 <= a < keys.len(),
                    targets == ty@.refs(),
                    id_views(out@) == missing_refs(types, row.take(a as int)) + missing_of(
                        types,
                        targets.take(b as int),
                    ),
                    types == self.types(),
                    row == key_views(keys@),
                    lists_keys(types, row),
                    *ty == types[row[a as int]],
                    refs@.len() == ty@.refs().len(),
                    forall|i: int| 0 <= i < refs@.len() ==> (#[trigger] refs@[i])@ == ty@.refs()[i],
                    forall|id: Seq<u8>|
                        id_views(out@).contains(id) <==> dangling_before(
                            types,
                            row,
                            a as int,
                            b as int,
                            id,
                        ),
                decreases refs.len() - b,
            {
                let target = refs[b];
                let ghost seen = id_views(out@);
                let ghost here = refers(types, row[a as int], b as int);
                assert(here == target@);
                let missing = !self.contains(target);
                if missing {
                    out.push(*target);
                    assert(id_views(out@) =~= seen.push(target@));
                }
                proof {
                    assert(targets.take(b + 1).drop_last() =~= targets.take(b as int));
                    assert(targets.take(b + 1).last() == target@);
                    assert(id_views(out@) =~= missing_refs(types, row.take(a as int)) + missing_of(
                        types,
                        targets.take(b + 1),
                    ));
                }
                proof {
                    let now = id_views(out@);
                    assert forall|id: Seq<u8>| now.contains(id) <==> dangling_before(
                        types,
                        row,
                        a as int,
                        b + 1,
                        id,
                    ) by {
                        if now.contains(id) {
                            if seen.contains(id) {
                                let (j, i) = choose|j: int, i: int|
                                    0 <= j < row.len() && 0 <= i < types[row[j]]@.refs().len() && (j
                                        < a || (j == a && i < b)) && #[trigger] refers(
                                        types,
                                        row[j],
                                        i,
                                    ) == id;
                                assert(refers(types, row[j], i) == id);
                            } else {
                                let at = choose|at: int| 0 <= at < now.len() && now[at] == id;
                                assert(missing);
                                assert(id == target@);
                                assert(refers(types, row[a as int], b as int) == id);
                            }
                            assert(dangling_before(types, row, a as int, b + 1, id));
                        }
                        if dangling_before(types, row, a as int, b + 1, id) {
                            let (j, i) = choose|j: int, i: int|
                                0 <= j < row.len() && 0 <= i < types[row[j]]@.refs().len() && (j < a
                                    || (j == a && i < b + 1)) && #[trigger] refers(types, row[j], i)
                                    == id;
                            if j == a && i == b {
                                assert(id == target@);
                                assert(missing);
                                assert(now[now.len() - 1] == id);
                            } else {
                                assert(refers(types, row[j], i) == id);
                                assert(dangling_before(types, row, a as int, b as int, id));
                                assert(seen.contains(id));
                                let at = choose|at: int| 0 <= at < seen.len() && seen[at] == id;
                                assert(now[at] == id);
                            }
                        }
                    }
                }
                b = b + 1;
            }
            proof {
                assert(targets.take(b as int) =~= targets);
                assert(row.take(a + 1).drop_last() =~= row.take(a as int));
                assert(row.take(a + 1).last() == row[a as int]);
                assert(id_views(out@) =~= missing_refs(types, row.take(a + 1)));
            }
            proof {
                assert forall|id: Seq<u8>| dangling_before(types, row, a as int, b as int, id)
                    <==> dangling_before(types, row, a + 1, 0, id) by {
                    if dangling_before(types, row, a as int, b as int, id) {
                        let (j, i) = choose|j: int, i: int|
                            0 <= j < row.len() && 0 <= i < types[row[j]]@.refs().len() && (j < a
                                || (j == a && i < b)) && #[trigger] refers(types, row[j], i) == id;
                        assert(refers(types, row[j], i) == id);
                    }
                    if dangling_before(types, row, a + 1, 0, id) {
                        let (j, i) = choose|j: int, i: int|
                            0 <= j < row.len() && 0 <= i < types[row[j]]@.refs().len() && (j < a + 1
                                || (j == a + 1 && i < 0)) && #[trigger] refers(types, row[j], i)
                                == id;
                        assert(refers(types, row[j], i) == id);
                    }
                }
            }
            a = a + 1;
        }
        proof {
            assert(row.take(a as int) =~= row);
            lemma_keys_row(types, row);
        }
        proof {
            assert forall|id: Seq<u8>| dangling_before(types, row, a as int, 0, id) <==> dangling(
                types,
                id,
            ) by {
                if dangling_before(types, row, a as int, 0, id) {
                    let (j, i) = choose|j: int, i: int|
                        0 <= j < row.len() && 0 <= i < types[row[j]]@.refs().len() && (j < a || (j
                            == a && i < 0)) && #[trigger] refers(types, row[j], i) == id;
                    assert(row.to_set().contains(row[j]));
                    assert(refers(types, row[j], i) == id);
                }
                if dangling(types, id) {
                    let (key, i) = choose|key: Seq<u8>, i: int|
                        types.dom().contains(key) && 0 <= i < types[key]@.refs().len()
                            && #[trigger] refers(types, key, i) == id;
                    assert(row.to_set().contains(key));
                    let j = choose|j: int| 0 <= j < row.len() && row[j] == key;
                    assert(refers(types, row[j], i) == id);
                }
            }
            if out@.len() == 0 {
                assert forall|id: Seq<u8>| !dangling(types, id) by {
                    if dangling(types, id) {
                        assert(id_views(out@).contains(id));
                    }
                }
            } else {
                assert(id_views(out@).contains(id_views(out@)[0]));
                assert(dangling(types, id_views(out@)[0]));
            }
        }
        out
    }
}

/// The canonical bytes of the types under `row`, in its order: for each,
/// its identity and the canonical bytes of the type.
pub open spec fn encode_entries(types: Map<Seq<u8>, Ty<SemId>>, row: Seq<Seq<u8>>) -> Seq<u8>
    decreases row.len(),
{
    if row.len() == 0 {
        Seq::empty()
    } else {
        encode_entries(types, row.drop_last()) + row.last() + crate::ty::encode_ty(
            types[row.last()]@,
        )
    }
}

/// The canonical bytes of a type system: what it commits to about its
/// libraries, the number of its types, and its types in ascending order of
/// their identities.
pub open spec fn system_bytes(libs: Seq<Seq<u8>>, types: Map<Seq<u8>, Ty<SemId>>) -> Seq<u8> {
    encode_u16(libs.len() as u16) + encode_members(libs) + encode_u24(id_row(types.dom()).len())
        + encode_entries(types, id_row(types.dom()))
}

/// Every type of `types` can be written and read back.
pub open spec fn all_ok(types: Map<Seq<u8>, Ty<SemId>>) -> bool {
    forall|id: Seq<u8>| types.dom().contains(id) ==> crate::ty::ty_ok((#[trigger] types[id])@)
}

/// Every type of `types` holds no more than the format can count.
pub open spec fn all_wf(types: Map<Seq<u8>, Ty<SemId>>) -> bool {
    forall|id: Seq<u8>| types.dom().contains(id) ==> (#[trigger] types[id])@.wf()
}

impl TypeSystem {
    /// The system that names `libs` and holds `types`.
    pub(crate) fn from_parts(libs: Vec<TypeLibId>, types: TypeMap) -> (res: TypeSystem)
        requires
            sorted_ids(lib_views(libs@)),
            libs@.len() <= MAX_LIBS,
        ensures
            res.wf(),
            res.lib_ids() == lib_views(libs@),
            res.types() == type_map(types),
    {
        TypeSystem { libs, types }
    }

    /// The canonical bytes of the system.
    pub open spec fn spec_bytes(self) -> Seq<u8> {
        system_bytes(self.lib_ids(), self.types())
    }

    /// The canonical bytes of the system. There are none where a type holds
    /// more than the format can count, nor where they would be more than
    /// `MAX_SIZE` bytes.
    pub fn serialize(&self) -> (res: Result<Vec<u8>, BoundError>)
        requires
            self.wf(),
        ensures
            match res {
                Ok(bytes) => {
                    &&& all_wf(self.types())
                    &&& all_ok(self.types())
                    &&& lists_keys(self.types(), self.sem_ids())
                    &&& bytes@ == self.spec_bytes()
                    &&& bytes@.len() <= MAX_SIZE
                },
                Err(BoundError::TooManyMembers) => !all_wf(self.types()),
                Err(BoundError::TooLarge) => {
                    &&& all_wf(self.types())
                    &&& self.spec_bytes().len() > MAX_SIZE
                },
                Err(_) => false,
            },
    {
        let ghost libs = self.lib_ids();
        let ghost types = self.types();
        let mut out: Vec<u8> = Vec::new();
        let count = self.libs.len();
        out.push((count % 256) as u8);
        out.push((count / 256) as u8);
        let ghost head = out@;
        assert(head =~= encode_u16(libs.len() as u16));
        let mut i: usize = 0;
        while i < self.libs.len()
            invariant
                0 <= i <= self.libs.len(),
                libs == lib_views(self.libs@),
                out@ == head + encode_members(libs.take(i as int)),
            decreases self.libs.len() - i,
        {
            assert(libs.take(i + 1).drop_last() =~= libs.take(i as int));
            let bytes = self.libs[i].to_byte_array();
            append_array(&mut out, &bytes);
            i = i + 1;
        }
        assert(libs.take(i as int) =~= libs);
        let keys = self.types.keys();
        let ghost row = key_views(keys@);
        proof {
            lemma_sorted_unique(row, id_row(types.dom()));
        }
        push_u24(&mut out, keys.len());
        let ghost middle = out@;
        let mut k: usize = 0;
        while k < keys.len()
            invariant
                0 <= k <= keys.len(),
                types == self.types(),
                row == key_views(keys@),
                lists_keys(types, row),
                out@ == middle + encode_entries(types, row.take(k as int)),
                forall|j: int| 0 <= j < k ==> crate::ty::ty_ok((#[trigger] types[row[j]])@),
            decreases keys.len() - k,
        {
            assert(row.take(k + 1).drop_last() =~= row.take(k as int));
            assert(row[k as int] == keys@[k as int]@);
            assert(row.to_set().contains(row[k as int]));
            let key = keys[k];
            let ty = match self.types.get(&key) {
                Some(ty) => ty,
                None => vstd::pervasive::unreached(),
            };
            match ty.encode() {
                Some(bytes) => {
                    append_array(&mut out, &key);
                    crate::hash::append_bytes(&mut out, bytes.as_slice());
                },
                None => {
                    return Err(BoundError::TooManyMembers);
                },
            }
            k = k + 1;
        }
        proof {
            assert(row.take(k as int) =~= row);
            assert forall|id: Seq<u8>| types.dom().contains(id) implies crate::ty::ty_ok(
                (#[trigger] types[id])@,
            ) by {
                assert(row.to_set().contains(id));
                let j = choose|j: int| 0 <= j < row.len() && row[j] == id;
                assert(crate::ty::ty_ok(types[row[j]]@));
            }
            assert(out@ =~= self.spec_bytes());
        }
        if out.len() > MAX_SIZE {
            return Err(BoundError::TooLarge);
        }
        Ok(out)
    }
}

/// The bound that keeps the types `types` of the libraries `libs` from
/// being a type system, if one does.
pub open spec fn broken_bound(libs: Seq<Seq<u8>>, types: Map<Seq<u8>, Ty<SemId>>) -> Option<
    BoundError,
> {
    if !all_wf(types) {
        Some(BoundError::TooManyMembers)
    } else if system_bytes(libs, types).len() > MAX_SIZE {
        Some(BoundError::TooLarge)
    } else {
        None
    }
}

/// The types `types` of the libraries `libs` make a type system: every type
/// that a type refers to is among them, and no bound is broken.
pub open spec fn closed(libs: Seq<Seq<u8>>, types: Map<Seq<u8>, Ty<SemId>>) -> bool {
    complete(types) && broken_bound(libs, types) is None
}

/// No types of no libraries make a type system.
pub proof fn lemma_empty_closed()
    ensures
        closed(Seq::empty(), empty_types()),
        all_ok(empty_types()),
        id_row(empty_types().dom()) == Seq::<Seq<u8>>::empty(),
        lists_keys(empty_types(), id_row(empty_types().dom())),
{
    let none = Seq::<Seq<u8>>::empty();
    assert(sorted_ids(none) && none.to_set() =~= empty_types().dom());
    let row = id_row(empty_types().dom());
    if row.len() > 0 {
        assert(row.to_set().contains(row[0]));
    }
    assert(row =~= none);
    let bytes = system_bytes(none, empty_types());
    assert(encode_entries(empty_types(), row) =~= Seq::<u8>::empty());
    assert(encode_members(none) =~= Seq::<u8>::empty());
    assert(bytes.len() == 5);
}

/// The identity of a type system rests on which types it holds and which
/// libraries it names, and on nothing else: not on the order in which they
/// came in.
pub proof fn lemma_sys_id_determined(a: TypeSystem, b: TypeSystem)
    requires
        a.wf(),
        b.wf(),
        a.types().dom() == b.types().dom(),
        a.lib_ids().to_set() == b.lib_ids().to_set(),
    ensures
        a.spec_id() == b.spec_id(),
{
    lemma_sorted_unique(a.lib_ids(), b.lib_ids());
}

impl Default for TypeSystem {
    fn default() -> (res: TypeSystem)
        ensures
            res.is_closed(),
            res.types() == empty_types(),
            res.lib_ids() == Seq::<Seq<u8>>::empty(),
    {
        TypeSystem::new()
    }
}

impl Clone for TypeSystem {
    /// A copy of the system: it names the same libraries and holds types of
    /// the same structure under the same identities.
    fn clone(&self) -> (res: TypeSystem)
        ensures
            same_types(res.types(), self.types()),
            res.lib_ids() == self.lib_ids(),
            res.wf() == self.wf(),
    {
        let mut libs: Vec<TypeLibId> = Vec::new();
        let mut i: usize = 0;
        while i < self.libs.len()
            invariant
                0 <= i <= self.libs.len(),
                libs@ == self.libs@.take(i as int),
            decreases self.libs.len() - i,
        {
            libs.push(self.libs[i]);
            assert(self.libs@.take(i + 1) =~= self.libs@.take(i as int).push(self.libs@[i as int]));
            i = i + 1;
        }
        assert(self.libs@.take(i as int) =~= self.libs@);
        TypeSystem { libs, types: self.types.clone() }
    }
}

} // verus!
