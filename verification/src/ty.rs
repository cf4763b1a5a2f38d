//! The structure of a type, with its references to other types.

use vstd::prelude::*;
use crate::hash::append_array;
use crate::id::SemId;
use crate::id::sem_id_tag;
use crate::hash::tagged_hash;
use crate::util::{encode_name, FieldName, Sizing, VariantName};

verus! {

/// Most variants, fields or members that one type may hold.
pub const MAX_MEMBERS: usize = 255;

/// A variant of an enumeration: a name and the byte that stands for it.
#[derive(Clone, Debug)]
pub struct Variant {
    pub name: VariantName,
    pub tag: u8,
}

/// A variant, as plain values.
pub struct VariantView {
    pub name: Seq<char>,
    pub tag: u8,
}

impl View for Variant {
    type V = VariantView;

    open spec fn view(&self) -> VariantView {
        VariantView { name: self.name@, tag: self.tag }
    }
}

/// A named field of a structure.
#[derive(Clone, Debug)]
pub struct Field<R> {
    pub name: FieldName,
    pub ty: R,
}

/// A field, as plain values.
pub struct FieldView<T> {
    pub name: Seq<char>,
    pub ty: T,
}

impl<R: View> View for Field<R> {
    type V = FieldView<R::V>;

    open spec fn view(&self) -> FieldView<R::V> {
        FieldView { name: self.name@, ty: self.ty@ }
    }
}

/// One alternative of a tagged union.
#[derive(Clone, Debug)]
pub struct Alternative<R> {
    pub name: VariantName,
    pub tag: u8,
    pub ty: R,
}

/// An alternative, as plain values.
pub struct AlternativeView<T> {
    pub name: Seq<char>,
    pub tag: u8,
    pub ty: T,
}

impl<R: View> View for Alternative<R> {
    type V = AlternativeView<R::V>;

    open spec fn view(&self) -> AlternativeView<R::V> {
        AlternativeView { name: self.name@, tag: self.tag, ty: self.ty@ }
    }
}

/// The structure of a type. Nested types are never embedded: each is
/// referred to through `R`, by name while the type is symbolic, by semantic
/// identity once it is compiled.
#[derive(Clone, Debug)]
pub enum Ty<R> {
    /// A primitive, told by its code.
    Primitive(u8),
    /// An enumeration of named values.
    Enum(Vec<Variant>),
    /// A tagged union.
    Union(Vec<Alternative<R>>),
    /// A tuple of unnamed members.
    Tuple(Vec<R>),
    /// A structure of named fields.
    Struct(Vec<Field<R>>),
    /// An array of a fixed number of elements.
    Array(R, u16),
    /// A list of a bounded number of elements.
    List(R, Sizing),
    /// A set of a bounded number of elements.
    SetOf(R, Sizing),
    /// A map of a bounded number of entries, from keys to values.
    MapOf(R, R, Sizing),
    /// A value that may be absent.
    Optional(R),
    /// A recursive reference: it holds the identity of the name of a type,
    /// not that of the type, so that it can be written before the type that
    /// it refers to is compiled. It closes the cycle of a type that holds
    /// itself.
    Recursive(SemId),
}

/// The structure of a type, as plain values; `T` is what a reference to
/// another type is.
pub enum TyView<T> {
    Primitive(u8),
    Enum(Seq<VariantView>),
    Union(Seq<AlternativeView<T>>),
    Tuple(Seq<T>),
    Struct(Seq<FieldView<T>>),
    Array(T, u16),
    List(T, Sizing),
    SetOf(T, Sizing),
    MapOf(T, T, Sizing),
    Optional(T),
    Recursive(Seq<u8>),
}

impl<R: View> View for Ty<R> {
    type V = TyView<R::V>;

    open spec fn view(&self) -> TyView<R::V> {
        match self {
            Ty::Primitive(code) => TyView::Primitive(*code),
            Ty::Enum(variants) => TyView::Enum(variants@.map_values(|v: Variant| v@)),
            Ty::Union(alts) => TyView::Union(alts@.map_values(|a: Alternative<R>| a@)),
            Ty::Tuple(members) => TyView::Tuple(members@.map_values(|m: R| m@)),
            Ty::Struct(fields) => TyView::Struct(fields@.map_values(|f: Field<R>| f@)),
            Ty::Array(item, len) => TyView::Array(item@, *len),
            Ty::List(item, sizing) => TyView::List(item@, *sizing),
            Ty::SetOf(item, sizing) => TyView::SetOf(item@, *sizing),
            Ty::MapOf(key, value, sizing) => TyView::MapOf(key@, value@, *sizing),
            Ty::Optional(item) => TyView::Optional(item@),
            Ty::Recursive(link) => TyView::Recursive(link@),
        }
    }
}

impl<T> TyView<T> {
    /// The type holds no more variants, alternatives, members or fields than
    /// the format can count.
    pub open spec fn wf(self) -> bool {
        match self {
            TyView::Enum(variants) => variants.len() <= MAX_MEMBERS,
            TyView::Union(alts) => alts.len() <= MAX_MEMBERS,
            TyView::Tuple(members) => members.len() <= MAX_MEMBERS,
            TyView::Struct(fields) => fields.len() <= MAX_MEMBERS,
            _ => true,
        }
    }

    /// The references to other types that the type holds, in their order.
    pub open spec fn refs(self) -> Seq<T> {
        match self {
            TyView::Primitive(_) => Seq::empty(),
            TyView::Enum(_) => Seq::empty(),
            TyView::Union(alts) => alts.map_values(|a: AlternativeView<T>| a.ty),
            TyView::Tuple(members) => members,
            TyView::Struct(fields) => fields.map_values(|f: FieldView<T>| f.ty),
            TyView::Array(item, _) => seq![item],
            TyView::List(item, _) => seq![item],
            TyView::SetOf(item, _) => seq![item],
            TyView::MapOf(key, value, _) => seq![key, value],
            TyView::Optional(item) => seq![item],
            TyView::Recursive(_) => Seq::empty(),
        }
    }
}

/// The alternatives with their references replaced, one for one, by `refs`.
pub open spec fn replace_alternatives<A, B>(
    alts: Seq<AlternativeView<A>>,
    refs: Seq<B>,
) -> Seq<AlternativeView<B>> {
    Seq::new(
        alts.len(),
        |i: int| AlternativeView { name: alts[i].name, tag: alts[i].tag, ty: refs[i] },
    )
}

/// The fields with their references replaced, one for one, by `refs`.
pub open spec fn replace_fields<A, B>(fields: Seq<FieldView<A>>, refs: Seq<B>) -> Seq<
    FieldView<B>,
> {
    Seq::new(fields.len(), |i: int| FieldView { name: fields[i].name, ty: refs[i] })
}

/// The type with its references replaced, one for one and in their order, by
/// `refs`, which are as many as the type has references.
pub open spec fn replace_refs<A, B>(ty: TyView<A>, refs: Seq<B>) -> TyView<B> {
    match ty {
        TyView::Primitive(code) => TyView::Primitive(code),
        TyView::Enum(variants) => TyView::Enum(variants),
        TyView::Union(alts) => TyView::Union(replace_alternatives(alts, refs)),
        TyView::Tuple(_) => TyView::Tuple(refs),
        TyView::Struct(fields) => TyView::Struct(replace_fields(fields, refs)),
        TyView::Array(_, len) => TyView::Array(refs[0], len),
        TyView::List(_, sizing) => TyView::List(refs[0], sizing),
        TyView::SetOf(_, sizing) => TyView::SetOf(refs[0], sizing),
        TyView::MapOf(_, _, sizing) => TyView::MapOf(refs[0], refs[1], sizing),
        TyView::Optional(_) => TyView::Optional(refs[0]),
        TyView::Recursive(link) => TyView::Recursive(link),
    }
}

/// Replacing the references of a type by just as many others keeps its kind
/// and the number of what it holds.
pub proof fn lemma_replace_refs<A, B>(ty: TyView<A>, refs: Seq<B>)
    requires
        refs.len() == ty.refs().len(),
    ensures
        replace_refs(ty, refs).refs() == refs,
        replace_refs(ty, refs).wf() == ty.wf(),
{
    let out = replace_refs(ty, refs);
    assert(out.refs() =~= refs);
}

/// Replacing the references of a type by themselves gives the type back.
pub proof fn lemma_replace_same<A>(ty: TyView<A>)
    ensures
        replace_refs(ty, ty.refs()) == ty,
{
    match ty {
        TyView::Union(alts) => {
            assert(replace_alternatives(alts, ty.refs()) =~= alts);
        },
        TyView::Struct(fields) => {
            assert(replace_fields(fields, ty.refs()) =~= fields);
        },
        _ => {},
    }
}

/// The type can be written and read back: it holds no more than the format
/// can count, its names are names for fields and variants, and the
/// identities it refers to have 32 bytes.
pub open spec fn ty_ok(ty: TyView<Seq<u8>>) -> bool {
    &&& ty.wf()
    &&& forall|i: int| 0 <= i < ty.refs().len() ==> (#[trigger] ty.refs()[i]).len() == 32
    &&& match ty {
        TyView::Enum(variants) => forall|i: int|
            0 <= i < variants.len() ==> crate::util::is_name(crate::util::NameRule::Member, (#[trigger] variants[i]).name),
        TyView::Union(alts) => forall|i: int|
            0 <= i < alts.len() ==> crate::util::is_name(crate::util::NameRule::Member, (#[trigger] alts[i]).name),
        TyView::Struct(fields) => forall|i: int|
            0 <= i < fields.len() ==> crate::util::is_name(crate::util::NameRule::Member, (#[trigger] fields[i]).name),
        TyView::Recursive(link) => link.len() == 32,
        _ => true,
    }
}

/// The two bytes of `v`, the low one first.
pub open spec fn encode_u16(v: u16) -> Seq<u8> {
    seq![(v % 256) as u8, (v / 256) as u8]
}

/// The canonical bytes of collection bounds.
pub open spec fn encode_sizing(sizing: Sizing) -> Seq<u8> {
    encode_u16(sizing.min) + encode_u16(sizing.max)
}

/// The canonical bytes of a row of variants.
pub open spec fn encode_variants(variants: Seq<VariantView>) -> Seq<u8>
    decreases variants.len(),
{
    if variants.len() == 0 {
        Seq::empty()
    } else {
        encode_variants(variants.drop_last()) + encode_name(variants.last().name) + seq![
            variants.last().tag,
        ]
    }
}

/// The canonical bytes of a row of alternatives.
pub open spec fn encode_alternatives(alts: Seq<AlternativeView<Seq<u8>>>) -> Seq<u8>
    decreases alts.len(),
{
    if alts.len() == 0 {
        Seq::empty()
    } else {
        encode_alternatives(alts.drop_last()) + encode_name(alts.last().name) + seq![
            alts.last().tag,
        ] + alts.last().ty
    }
}

/// The canonical bytes of a row of unnamed members.
pub open spec fn encode_members(members: Seq<Seq<u8>>) -> Seq<u8>
    decreases members.len(),
{
    if members.len() == 0 {
        Seq::empty()
    } else {
        encode_members(members.drop_last()) + members.last()
    }
}

/// The canonical bytes of a row of fields.
pub open spec fn encode_fields(fields: Seq<FieldView<Seq<u8>>>) -> Seq<u8>
    decreases fields.len(),
{
    if fields.len() == 0 {
        Seq::empty()
    } else {
        encode_fields(fields.drop_last()) + encode_name(fields.last().name) + fields.last().ty
    }
}

/// The canonical bytes of a compiled type: one byte that tells the kind,
/// then what the kind holds, each reference as the 32 bytes of its identity.
pub open spec fn encode_ty(ty: TyView<Seq<u8>>) -> Seq<u8> {
    match ty {
        TyView::Primitive(code) => seq![0u8, code],
        TyView::Enum(variants) => seq![1u8, variants.len() as u8] + encode_variants(variants),
        TyView::Union(alts) => seq![2u8, alts.len() as u8] + encode_alternatives(alts),
        TyView::Tuple(members) => seq![3u8, members.len() as u8] + encode_members(members),
        TyView::Struct(fields) => seq![4u8, fields.len() as u8] + encode_fields(fields),
        TyView::Array(item, len) => seq![5u8] + item + encode_u16(len),
        TyView::List(item, sizing) => seq![6u8] + item + encode_sizing(sizing),
        TyView::SetOf(item, sizing) => seq![7u8] + item + encode_sizing(sizing),
        TyView::MapOf(key, value, sizing) => seq![8u8] + key + value + encode_sizing(sizing),
        TyView::Optional(item) => seq![9u8] + item,
        TyView::Recursive(link) => seq![10u8] + link,
    }
}

/// The semantic identity of a compiled type: the hash, under the tag for
/// types, of its canonical bytes. Names of the type itself and of its
/// library do not enter.
pub open spec fn sem_id_of(ty: TyView<Seq<u8>>) -> Seq<u8> {
    tagged_hash(sem_id_tag(), encode_ty(ty))
}

fn push_u16(out: &mut Vec<u8>, v: u16)
    ensures
        final(out)@ == old(out)@ + encode_u16(v),
{
    out.push((v % 256) as u8);
    out.push((v / 256) as u8);
    assert(out@ =~= old(out)@ + encode_u16(v));
}

fn push_sizing(out: &mut Vec<u8>, sizing: Sizing)
    ensures
        final(out)@ == old(out)@ + encode_sizing(sizing),
{
    push_u16(out, sizing.min);
    push_u16(out, sizing.max);
    assert(out@ =~= old(out)@ + encode_sizing(sizing));
}

fn push_id(out: &mut Vec<u8>, id: &SemId)
    ensures
        final(out)@ == old(out)@ + id@,
        id@.len() == 32,
{
    let bytes = id.to_byte_array();
    append_array(out, &bytes);
}

impl<R: View> Ty<R> {
    /// Whether the type holds no more variants, alternatives, members or
    /// fields than the format can count.
    pub fn is_wf(&self) -> (res: bool)
        ensures
            res == self@.wf(),
    {
        match self {
            Ty::Enum(variants) => variants.len() <= MAX_MEMBERS,
            Ty::Union(alts) => alts.len() <= MAX_MEMBERS,
            Ty::Tuple(members) => members.len() <= MAX_MEMBERS,
            Ty::Struct(fields) => fields.len() <= MAX_MEMBERS,
            _ => true,
        }
    }

    /// The references to other types that the type holds, in their order.
    pub fn refs(&self) -> (res: Vec<&R>)
        ensures
            res@.len() == self@.refs().len(),
            forall|i: int| 0 <= i < res@.len() ==> (#[trigger] res@[i])@ == self@.refs()[i],
    {
        let mut out: Vec<&R> = Vec::new();
        match self {
            Ty::Primitive(_) => {},
            Ty::Enum(_) => {},
            Ty::Union(alts) => {
                let mut i: usize = 0;
                while i < alts.len()
                    invariant
                        0 <= i <= alts.len(),
                        out@.len() == i,
                        forall|j: int| 0 <= j < i ==> (#[trigger] out@[j])@ == alts@[j].ty@,
                    decreases alts.len() - i,
                {
                    out.push(&alts[i].ty);
                    i = i + 1;
                }
            },
            Ty::Tuple(members) => {
                let mut i: usize = 0;
                while i < members.len()
                    invariant
                        0 <= i <= members.len(),
                        out@.len() == i,
                        forall|j: int| 0 <= j < i ==> (#[trigger] out@[j])@ == members@[j]@,
                    decreases members.len() - i,
                {
                    out.push(&members[i]);
                    i = i + 1;
                }
            },
            Ty::Struct(fields) => {
                let mut i: usize = 0;
                while i < fields.len()
                    invariant
                        0 <= i <= fields.len(),
                        out@.len() == i,
                        forall|j: int| 0 <= j < i ==> (#[trigger] out@[j])@ == fields@[j].ty@,
                    decreases fields.len() - i,
                {
                    out.push(&fields[i].ty);
                    i = i + 1;
                }
            },
            Ty::Array(item, _) => {
                out.push(item);
            },
            Ty::List(item, _) => {
                out.push(item);
            },
            Ty::SetOf(item, _) => {
                out.push(item);
            },
            Ty::MapOf(key, value, _) => {
                out.push(key);
                out.push(value);
            },
            Ty::Optional(item) => {
                out.push(item);
            },
            Ty::Recursive(_) => {},
        }
        out
    }
}

/// The views of a row of variants.
pub open spec fn variant_views(variants: Seq<Variant>) -> Seq<VariantView> {
    variants.map_values(|v: Variant| v@)
}

fn clone_variants(variants: &Vec<Variant>) -> (res: Vec<Variant>)
    ensures
        variant_views(res@) == variant_views(variants@),
{
    let mut out: Vec<Variant> = Vec::new();
    let mut i: usize = 0;
    while i < variants.len()
        invariant
            0 <= i <= variants.len(),
            out@.len() == i,
            forall|j: int| 0 <= j < i ==> (#[trigger] out@[j])@ == variants@[j]@,
        decreases variants.len() - i,
    {
        out.push(Variant { name: variants[i].name.clone(), tag: variants[i].tag });
        i = i + 1;
    }
    assert(variant_views(out@) =~= variant_views(variants@));
    out
}

fn same_variants(a: &Vec<Variant>, b: &Vec<Variant>) -> (res: bool)
    ensures
        res == (variant_views(a@) == variant_views(b@)),
{
    if a.len() != b.len() {
        assert(variant_views(a@).len() != variant_views(b@).len());
        return false;
    }
    let mut i: usize = 0;
    while i < a.len()
        invariant
            0 <= i <= a.len(),
            a.len() == b.len(),
            forall|j: int| 0 <= j < i ==> (#[trigger] a@[j])@ == b@[j]@,
        decreases a.len() - i,
    {
        if !(a[i].name.same(&b[i].name) && a[i].tag == b[i].tag) {
            assert(variant_views(a@)[i as int] != variant_views(b@)[i as int]);
            return false;
        }
        i = i + 1;
    }
    assert(variant_views(a@) =~= variant_views(b@));
    true
}

impl<R: View> Ty<R> {
    /// The same type with other references: the `i`-th reference becomes
    /// `refs[i]`.
    pub fn map_refs<S: View + Copy>(&self, refs: &Vec<S>) -> (res: Ty<S>)
        requires
            refs@.len() == self@.refs().len(),
        ensures
            res@ == replace_refs(self@, refs@.map_values(|r: S| r@)),
    {
        let ghost views = refs@.map_values(|r: S| r@);
        match self {
            Ty::Primitive(code) => Ty::Primitive(*code),
            Ty::Enum(variants) => {
                let copy = clone_variants(variants);
                Ty::Enum(copy)
            },
            Ty::Union(alts) => {
                let mut out: Vec<Alternative<S>> = Vec::new();
                let mut i: usize = 0;
                while i < alts.len()
                    invariant
                        0 <= i <= alts.len(),
                        alts@.len() == refs@.len(),
                        out@.len() == i,
                        forall|j: int|
                            0 <= j < i ==> (#[trigger] out@[j])@ == (AlternativeView {
                                name: alts@[j].name@,
                                tag: alts@[j].tag,
                                ty: refs@[j]@,
                            }),
                    decreases alts.len() - i,
                {
                    out.push(
                        Alternative { name: alts[i].name.clone(), tag: alts[i].tag, ty: refs[i] },
                    );
                    i = i + 1;
                }
                let res = Ty::Union(out);
                assert(res@->Union_0 =~= replace_alternatives(self@->Union_0, views));
                res
            },
            Ty::Tuple(members) => {
                let mut out: Vec<S> = Vec::new();
                let mut i: usize = 0;
                while i < refs.len()
                    invariant
                        0 <= i <= refs.len(),
                        out@ == refs@.take(i as int),
                    decreases refs.len() - i,
                {
                    out.push(refs[i]);
                    assert(refs@.take(i + 1) =~= refs@.take(i as int).push(refs@[i as int]));
                    i = i + 1;
                }
                assert(refs@.take(i as int) =~= refs@);
                Ty::Tuple(out)
            },
            Ty::Struct(fields) => {
                let mut out: Vec<Field<S>> = Vec::new();
                let mut i: usize = 0;
                while i < fields.len()
                    invariant
                        0 <= i <= fields.len(),
                        fields@.len() == refs@.len(),
                        out@.len() == i,
                        forall|j: int|
                            0 <= j < i ==> (#[trigger] out@[j])@ == (FieldView {
                                name: fields@[j].name@,
                                ty: refs@[j]@,
                            }),
                    decreases fields.len() - i,
                {
                    out.push(Field { name: fields[i].name.clone(), ty: refs[i] });
                    i = i + 1;
                }
                let res = Ty::Struct(out);
                assert(res@->Struct_0 =~= replace_fields(self@->Struct_0, views));
                res
            },
            Ty::Array(_, len) => Ty::Array(refs[0], *len),
            Ty::List(_, sizing) => Ty::List(refs[0], *sizing),
            Ty::SetOf(_, sizing) => Ty::SetOf(refs[0], *sizing),
            Ty::MapOf(_, _, sizing) => Ty::MapOf(refs[0], refs[1], *sizing),
            Ty::Optional(_) => Ty::Optional(refs[0]),
            Ty::Recursive(link) => Ty::Recursive(*link),
        }
    }
}

impl Ty<SemId> {
    /// A copy of the type.
    pub fn duplicate(&self) -> (res: Ty<SemId>)
        ensures
            res@ == self@,
    {
        let refs = self.refs();
        let mut ids: Vec<SemId> = Vec::new();
        let mut i: usize = 0;
        while i < refs.len()
            invariant
                0 <= i <= refs.len(),
                ids@.len() == i,
                forall|j: int| 0 <= j < i ==> (#[trigger] ids@[j])@ == refs@[j]@,
            decreases refs.len() - i,
        {
            ids.push(*refs[i]);
            i = i + 1;
        }
        proof {
            assert(ids@.map_values(|r: SemId| r@) =~= self@.refs());
            lemma_replace_same(self@);
        }
        self.map_refs(&ids)
    }

    /// Whether both types have the same structure.
    pub fn same(&self, other: &Ty<SemId>) -> (res: bool)
        ensures
            res == (self@ == other@),
    {
        let same_kind = match (self, other) {
            (Ty::Primitive(a), Ty::Primitive(b)) => *a == *b,
            (Ty::Enum(a), Ty::Enum(b)) => same_variants(a, b),
            (Ty::Union(a), Ty::Union(b)) => {
                if a.len() != b.len() {
                    assert(self@->Union_0.len() != other@->Union_0.len());
                    false
                } else {
                    let mut ok = true;
                    let mut i: usize = 0;
                    while i < a.len() && ok
                        invariant
                            0 <= i <= a.len(),
                            a.len() == b.len(),
                            ok ==> forall|j: int| 0 <= j < i ==> (#[trigger] a@[j])@ == b@[j]@,
                            !ok ==> exists|j: int| 0 <= j < a.len() && (#[trigger] a@[j])@ != b@[j]@,
                        decreases a.len() - i + if ok { 1int } else { 0int },
                    {
                        if !(a[i].name.same(&b[i].name) && a[i].tag == b[i].tag)
                            || !a[i].ty.same(&b[i].ty) {
                            ok = false;
                        } else {
                            i = i + 1;
                        }
                    }
                    proof {
                        let va = self@->Union_0;
                        let vb = other@->Union_0;
                        if ok {
                            assert(va =~= vb);
                        } else {
                            let j = choose|j: int| 0 <= j < a.len() && (#[trigger] a@[j])@ != b@[j]@;
                            assert(va[j] != vb[j]);
                        }
                    }
                    ok
                }
            },
            (Ty::Tuple(a), Ty::Tuple(b)) => {
                if a.len() != b.len() {
                    assert(self@->Tuple_0.len() != other@->Tuple_0.len());
                    false
                } else {
                    let mut ok = true;
                    let mut i: usize = 0;
                    while i < a.len() && ok
                        invariant
                            0 <= i <= a.len(),
                            a.len() == b.len(),
                            ok ==> forall|j: int| 0 <= j < i ==> (#[trigger] a@[j])@ == b@[j]@,
                            !ok ==> exists|j: int| 0 <= j < a.len() && (#[trigger] a@[j])@ != b@[j]@,
                        decreases a.len() - i + if ok { 1int } else { 0int },
                    {
                        if !a[i].same(&b[i]) {
                            ok = false;
                        } else {
                            i = i + 1;
                        }
                    }
                    proof {
                        let va = self@->Tuple_0;
                        let vb = other@->Tuple_0;
                        if ok {
                            assert(va =~= vb);
                        } else {
                            let j = choose|j: int| 0 <= j < a.len() && (#[trigger] a@[j])@ != b@[j]@;
                            assert(va[j] != vb[j]);
                        }
                    }
                    ok
                }
            },
            (Ty::Struct(a), Ty::Struct(b)) => {
                if a.len() != b.len() {
                    assert(self@->Struct_0.len() != other@->Struct_0.len());
                    false
                } else {
                    let mut ok = true;
                    let mut i: usize = 0;
                    while i < a.len() && ok
                        invariant
                            0 <= i <= a.len(),
                            a.len() == b.len(),
                            ok ==> forall|j: int| 0 <= j < i ==> (#[trigger] a@[j])@ == b@[j]@,
                            !ok ==> exists|j: int| 0 <= j < a.len() && (#[trigger] a@[j])@ != b@[j]@,
                        decreases a.len() - i + if ok { 1int } else { 0int },
                    {
                        if !a[i].name.same(&b[i].name) || !a[i].ty.same(&b[i].ty) {
                            ok = false;
                        } else {
                            i = i + 1;
                        }
                    }
                    proof {
                        let va = self@->Struct_0;
                        let vb = other@->Struct_0;
                        if ok {
                            assert(va =~= vb);
                        } else {
                            let j = choose|j: int| 0 <= j < a.len() && (#[trigger] a@[j])@ != b@[j]@;
                            assert(va[j] != vb[j]);
                        }
                    }
                    ok
                }
            },
            (Ty::Array(a, n), Ty::Array(b, m)) => a.same(b) && *n == *m,
            (Ty::List(a, n), Ty::List(b, m)) => a.same(b) && n.min == m.min && n.max == m.max,
            (Ty::SetOf(a, n), Ty::SetOf(b, m)) => a.same(b) && n.min == m.min && n.max == m.max,
            (Ty::MapOf(ka, va, n), Ty::MapOf(kb, vb, m)) => ka.same(kb) && va.same(vb) && n.min
                == m.min && n.max == m.max,
            (Ty::Optional(a), Ty::Optional(b)) => a.same(b),
            (Ty::Recursive(a), Ty::Recursive(b)) => a.same(b),
            _ => false,
        };
        same_kind
    }

    /// The canonical bytes of the type, or `None` where it holds more
    /// variants, alternatives, members or fields than the format can count.
    pub fn encode(&self) -> (res: Option<Vec<u8>>)
        ensures
            match res {
                Some(bytes) => self@.wf() && bytes@ == encode_ty(self@) && ty_ok(self@),
                None => !self@.wf(),
            },
    {
        if !self.is_wf() {
            return None;
        }
        let mut out: Vec<u8> = Vec::new();
        match self {
            Ty::Primitive(code) => {
                out.push(0u8);
                out.push(*code);
            },
            Ty::Enum(variants) => {
                out.push(1u8);
                out.push(variants.len() as u8);
                let ghost head = out@;
                let ghost views = variants@.map_values(|v: Variant| v@);
                let mut i: usize = 0;
                while i < variants.len()
                    invariant
                        0 <= i <= variants.len(),
                        views == variants@.map_values(|v: Variant| v@),
                        out@ == head + encode_variants(views.take(i as int)),
                        forall|j: int|
                            0 <= j < i ==> crate::util::is_name(
                                crate::util::NameRule::Member,
                                (#[trigger] views[j]).name,
                            ),
                    decreases variants.len() - i,
                {
                    assert(views.take(i + 1).drop_last() =~= views.take(i as int));
                    variants[i].name.encode_into(&mut out);
                    out.push(variants[i].tag);
                    i = i + 1;
                }
                assert(views.take(i as int) =~= views);
            },
            Ty::Union(alts) => {
                out.push(2u8);
                out.push(alts.len() as u8);
                let ghost head = out@;
                let ghost views = alts@.map_values(|a: Alternative<SemId>| a@);
                let mut i: usize = 0;
                while i < alts.len()
                    invariant
                        0 <= i <= alts.len(),
                        views == alts@.map_values(|a: Alternative<SemId>| a@),
                        out@ == head + encode_alternatives(views.take(i as int)),
                        forall|j: int|
                            0 <= j < i ==> crate::util::is_name(
                                crate::util::NameRule::Member,
                                (#[trigger] views[j]).name,
                            ) && views[j].ty.len() == 32,
                    decreases alts.len() - i,
                {
                    assert(views.take(i + 1).drop_last() =~= views.take(i as int));
                    alts[i].name.encode_into(&mut out);
                    out.push(alts[i].tag);
                    push_id(&mut out, &alts[i].ty);
                    i = i + 1;
                }
                assert(views.take(i as int) =~= views);
            },
            Ty::Tuple(members) => {
                out.push(3u8);
                out.push(members.len() as u8);
                let ghost head = out@;
                let ghost views = members@.map_values(|m: SemId| m@);
                let mut i: usize = 0;
                while i < members.len()
                    invariant
                        0 <= i <= members.len(),
                        views == members@.map_values(|m: SemId| m@),
                        out@ == head + encode_members(views.take(i as int)),
                        forall|j: int| 0 <= j < i ==> (#[trigger] views[j]).len() == 32,
                    decreases members.len() - i,
                {
                    assert(views.take(i + 1).drop_last() =~= views.take(i as int));
                    push_id(&mut out, &members[i]);
                    i = i + 1;
                }
                assert(views.take(i as int) =~= views);
            },
            Ty::Struct(fields) => {
                out.push(4u8);
                out.push(fields.len() as u8);
                let ghost head = out@;
                let ghost views = fields@.map_values(|f: Field<SemId>| f@);
                let mut i: usize = 0;
                while i < fields.len()
                    invariant
                        0 <= i <= fields.len(),
                        views == fields@.map_values(|f: Field<SemId>| f@),
                        out@ == head + encode_fields(views.take(i as int)),
                        forall|j: int|
                            0 <= j < i ==> crate::util::is_name(
                                crate::util::NameRule::Member,
                                (#[trigger] views[j]).name,
                            ) && views[j].ty.len() == 32,
                    decreases fields.len() - i,
                {
                    assert(views.take(i + 1).drop_last() =~= views.take(i as int));
                    fields[i].name.encode_into(&mut out);
                    push_id(&mut out, &fields[i].ty);
                    i = i + 1;
                }
                assert(views.take(i as int) =~= views);
            },
            Ty::Array(item, len) => {
                out.push(5u8);
                push_id(&mut out, item);
                push_u16(&mut out, *len);
            },
            Ty::List(item, sizing) => {
                out.push(6u8);
                push_id(&mut out, item);
                push_sizing(&mut out, *sizing);
            },
            Ty::SetOf(item, sizing) => {
                out.push(7u8);
                push_id(&mut out, item);
                push_sizing(&mut out, *sizing);
            },
            Ty::MapOf(key, value, sizing) => {
                out.push(8u8);
                push_id(&mut out, key);
                push_id(&mut out, value);
                push_sizing(&mut out, *sizing);
            },
            Ty::Optional(item) => {
                out.push(9u8);
                push_id(&mut out, item);
            },
            Ty::Recursive(link) => {
                out.push(10u8);
                push_id(&mut out, link);
                proof {
                    link.lemma_len();
                }
            },
        }
        assert(out@ =~= encode_ty(self@));
        assert(ty_ok(self@)) by {
            assert forall|i: int| 0 <= i < self@.refs().len() implies (#[trigger] self@.refs()[i]).len()
                == 32 by {
                match self@ {
                    TyView::Union(alts) => {
                        assert(alts[i].ty.len() == 32);
                    },
                    TyView::Tuple(members) => {
                        assert(members[i].len() == 32);
                    },
                    TyView::Struct(fields) => {
                        assert(fields[i].ty.len() == 32);
                    },
                    _ => {},
                }
            }
        }
        Some(out)
    }

    /// The semantic identity of the type, or `None` where it holds more
    /// variants, alternatives, members or fields than the format can count.
    pub fn sem_id(&self) -> (res: Option<SemId>)
        ensures
            match res {
                Some(id) => self@.wf() && id@ == sem_id_of(self@),
                None => !self@.wf(),
            },
    {
        match self.encode() {
            Some(bytes) => Some(SemId::of_content(bytes.as_slice())),
            None => None,
        }
    }
}

} // verus!
