//! The composition of a type within its type system, as a tree and as a
//! layout.

use vstd::prelude::*;
use vstd::string::*;
use crate::dump::ref_text;
use crate::id::SemId;
use crate::layout::{lemma_reconstruct_flatten, reconstruct, Descr, DescrView, LayoutError};
use crate::layout::{TypeLayout, TypeVesper, VesperView, MAX_CHILDREN};
use crate::ty::{Ty, TyView};
use crate::typesys::{all_wf, found, TypeSystem};

verus! {

/// The word for the kind of a type.
pub open spec fn kind_text(ty: TyView<Seq<u8>>) -> Seq<char> {
    match ty {
        TyView::Primitive(_) => "primitive"@,
        TyView::Enum(_) => "enum"@,
        TyView::Union(_) => "union"@,
        TyView::Tuple(_) => "tuple"@,
        TyView::Struct(_) => "struct"@,
        TyView::Array(_, _) => "array"@,
        TyView::List(_, _) => "list"@,
        TyView::SetOf(_, _) => "set"@,
        TyView::MapOf(_, _, _) => "map"@,
        TyView::Optional(_) => "option"@,
        TyView::Recursive(_) => "recursive"@,
    }
}

/// What is rendered for a type: its identity and the word for its kind.
pub open spec fn type_descr(id: Seq<u8>, ty: TyView<Seq<u8>>) -> DescrView {
    DescrView { subject: ref_text(id), predicate: kind_text(ty) }
}

/// The composition of the type under `id`, down to `depth` levels: the
/// type, and below it the composition of each type it refers to. There is
/// none where a type is missing or the composition goes deeper.
pub open spec fn type_tree(types: Map<Seq<u8>, Ty<SemId>>, id: Seq<u8>, depth: nat) -> Option<
    VesperView,
>
    decreases depth, 0nat, 0nat,
{
    if depth == 0 || !types.dom().contains(id) {
        None
    } else {
        match type_trees(types, types[id]@.refs(), (depth - 1) as nat) {
            Some(content) => Some(VesperView { descr: type_descr(id, types[id]@), content }),
            None => None,
        }
    }
}

/// The compositions of the types under `ids`, each down to `depth` levels.
pub open spec fn type_trees(types: Map<Seq<u8>, Ty<SemId>>, ids: Seq<Seq<u8>>, depth: nat) -> Option<
    Seq<VesperView>,
>
    decreases depth, 1nat, ids.len(),
{
    if ids.len() == 0 {
        Some(Seq::empty())
    } else {
        match (type_trees(types, ids.drop_last(), depth), type_tree(types, ids.last(), depth)) {
            (Some(trees), Some(tree)) => Some(trees.push(tree)),
            _ => None,
        }
    }
}

/// Where some compositions are missing, so are those of more types.
pub proof fn lemma_type_trees_prefix(
    types: Map<Seq<u8>, Ty<SemId>>,
    ids: Seq<Seq<u8>>,
    depth: nat,
    k: int,
)
    requires
        0 <= k <= ids.len(),
        type_trees(types, ids, depth) is Some,
    ensures
        type_trees(types, ids.take(k), depth) is Some,
    decreases ids.len(),
{
    if k < ids.len() {
        lemma_type_trees_prefix(types, ids.drop_last(), depth, k);
        assert(ids.drop_last().take(k) =~= ids.take(k));
    } else {
        assert(ids.take(k) =~= ids);
    }
}

/// In a system whose types hold no more than the format can count, no node
/// of the composition of a type has more children than a layout allows; and
/// there are as many compositions as types were asked for.
pub proof fn lemma_type_tree_wf(types: Map<Seq<u8>, Ty<SemId>>, id: Seq<u8>, depth: nat)
    requires
        all_wf(types),
        type_tree(types, id, depth) is Some,
    ensures
        type_tree(types, id, depth)->Some_0.wf(),
    decreases depth, 0nat, 0nat,
{
    let refs = types[id]@.refs();
    lemma_type_trees_wf(types, refs, (depth - 1) as nat);
    assert(types[id]@.wf());
    assert(refs.len() <= MAX_CHILDREN);
}

/// The same for a row of types.
pub proof fn lemma_type_trees_wf(types: Map<Seq<u8>, Ty<SemId>>, ids: Seq<Seq<u8>>, depth: nat)
    requires
        all_wf(types),
        type_trees(types, ids, depth) is Some,
    ensures
        type_trees(types, ids, depth)->Some_0.len() == ids.len(),
        forall|i: int|
            0 <= i < ids.len() ==> (#[trigger] type_trees(types, ids, depth)->Some_0[i]).wf(),
    decreases depth, 1nat, ids.len(),
{
    if ids.len() > 0 {
        lemma_type_trees_wf(types, ids.drop_last(), depth);
        lemma_type_tree_wf(types, ids.last(), depth);
    }
}

/// The layout of the composition of a type rebuilds to that composition.
pub proof fn lemma_layout_rebuilds(types: Map<Seq<u8>, Ty<SemId>>, id: Seq<u8>, depth: nat)
    requires
        all_wf(types),
        type_tree(types, id, depth) is Some,
    ensures
        reconstruct(type_tree(types, id, depth)->Some_0.flatten(0)) == Ok::<
            VesperView,
            LayoutError,
        >(type_tree(types, id, depth)->Some_0),
{
    lemma_type_tree_wf(types, id, depth);
    lemma_reconstruct_flatten(type_tree(types, id, depth)->Some_0);
}

/// The word for the kind of `ty`.
fn kind_word(ty: &Ty<SemId>) -> (res: &'static str)
    ensures
        res@ == kind_text(ty@),
{
    match ty {
        Ty::Primitive(_) => "primitive",
        Ty::Enum(_) => "enum",
        Ty::Union(_) => "union",
        Ty::Tuple(_) => "tuple",
        Ty::Struct(_) => "struct",
        Ty::Array(_, _) => "array",
        Ty::List(_, _) => "list",
        Ty::SetOf(_, _) => "set",
        Ty::MapOf(_, _, _) => "map",
        Ty::Optional(_) => "option",
        Ty::Recursive(_) => "recursive",
    }
}

impl TypeSystem {
    /// The composition of the type under `id`, down to `depth` levels: the
    /// type, and below it the composition of each type it refers to. There
    /// is none where a type is missing or the composition goes deeper.
    pub fn tree_of(&self, id: &SemId, depth: usize) -> (res: Option<TypeVesper>)
        ensures
            match res {
                Some(tree) => type_tree(self.types(), id@, depth as nat) == Some(tree@),
                None => type_tree(self.types(), id@, depth as nat) is None,
            },
        decreases depth,
    {
        if depth == 0 {
            return None;
        }
        let ty = match self.get(*id) {
            Some(ty) => ty,
            None => {
                return None;
            },
        };
        let ghost types = self.types();
        let refs = ty.refs();
        let ghost ids = ty@.refs();
        let mut content: Vec<TypeVesper> = Vec::new();
        let mut i: usize = 0;
        assert(ids.take(0) =~= Seq::<Seq<u8>>::empty());
        assert(crate::layout::views(content@) =~= Seq::<VesperView>::empty());
        while i < refs.len()
            invariant
                0 <= i <= refs.len(),
                depth > 0,
                types == self.types(),
                found(types, id@) == Some(*ty),
                ids == ty@.refs(),
                refs@.len() == ids.len(),
                forall|j: int| 0 <= j < refs@.len() ==> (#[trigger] refs@[j])@ == ids[j],
                type_trees(types, ids.take(i as int), (depth - 1) as nat) == Some(
                    crate::layout::views(content@),
                ),
            decreases refs.len() - i,
        {
            let ghost before = crate::layout::views(content@);
            let ghost had = content@;
            proof {
                assert(ids.take(i + 1).drop_last() =~= ids.take(i as int));
                assert(ids.take(i + 1).last() == ids[i as int]);
            }
            match self.tree_of(refs[i], depth - 1) {
                Some(tree) => {
                    content.push(tree);
                    proof {
                        assert(content@.drop_last() =~= had);
                        assert(crate::layout::views(content@) == crate::layout::views(
                            content@.drop_last(),
                        ).push(content@.last()@));
                    }
                },
                None => {
                    proof {
                        if type_trees(types, ids, (depth - 1) as nat) is Some {
                            lemma_type_trees_prefix(types, ids, (depth - 1) as nat, i + 1);
                        }
                    }
                    return None;
                },
            }
            i = i + 1;
        }
        assert(ids.take(i as int) =~= ids);
        let subject = id.to_value_string();
        let predicate = String::from_str(kind_word(ty));
        let tree = TypeVesper { descr: Descr { subject, predicate }, content };
        proof {
            tree.lemma_view_content();
            assert(tree@.content =~= crate::layout::views(content@));
        }
        Some(tree)
    }

    /// The layout of the type under `id`: its composition down to `depth`
    /// levels, flattened in preorder.
    pub fn layout_of(&self, id: &SemId, depth: usize) -> (res: Option<TypeLayout>)
        ensures
            match res {
                Some(layout) => type_tree(self.types(), id@, depth as nat) matches Some(tree)
                    && layout@ == tree.flatten(0),
                None => type_tree(self.types(), id@, depth as nat) matches Some(tree) ==> !tree.fits(
                    0,
                ),
            },
    {
        match self.tree_of(id, depth) {
            Some(tree) => TypeLayout::from_vesper(&tree),
            None => None,
        }
    }
}

} // verus!
