//! Reconstruction of a type layout tree from its flat, depth-annotated form.

use vstd::prelude::*;
use vstd::string::*;

verus! {

/// Largest number of children a single layout node may hold.
pub const MAX_CHILDREN: usize = 255;

/// What is rendered for one node of a layout.
#[derive(Clone, PartialEq, Eq, Debug)]
pub struct Descr {
    pub subject: String,
    pub predicate: String,
}

/// What is rendered for a node, as text.
pub struct DescrView {
    pub subject: Seq<char>,
    pub predicate: Seq<char>,
}

impl View for Descr {
    type V = DescrView;

    open spec fn view(&self) -> DescrView {
        DescrView { subject: self.subject@, predicate: self.predicate@ }
    }
}

/// One item of a flattened layout: a node and how deep it is nested.
#[derive(Clone, PartialEq, Eq, Debug)]
pub struct TypeInfo {
    pub depth: usize,
    pub descr: Descr,
}

/// An item of a flattened layout, as plain values.
pub struct ItemView {
    pub depth: nat,
    pub descr: DescrView,
}

impl View for TypeInfo {
    type V = ItemView;

    open spec fn view(&self) -> ItemView {
        ItemView { depth: self.depth as nat, descr: self.descr@ }
    }
}

/// A node of the reconstructed layout tree.
#[derive(PartialEq, Eq, Debug)]
pub struct TypeVesper {
    pub descr: Descr,
    pub content: Vec<TypeVesper>,
}

/// A layout tree, as plain values: what is rendered for the node, and its
/// children in their order.
pub struct VesperView {
    pub descr: DescrView,
    pub content: Seq<VesperView>,
}

impl View for TypeVesper {
    type V = VesperView;

    open spec fn view(&self) -> VesperView
        decreases self,
    {
        VesperView {
            descr: self.descr@,
            content: views(self.content@),
        }
    }
}

/// The views of a row of nodes, in order.
pub open spec fn views(nodes: Seq<TypeVesper>) -> Seq<VesperView>
    decreases nodes,
{
    if nodes.len() == 0 {
        Seq::empty()
    } else {
        views(nodes.drop_last()).push(nodes.last()@)
    }
}

/// `views` keeps the length and maps each node to its view.
pub proof fn lemma_views(nodes: Seq<TypeVesper>)
    ensures
        views(nodes).len() == nodes.len(),
        forall|i: int| 0 <= i < nodes.len() ==> views(nodes)[i] == (#[trigger] nodes[i])@,
    decreases nodes.len(),
{
    if nodes.len() > 0 {
        lemma_views(nodes.drop_last());
        assert(views(nodes) == views(nodes.drop_last()).push(nodes.last()@));
        assert forall|i: int| 0 <= i < nodes.len() implies views(nodes)[i] == (#[trigger] nodes[i])@ by {
            if i < nodes.len() - 1 {
                assert(nodes.drop_last()[i] == nodes[i]);
            }
        }
    } else {
        assert(views(nodes) == Seq::<VesperView>::empty());
    }
}

impl TypeVesper {
    /// The view of a node holds the views of its children, in order.
    pub proof fn lemma_view_content(&self)
        ensures
            self@.descr == self.descr@,
            self@.content.len() == self.content@.len(),
            forall|i: int|
                #![trigger self@.content[i]]
                #![trigger self.content@[i]]
                0 <= i < self.content@.len() ==> self@.content[i] == self.content@[i]@,
    {
        lemma_views(self.content@);
    }
}

impl VesperView {
    /// No node holds more children than the layout format allows.
    pub open spec fn wf(self) -> bool
        decreases self,
    {
        &&& self.content.len() <= MAX_CHILDREN
        &&& forall|i: int| 0 <= i < self.content.len() ==> (#[trigger] self.content[i]).wf()
    }

    /// The preorder flattening of the tree, the root at `depth`.
    pub open spec fn flatten(self, depth: nat) -> Seq<ItemView>
        decreases self,
    {
        seq![ItemView { depth, descr: self.descr }] + flatten_all(self.content, depth + 1)
    }
}

/// The preorder flattening of a row of siblings, each at `depth`.
pub open spec fn flatten_all(nodes: Seq<VesperView>, depth: nat) -> Seq<ItemView>
    decreases nodes,
{
    if nodes.len() == 0 {
        Seq::empty()
    } else {
        flatten_all(nodes.drop_last(), depth) + nodes.last().flatten(depth)
    }
}

/// Why a flat layout is not the flattening of any tree.
#[derive(Copy, Clone, PartialEq, Eq, Structural, Hash, Debug)]
pub enum LayoutError {
    /// The layout holds no item, so there is no root.
    ZeroItems,
    /// The first item is nested one level deep, below a root that never came.
    MissingRoot,
    /// An item after the first claims depth 0 again.
    RepeatedRoot,
    /// An item is nested more than one level deeper than the item before it.
    SkippedLevel,
    /// A node would get more than `MAX_CHILDREN` children.
    TooManyItems,
}

/// A node without children.
pub open spec fn leaf(descr: DescrView) -> VesperView {
    VesperView { descr, content: Seq::empty() }
}

/// `path` leads from `node` down to one of its descendants (or is empty).
pub open spec fn valid_path(node: VesperView, path: Seq<usize>) -> bool
    decreases path.len(),
{
    path.len() == 0 || {
        &&& path[0] < node.content.len()
        &&& valid_path(node.content[path[0] as int], path.drop_first())
    }
}

/// The number of children of the node that `path` leads to.
pub open spec fn child_count(node: VesperView, path: Seq<usize>) -> nat
    decreases path.len(),
{
    if path.len() == 0 {
        node.content.len()
    } else {
        child_count(node.content[path[0] as int], path.drop_first())
    }
}

/// `node` with `child` appended as the last child of the node that `path` leads to.
pub open spec fn attach(node: VesperView, path: Seq<usize>, child: VesperView) -> VesperView
    decreases path.len(),
{
    if path.len() == 0 {
        VesperView { descr: node.descr, content: node.content.push(child) }
    } else {
        VesperView {
            descr: node.descr,
            content: node.content.update(
                path[0] as int,
                attach(node.content[path[0] as int], path.drop_first(), child),
            ),
        }
    }
}

/// What has been rebuilt after some items: the tree so far, and the child
/// indices that lead from its root to the node of the last item.
pub struct Progress {
    pub root: VesperView,
    pub path: Seq<usize>,
}

/// The state after the first item.
pub open spec fn start(item: ItemView) -> Result<Progress, LayoutError> {
    if item.depth == 0 {
        Ok(Progress { root: leaf(item.descr), path: Seq::empty() })
    } else if item.depth == 1 {
        Err(LayoutError::MissingRoot)
    } else {
        Err(LayoutError::SkippedLevel)
    }
}

/// The state after one more item.
pub open spec fn step(st: Progress, item: ItemView) -> Result<Progress, LayoutError> {
    if item.depth == 0 {
        Err(LayoutError::RepeatedRoot)
    } else if st.path.len() + 1 < item.depth {
        Err(LayoutError::SkippedLevel)
    } else {
        let parent = st.path.take(item.depth - 1);
        let index = child_count(st.root, parent);
        if index >= MAX_CHILDREN {
            Err(LayoutError::TooManyItems)
        } else {
            Ok(
                Progress {
                    root: attach(st.root, parent, leaf(item.descr)),
                    path: parent.push(index as usize),
                },
            )
        }
    }
}

/// The state after all of `items`, taken one by one from the front.
pub open spec fn run(items: Seq<ItemView>) -> Result<Progress, LayoutError>
    decreases items.len(),
{
    if items.len() == 0 {
        Err(LayoutError::ZeroItems)
    } else if items.len() == 1 {
        start(items[0])
    } else {
        match run(items.drop_last()) {
            Ok(st) => step(st, items.last()),
            Err(e) => Err(e),
        }
    }
}

/// The tree that `items` describe, or why they describe none.
pub open spec fn reconstruct(items: Seq<ItemView>) -> Result<VesperView, LayoutError> {
    match run(items) {
        Ok(st) => Ok(st.root),
        Err(e) => Err(e),
    }
}

/// `path` leads from `node` down its last children only: to the node that
/// comes last in the preorder of `node`, or to one of the ancestors of that node.
pub open spec fn is_spine(node: VesperView, path: Seq<usize>) -> bool
    decreases path.len(),
{
    path.len() == 0 || {
        &&& node.content.len() > 0
        &&& path[0] == node.content.len() - 1
        &&& is_spine(node.content.last(), path.drop_first())
    }
}

/// `node` with each of `children` appended, in order, to the node that `path` leads to.
pub open spec fn attach_all(node: VesperView, path: Seq<usize>, children: Seq<VesperView>) -> VesperView
    decreases children.len(),
{
    if children.len() == 0 {
        node
    } else {
        attach(attach_all(node, path, children.drop_last()), path, children.last())
    }
}

/// A path along the last children stays one when cut short, and is valid.
pub proof fn lemma_spine_take(node: VesperView, path: Seq<usize>, k: int)
    requires
        is_spine(node, path),
        0 <= k <= path.len(),
    ensures
        is_spine(node, path.take(k)),
        valid_path(node, path.take(k)),
    decreases path.len(),
{
    if k > 0 {
        lemma_spine_take(node.content.last(), path.drop_first(), k - 1);
        assert(path.take(k).drop_first() =~= path.drop_first().take(k - 1));
        assert(path.take(k)[0] == path[0]);
    }
}

/// Appending a child keeps the path to its parent valid and gives the parent one child more.
pub proof fn lemma_attach_count(node: VesperView, path: Seq<usize>, child: VesperView)
    requires
        valid_path(node, path),
    ensures
        valid_path(attach(node, path, child), path),
        child_count(attach(node, path, child), path) == child_count(node, path) + 1,
    decreases path.len(),
{
    if path.len() > 0 {
        lemma_attach_count(node.content[path[0] as int], path.drop_first(), child);
    }
}

/// Appending a child below a node on the path along the last children puts
/// the child last in the preorder, and the path to it runs along the last
/// children again.
pub proof fn lemma_attach_spine(node: VesperView, path: Seq<usize>, child: VesperView, depth: nat)
    requires
        is_spine(node, path),
        child_count(node, path) < MAX_CHILDREN,
    ensures
        is_spine(attach(node, path, child), path.push(child_count(node, path) as usize)),
        attach(node, path, child).flatten(depth) == node.flatten(depth) + child.flatten(
            depth + path.len() + 1,
        ),
        node.wf() && child.wf() ==> attach(node, path, child).wf(),
    decreases path.len(),
{
    let index = child_count(node, path) as usize;
    let grown = attach(node, path, child);
    let longer = path.push(index);
    if path.len() == 0 {
        assert(grown.content.drop_last() =~= node.content);
        assert(longer.drop_first() =~= Seq::<usize>::empty());
        assert(is_spine(grown.content.last(), longer.drop_first()));
        assert(is_spine(grown, longer));
        assert(grown.flatten(depth) =~= node.flatten(depth) + child.flatten(depth + 1));
    } else {
        let i = path[0] as int;
        let sub = node.content[i];
        lemma_attach_spine(sub, path.drop_first(), child, depth + 1);
        let sub_grown = attach(sub, path.drop_first(), child);
        assert(longer.drop_first() =~= path.drop_first().push(index));
        assert(grown.content.last() == sub_grown);
        assert(is_spine(grown, longer));
        assert(grown.content.drop_last() =~= node.content.drop_last());
        assert(grown.flatten(depth) =~= node.flatten(depth) + child.flatten(
            depth + path.len() + 1,
        ));
        if node.wf() && child.wf() {
            assert(sub.wf());
            assert(grown.wf());
        }
    }
}

/// Whatever the reconstruction accepts, it rebuilds faithfully: the tree it
/// ends with flattens back to the items it was given, no node of it is
/// overfull, and its path leads along the last children to the node of the
/// last item.
pub proof fn lemma_run_sound(items: Seq<ItemView>)
    requires
        run(items) is Ok,
    ensures
        run(items) matches Ok(st) && {
            &&& is_spine(st.root, st.path)
            &&& st.root.wf()
            &&& st.root.flatten(0) == items
            &&& st.path.len() == items.last().depth
        },
    decreases items.len(),
{
    if items.len() == 1 {
        let st = run(items)->Ok_0;
        assert(flatten_all(st.root.content, 1) =~= Seq::<ItemView>::empty());
        assert(st.root.flatten(0) =~= items);
    } else {
        let before = items.drop_last();
        let item = items.last();
        lemma_run_sound(before);
        let st = run(before)->Ok_0;
        let parent = st.path.take(item.depth - 1);
        lemma_spine_take(st.root, st.path, item.depth - 1);
        lemma_attach_spine(st.root, parent, leaf(item.descr), 0);
        assert(flatten_all(leaf(item.descr).content, item.depth + 1) =~= Seq::<ItemView>::empty());
        assert(leaf(item.descr).flatten(item.depth) =~= seq![item]);
        assert(before + seq![item] =~= items);
    }
}

/// `node` with `children` appended to its own children.
pub open spec fn with_children(node: VesperView, children: Seq<VesperView>) -> VesperView {
    VesperView { descr: node.descr, content: node.content + children }
}

/// Appending `child` below a node that was itself just appended gives what
/// appending that node with `child` already in it gives.
pub proof fn lemma_attach_nested(
    node: VesperView,
    path: Seq<usize>,
    inner: VesperView,
    child: VesperView,
)
    requires
        valid_path(node, path),
        child_count(node, path) < MAX_CHILDREN,
    ensures
        attach(attach(node, path, inner), path.push(child_count(node, path) as usize), child)
            == attach(node, path, with_children(inner, seq![child])),
        child_count(attach(node, path, inner), path.push(child_count(node, path) as usize))
            == inner.content.len(),
    decreases path.len(),
{
    let index = child_count(node, path) as usize;
    let longer = path.push(index);
    let filled = with_children(inner, seq![child]);
    assert(filled.content =~= inner.content.push(child));
    if path.len() == 0 {
        assert(longer.drop_first() =~= Seq::<usize>::empty());
        let once = attach(node, path, inner);
        assert(attach(once.content[index as int], longer.drop_first(), child) == filled);
        assert(attach(once, longer, child).content =~= attach(node, path, filled).content);
        assert(child_count(once.content[index as int], longer.drop_first()) == inner.content.len());
    } else {
        let i = path[0] as int;
        lemma_attach_nested(node.content[i], path.drop_first(), inner, child);
        assert(longer.drop_first() =~= path.drop_first().push(index));
        let once = attach(node, path, inner);
        assert(attach(once, longer, child).content =~= attach(node, path, filled).content);
    }
}

/// Appending children one by one below a node that was itself just appended
/// gives what appending that node with all of them already in it gives.
pub proof fn lemma_attach_all_nested(
    node: VesperView,
    path: Seq<usize>,
    inner: VesperView,
    children: Seq<VesperView>,
)
    requires
        valid_path(node, path),
        child_count(node, path) < MAX_CHILDREN,
    ensures
        attach_all(
            attach(node, path, inner),
            path.push(child_count(node, path) as usize),
            children,
        ) == attach(node, path, with_children(inner, children)),
    decreases children.len(),
{
    if children.len() == 0 {
        assert(with_children(inner, children).content =~= inner.content);
    } else {
        let front = children.drop_last();
        lemma_attach_all_nested(node, path, inner, front);
        lemma_attach_nested(node, path, with_children(inner, front), children.last());
        assert(with_children(with_children(inner, front), seq![children.last()]).content
            =~= with_children(inner, children).content);
    }
}

/// Appending children one by one to the root gives the root with all of them in it.
pub proof fn lemma_attach_all_root(node: VesperView, children: Seq<VesperView>)
    ensures
        attach_all(node, Seq::empty(), children) == with_children(node, children),
    decreases children.len(),
{
    if children.len() == 0 {
        assert(with_children(node, children).content =~= node.content);
    } else {
        let front = children.drop_last();
        lemma_attach_all_root(node, front);
        assert(with_children(node, front).content.push(children.last()) =~= with_children(
            node,
            children,
        ).content);
    }
}

/// Appending children one by one keeps the path to their parent valid and
/// gives the parent that many children more.
pub proof fn lemma_attach_all_count(node: VesperView, path: Seq<usize>, children: Seq<VesperView>)
    requires
        valid_path(node, path),
    ensures
        valid_path(attach_all(node, path, children), path),
        child_count(attach_all(node, path, children), path) == child_count(node, path)
            + children.len(),
    decreases children.len(),
{
    if children.len() > 0 {
        lemma_attach_all_count(node, path, children.drop_last());
        lemma_attach_count(attach_all(node, path, children.drop_last()), path, children.last());
    }
}

/// Running on, through the flattening of one more subtree at `depth`,
/// appends that subtree whole below the node that the path leads to at
/// `depth - 1`.
pub proof fn lemma_run_subtree(before: Seq<ItemView>, tree: VesperView, depth: nat)
    requires
        depth >= 1,
        tree.wf(),
        run(before) matches Ok(st) && {
            &&& st.path.len() + 1 >= depth
            &&& child_count(st.root, st.path.take(depth - 1)) < MAX_CHILDREN
        },
    ensures
        run(before) matches Ok(st) && run(before + tree.flatten(depth)) matches Ok(end) && {
            let parent = st.path.take(depth - 1);
            &&& end.root == attach(st.root, parent, tree)
            &&& end.path.len() >= depth
            &&& end.path.take(depth as int) == parent.push(child_count(st.root, parent) as usize)
        },
    decreases tree,
{
    lemma_run_sound(before);
    let st = run(before)->Ok_0;
    let parent = st.path.take(depth - 1);
    let index = child_count(st.root, parent) as usize;
    let head = ItemView { depth, descr: tree.descr };
    let opened = before + seq![head];
    assert(opened.drop_last() =~= before);
    assert(opened.last() == head);
    let mid = run(opened)->Ok_0;
    assert(run(opened) == step(st, head));
    assert(mid.root == attach(st.root, parent, leaf(tree.descr)));
    assert(mid.path == parent.push(index));
    lemma_spine_take(st.root, st.path, depth - 1);
    lemma_attach_nested(st.root, parent, leaf(tree.descr), leaf(tree.descr));
    assert(mid.path.take(depth as int) =~= mid.path);
    assert(child_count(mid.root, mid.path) == 0);
    lemma_run_children(opened, tree.content, depth + 1, mid.path);
    lemma_attach_all_nested(st.root, parent, leaf(tree.descr), tree.content);
    assert(with_children(leaf(tree.descr), tree.content).content =~= tree.content);
    assert(with_children(leaf(tree.descr), tree.content) == tree);
    assert(opened + flatten_all(tree.content, depth + 1) =~= before + tree.flatten(depth));
}

/// Running on, through the flattening of a row of siblings at `depth`,
/// appends them whole, in order, below the node that the path leads to at
/// `depth - 1`.
pub proof fn lemma_run_children(
    before: Seq<ItemView>,
    nodes: Seq<VesperView>,
    depth: nat,
    parent: Seq<usize>,
)
    requires
        depth >= 1,
        forall|i: int| 0 <= i < nodes.len() ==> (#[trigger] nodes[i]).wf(),
        run(before) matches Ok(st) && {
            &&& st.path.len() + 1 >= depth
            &&& st.path.take(depth - 1) == parent
            &&& child_count(st.root, parent) + nodes.len() <= MAX_CHILDREN
        },
    ensures
        run(before) matches Ok(st) && run(before + flatten_all(nodes, depth)) matches Ok(end) && {
            &&& end.root == attach_all(st.root, parent, nodes)
            &&& end.path.len() + 1 >= depth
            &&& end.path.take(depth - 1) == parent
        },
    decreases nodes,
{
    let st = run(before)->Ok_0;
    if nodes.len() == 0 {
        assert(before + flatten_all(nodes, depth) =~= before);
    } else {
        let front = nodes.drop_last();
        let last = nodes.last();
        assert forall|i: int| 0 <= i < front.len() implies (#[trigger] front[i]).wf() by {
            assert(front[i] == nodes[i]);
        }
        lemma_run_children(before, front, depth, parent);
        let sofar = before + flatten_all(front, depth);
        let mid = run(sofar)->Ok_0;
        lemma_run_sound(before);
        lemma_spine_take(st.root, st.path, depth - 1);
        lemma_attach_all_count(st.root, parent, front);
        lemma_run_subtree(sofar, last, depth);
        let end = run(sofar + last.flatten(depth))->Ok_0;
        assert(sofar + last.flatten(depth) =~= before + flatten_all(nodes, depth));
        assert(end.path.take(depth - 1) =~= end.path.take(depth as int).take(depth - 1));
        assert(parent.push(child_count(mid.root, parent) as usize).take(depth - 1) =~= parent);
    }
}

/// Flattening a tree in preorder and rebuilding it gives the tree back, for
/// every tree in which no node holds more than `MAX_CHILDREN` children.
pub proof fn lemma_reconstruct_flatten(tree: VesperView)
    requires
        tree.wf(),
    ensures
        reconstruct(tree.flatten(0)) == Ok::<VesperView, LayoutError>(tree),
{
    let head = seq![ItemView { depth: 0, descr: tree.descr }];
    let st = run(head)->Ok_0;
    assert(st.path.take(0) =~= Seq::<usize>::empty());
    lemma_run_children(head, tree.content, 1, Seq::empty());
    lemma_attach_all_root(leaf(tree.descr), tree.content);
    assert(with_children(leaf(tree.descr), tree.content).content =~= tree.content);
}

/// A layout with no item is refused for want of a root.
pub proof fn lemma_reconstruct_empty(items: Seq<ItemView>)
    requires
        items.len() == 0,
    ensures
        reconstruct(items) == Err::<VesperView, LayoutError>(LayoutError::ZeroItems),
{
}

/// Where the items so far are accepted and the next one is nested more than
/// one level deeper than the last of them, the layout is refused for a
/// skipped level.
pub proof fn lemma_reconstruct_skipped(items: Seq<ItemView>, next: ItemView)
    requires
        run(items) is Ok,
        next.depth > items.last().depth + 1,
    ensures
        reconstruct(items.push(next)) == Err::<VesperView, LayoutError>(LayoutError::SkippedLevel),
{
    lemma_run_sound(items);
    assert(items.push(next).drop_last() =~= items);
}

/// No two trees have the same flattening.
pub proof fn lemma_flatten_injective(a: VesperView, b: VesperView)
    requires
        a.wf(),
        b.wf(),
        a.flatten(0) == b.flatten(0),
    ensures
        a == b,
{
    lemma_reconstruct_flatten(a);
    lemma_reconstruct_flatten(b);
}

impl Descr {
    /// A copy of the descriptor.
    pub fn duplicate(&self) -> (res: Descr)
        ensures
            res@ == self@,
    {
        Descr { subject: self.subject.clone(), predicate: self.predicate.clone() }
    }
}

impl TypeInfo {
    /// The node that stands for this item alone, without children.
    pub fn to_vesper(&self) -> (res: TypeVesper)
        ensures
            res@ == leaf(self@.descr),
    {
        let res = TypeVesper { descr: self.descr.duplicate(), content: Vec::new() };
        proof {
            res.lemma_view_content();
        }
        assert(res@.content =~= Seq::empty());
        res
    }
}

/// Appends `child` to the children of the node that `path[level..]` leads to
/// from `node`, and returns its index there; leaves the tree as it is where
/// that node is full.
fn push_child(node: &mut TypeVesper, path: &Vec<usize>, level: usize, child: TypeVesper) -> (res:
    Option<usize>)
    requires
        level <= path.len(),
        valid_path(old(node)@, path@.skip(level as int)),
    ensures
        match res {
            Some(index) => {
                &&& index == child_count(old(node)@, path@.skip(level as int))
                &&& index < MAX_CHILDREN
                &&& final(node)@ == attach(old(node)@, path@.skip(level as int), child@)
            },
            None => {
                &&& child_count(old(node)@, path@.skip(level as int)) >= MAX_CHILDREN
                &&& final(node)@ == old(node)@
            },
        },
    decreases path.len() - level,
{
    let ghost rest = path@.skip(level as int);
    proof {
        node.lemma_view_content();
    }
    if level == path.len() {
        assert(rest.len() == 0);
        if node.content.len() >= MAX_CHILDREN {
            return None;
        }
        let index = node.content.len();
        node.content.push(child);
        proof {
            node.lemma_view_content();
        }
        assert(node@.content =~= old(node)@.content.push(child@));
        Some(index)
    } else {
        let i = path[level];
        assert(rest.len() > 0 && rest[0] == i);
        assert(rest.drop_first() =~= path@.skip(level + 1));
        let ghost before = node.content@[i as int]@;
        assert(before == old(node)@.content[i as int]);
        let res = push_child(&mut node.content[i], path, level + 1, child);
        proof {
            node.lemma_view_content();
            let after = node.content@[i as int]@;
            assert(node@.content =~= old(node)@.content.update(i as int, after));
            assert(child_count(old(node)@, rest) == child_count(before, rest.drop_first()));
            if res is Some {
                assert(after == attach(before, rest.drop_first(), child@));
                assert(node@ == attach(old(node)@, rest, child@));
            } else {
                assert(after == before);
                assert(node@.content =~= old(node)@.content);
            }
        }
        res
    }
}

} // verus!


verus! {

/// A type's composition, flattened in preorder: each node with its depth.
#[derive(Clone, PartialEq, Eq, Debug)]
pub struct TypeLayout {
    items: Vec<TypeInfo>,
}

/// The views of a row of items, in order.
pub open spec fn item_views(items: Seq<TypeInfo>) -> Seq<ItemView> {
    Seq::new(items.len(), |i: int| items[i]@)
}

impl View for TypeLayout {
    type V = Seq<ItemView>;

    closed spec fn view(&self) -> Seq<ItemView> {
        item_views(self.items@)
    }
}

impl TypeLayout {
    /// A layout without items.
    pub fn new() -> (res: TypeLayout)
        ensures
            res@ == Seq::<ItemView>::empty(),
    {
        let res = TypeLayout { items: Vec::new() };
        assert(res@ =~= Seq::<ItemView>::empty());
        res
    }

    /// The layout that holds `items`, in their order.
    pub fn with(items: Vec<TypeInfo>) -> (res: TypeLayout)
        ensures
            res@ == item_views(items@),
    {
        TypeLayout { items }
    }

    /// The number of items.
    pub fn len(&self) -> (res: usize)
        ensures
            res == self@.len(),
    {
        self.items.len()
    }

    /// Adds `item` behind the items that are there.
    pub fn push(&mut self, item: TypeInfo)
        ensures
            final(self)@ == old(self)@.push(item@),
    {
        self.items.push(item);
        assert(self@ =~= old(self)@.push(item@));
    }

    /// Rebuilds the tree that the layout is the preorder flattening of.
    ///
    /// The first item is the root and has depth 0. Every later item at depth
    /// `d` becomes the next child of the latest item at depth `d - 1`. The
    /// result is the one tree whose preorder flattening is this layout; where
    /// there is no such tree, the error says what the first offending item
    /// breaks.
    pub fn to_vesper(&self) -> (res: Result<TypeVesper, LayoutError>)
        ensures
            match res {
                Ok(tree) => reconstruct(self@) == Ok::<VesperView, LayoutError>(tree@),
                Err(e) => reconstruct(self@) == Err::<VesperView, LayoutError>(e),
            },
            res matches Ok(tree) ==> tree@.wf() && tree@.flatten(0) == self@,
            res is Err ==> forall|tree: VesperView| tree.wf() ==> tree.flatten(0) != self@,
    {
        let ghost all = self@;
        let n = self.items.len();
        if n == 0 {
            proof {
                assert forall|tree: VesperView| tree.wf() implies tree.flatten(0) != all by {
                    lemma_reconstruct_flatten(tree);
                }
            }
            return Err(LayoutError::ZeroItems);
        }
        let first = &self.items[0];
        assert(all.take(1) =~= seq![first@]);
        let mut failure: Option<LayoutError> = None;
        let mut root = first.to_vesper();
        let mut path: Vec<usize> = Vec::new();
        let mut i: usize = 1;
        if first.depth == 1 {
            failure = Some(LayoutError::MissingRoot);
        } else if first.depth != 0 {
            failure = Some(LayoutError::SkippedLevel);
        }
        while i < n && failure.is_none()
            invariant
                1 <= i <= n,
                n == self.items.len(),
                all == self@,
                all.len() == n,
                match failure {
                    None => run(all.take(i as int)) == Ok::<Progress, LayoutError>(
                        Progress { root: root@, path: path@ },
                    ),
                    Some(e) => run(all.take(i as int)) == Err::<Progress, LayoutError>(e),
                },
            decreases n - i + if failure.is_none() { 1int } else { 0int },
        {
            let item = &self.items[i];
            let depth = item.depth;
            let ghost sofar = all.take(i as int);
            let ghost next = all.take(i + 1);
            proof {
                assert(next.drop_last() =~= sofar);
                assert(next.last() == item@);
                lemma_run_sound(sofar);
            }
            if depth == 0 {
                failure = Some(LayoutError::RepeatedRoot);
            } else if path.len() < depth - 1 {
                failure = Some(LayoutError::SkippedLevel);
            } else {
                let ghost whole = path@;
                path.truncate(depth - 1);
                proof {
                    assert(path@ =~= whole.take(depth - 1));
                    lemma_spine_take(root@, whole, depth - 1);
                    assert(path@.skip(0) =~= path@);
                }
                match push_child(&mut root, &path, 0, item.to_vesper()) {
                    Some(index) => {
                        path.push(index);
                    },
                    None => {
                        failure = Some(LayoutError::TooManyItems);
                    },
                }
            }
            i = i + 1;
        }
        proof {
            if failure is Some {
                lemma_run_failure_stays(all, i as int);
            } else {
                assert(all.take(i as int) =~= all);
            }
        }
        match failure {
            Some(e) => {
                proof {
                    assert forall|tree: VesperView| tree.wf() implies tree.flatten(0) != all by {
                        lemma_reconstruct_flatten(tree);
                    }
                }
                Err(e)
            },
            None => {
                proof {
                    lemma_run_sound(all);
                }
                Ok(root)
            },
        }
    }
}

/// Once the items so far are refused, no further item mends them.
pub proof fn lemma_run_failure_stays(items: Seq<ItemView>, k: int)
    requires
        1 <= k <= items.len(),
        run(items.take(k)) is Err,
    ensures
        run(items) == run(items.take(k)),
    decreases items.len() - k,
{
    if k < items.len() {
        let more = items.take(k + 1);
        assert(more.drop_last() =~= items.take(k));
        lemma_run_failure_stays(items, k + 1);
    } else {
        assert(items.take(k) =~= items);
    }
}

impl VesperView {
    /// The depths of the tree, with its root at `depth`, are numbers that
    /// a layout can hold.
    pub open spec fn fits(self, depth: nat) -> bool
        decreases self,
    {
        &&& depth <= usize::MAX
        &&& forall|i: int| 0 <= i < self.content.len() ==> (#[trigger] self.content[i]).fits(depth + 1)
    }

    /// The tree as text, with its root at `depth`: a line for each node, in
    /// preorder, two spaces deeper for each level.
    pub open spec fn text(self, depth: nat) -> Seq<char>
        decreases self,
    {
        indent(depth) + self.descr.subject + " "@ + self.descr.predicate + "\n"@ + texts(
            self.content,
            depth + 1,
        )
    }
}

/// Two spaces for each of `depth` levels.
pub open spec fn indent(depth: nat) -> Seq<char>
    decreases depth,
{
    if depth == 0 {
        Seq::empty()
    } else {
        indent((depth - 1) as nat) + "  "@
    }
}

/// A row of siblings as text, each at `depth`.
pub open spec fn texts(nodes: Seq<VesperView>, depth: nat) -> Seq<char>
    decreases nodes,
{
    if nodes.len() == 0 {
        Seq::empty()
    } else {
        texts(nodes.drop_last(), depth) + nodes.last().text(depth)
    }
}

impl TypeVesper {
    /// Appends to `out` the preorder flattening of the tree, its root at
    /// `depth`. Tells whether all depths were numbers that a layout can
    /// hold; where they were not, what is appended means nothing.
    fn flatten_into(&self, depth: usize, out: &mut Vec<TypeInfo>) -> (res: bool)
        ensures
            res == self@.fits(depth as nat),
            res ==> item_views(final(out)@) == item_views(old(out)@) + self@.flatten(depth as nat),
        decreases self,
    {
        proof {
            self.lemma_view_content();
        }
        out.push(TypeInfo { depth, descr: self.descr.duplicate() });
        let ghost head = item_views(out@);
        assert(head =~= item_views(old(out)@) + seq![ItemView { depth: depth as nat, descr: self@.descr }]);
        if self.content.len() == 0 {
            assert(flatten_all(self@.content, (depth + 1) as nat) =~= Seq::<ItemView>::empty());
            assert(item_views(out@) =~= item_views(old(out)@) + self@.flatten(depth as nat));
            return true;
        }
        if depth == usize::MAX {
            assert(!self@.content[0].fits((depth + 1) as nat));
            return false;
        }
        let mut i: usize = 0;
        while i < self.content.len()
            invariant
                0 <= i <= self.content.len(),
                depth < usize::MAX,
                self@.content.len() == self.content@.len(),
                forall|j: int|
                    #![trigger self@.content[j]]
                    0 <= j < self.content@.len() ==> self@.content[j] == self.content@[j]@,
                forall|j: int| 0 <= j < i ==> (#[trigger] self@.content[j]).fits((depth + 1) as nat),
                item_views(out@) == head + flatten_all(self@.content.take(i as int), (depth + 1) as nat),
            decreases self.content.len() - i,
        {
            assert(self@.content.take(i + 1).drop_last() =~= self@.content.take(i as int));
            assert(self@.content.take(i + 1).last() == self@.content[i as int]);
            if !self.content[i].flatten_into(depth + 1, out) {
                return false;
            }
            i = i + 1;
        }
        assert(self@.content.take(i as int) =~= self@.content);
        assert(item_views(out@) =~= item_views(old(out)@) + self@.flatten(depth as nat));
        true
    }

    /// Appends to `out` the tree as text, its root at `depth`, for which
    /// `margin` is the indentation.
    fn text_into(&self, depth: Ghost<nat>, out: &mut String, margin: &String)
        requires
            margin@ == indent(depth@),
        ensures
            final(out)@ == old(out)@ + self@.text(depth@),
        decreases self,
    {
        proof {
            self.lemma_view_content();
        }
        out.append(margin.as_str());
        out.append(self.descr.subject.as_str());
        out.append(" ");
        out.append(self.descr.predicate.as_str());
        out.append("\n");
        let ghost head = out@;
        let mut deeper = margin.clone();
        deeper.append("  ");
        let mut i: usize = 0;
        assert(self@.content.take(0) =~= Seq::<VesperView>::empty());
        while i < self.content.len()
            invariant
                0 <= i <= self.content.len(),
                deeper@ == indent(depth@ + 1),
                self@.content.len() == self.content@.len(),
                forall|j: int|
                    #![trigger self@.content[j]]
                    0 <= j < self.content@.len() ==> self@.content[j] == self.content@[j]@,
                out@ == head + texts(self@.content.take(i as int), depth@ + 1),
            decreases self.content.len() - i,
        {
            assert(self@.content.take(i + 1).drop_last() =~= self@.content.take(i as int));
            assert(self@.content.take(i + 1).last() == self@.content[i as int]);
            self.content[i].text_into(Ghost(depth@ + 1), out, &deeper);
            i = i + 1;
        }
        assert(self@.content.take(i as int) =~= self@.content);
        assert(out@ =~= old(out)@ + self@.text(depth@));
    }

    /// The tree as text: a line for each node with what is rendered for it,
    /// in preorder, two spaces deeper for each level.
    pub fn to_string(&self) -> (res: String)
        ensures
            res@ == self@.text(0),
    {
        let mut out = String::new();
        let margin = String::new();
        self.text_into(Ghost(0), &mut out, &margin);
        out
    }
}

impl TypeLayout {
    /// The layout of `tree`: its preorder flattening, the root at depth 0.
    /// There is none where the tree is deeper than numbers go.
    pub fn from_vesper(tree: &TypeVesper) -> (res: Option<TypeLayout>)
        ensures
            match res {
                Some(layout) => tree@.fits(0) && layout@ == tree@.flatten(0),
                None => !tree@.fits(0),
            },
    {
        let mut items: Vec<TypeInfo> = Vec::new();
        assert(item_views(items@) =~= Seq::<ItemView>::empty());
        if tree.flatten_into(0, &mut items) {
            let layout = TypeLayout { items };
            assert(layout@ =~= tree@.flatten(0));
            Some(layout)
        } else {
            None
        }
    }

    /// The layout as text: the text of the tree that it is the flattening
    /// of.
    pub fn to_string(&self) -> (res: Result<String, LayoutError>)
        ensures
            match res {
                Ok(text) => reconstruct(self@) matches Ok(tree) && text@ == tree.text(0),
                Err(e) => reconstruct(self@) == Err::<VesperView, LayoutError>(e),
            },
    {
        match self.to_vesper() {
            Ok(tree) => Ok(tree.to_string()),
            Err(e) => Err(e),
        }
    }
}

} // verus!
