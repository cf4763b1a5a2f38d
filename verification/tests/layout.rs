use strict_types::layout::{Descr, LayoutError, TypeInfo, TypeLayout, TypeVesper};

fn item(depth: usize, subject: &str) -> TypeInfo {
    TypeInfo { depth, descr: Descr { subject: subject.to_string(), predicate: String::new() } }
}

fn shape(tree: &TypeVesper) -> String {
    let mut out = tree.descr.subject.clone();
    if !tree.content.is_empty() {
        out.push('(');
        for (i, child) in tree.content.iter().enumerate() {
            if i > 0 {
                out.push(' ');
            }
            out.push_str(&shape(child));
        }
        out.push(')');
    }
    out
}

fn layout(items: &[(usize, &str)]) -> TypeLayout {
    TypeLayout::with(items.iter().map(|(d, s)| item(*d, s)).collect())
}

#[test]
fn rebuilds_a_tree() {
    let l = layout(&[(0, "a"), (1, "b"), (2, "c"), (2, "d"), (1, "e"), (2, "f"), (3, "g"), (1, "h")]);
    let tree = l.to_vesper().unwrap();
    assert_eq!(shape(&tree), "a(b(c d) e(f(g)) h)");
}

#[test]
fn single_item_is_a_root_without_children() {
    let tree = layout(&[(0, "root")]).to_vesper().unwrap();
    assert_eq!(shape(&tree), "root");
    assert!(tree.content.is_empty());
}

#[test]
fn empty_layout_has_zero_items() {
    assert_eq!(TypeLayout::new().to_vesper().err(), Some(LayoutError::ZeroItems));
    assert_eq!(TypeLayout::new().len(), 0);
}

#[test]
fn depth_jump_is_a_skipped_level() {
    assert_eq!(layout(&[(0, "a"), (2, "b")]).to_vesper().err(), Some(LayoutError::SkippedLevel));
    assert_eq!(
        layout(&[(0, "a"), (1, "b"), (3, "c")]).to_vesper().err(),
        Some(LayoutError::SkippedLevel)
    );
    assert_eq!(layout(&[(2, "a")]).to_vesper().err(), Some(LayoutError::SkippedLevel));
}

#[test]
fn first_item_below_a_root_misses_the_root() {
    assert_eq!(layout(&[(1, "a")]).to_vesper().err(), Some(LayoutError::MissingRoot));
}

#[test]
fn second_root_is_refused() {
    assert_eq!(layout(&[(0, "a"), (0, "b")]).to_vesper().err(), Some(LayoutError::RepeatedRoot));
    assert_eq!(
        layout(&[(0, "a"), (1, "b"), (0, "c")]).to_vesper().err(),
        Some(LayoutError::RepeatedRoot)
    );
}

#[test]
fn node_takes_255_children_and_no_more() {
    let mut l = TypeLayout::new();
    l.push(item(0, "root"));
    for _ in 0..255 {
        l.push(item(1, "child"));
    }
    assert_eq!(l.len(), 256);
    let tree = l.to_vesper().unwrap();
    assert_eq!(tree.content.len(), 255);
    l.push(item(1, "one too many"));
    assert_eq!(l.to_vesper().err(), Some(LayoutError::TooManyItems));
}

#[test]
fn the_first_fault_decides() {
    // the skipped level comes before the second root
    assert_eq!(
        layout(&[(0, "a"), (2, "b"), (0, "c")]).to_vesper().err(),
        Some(LayoutError::SkippedLevel)
    );
}

#[test]
fn returning_to_an_ancestor() {
    let l = layout(&[(0, "a"), (1, "b"), (2, "c"), (3, "d"), (1, "e")]);
    assert_eq!(shape(&l.to_vesper().unwrap()), "a(b(c(d)) e)");
}
