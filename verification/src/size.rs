//! The measure of a type's size in bytes.

use core::cmp::Ordering;
use vstd::prelude::*;
use vstd::std_specs::cmp::PartialOrdSpecImpl;

verus! {

/// Measure of a type's size in bytes.
#[derive(Copy, Clone, PartialEq, Eq, Structural, Ord, Debug)]
pub enum Size {
    /// The type has a fixed size, known beforehand.
    Fixed(u16),
    /// The type's size varies with the value.
    Variable,
}

/// How two sizes compare: a variable size is above every fixed one, two
/// variable sizes are equal, two fixed sizes compare as their numbers do.
pub open spec fn size_order(a: Size, b: Size) -> Ordering {
    match (a, b) {
        (Size::Variable, Size::Variable) => Ordering::Equal,
        (Size::Variable, _) => Ordering::Greater,
        (_, Size::Variable) => Ordering::Less,
        (Size::Fixed(x), Size::Fixed(y)) => if x < y {
            Ordering::Less
        } else if x > y {
            Ordering::Greater
        } else {
            Ordering::Equal
        },
    }
}

impl PartialOrd for Size {
    fn partial_cmp(&self, other: &Size) -> (res: Option<Ordering>) {
        let order = match (*self, *other) {
            (Size::Variable, Size::Variable) => Ordering::Equal,
            (Size::Variable, _) => Ordering::Greater,
            (_, Size::Variable) => Ordering::Less,
            (Size::Fixed(x), Size::Fixed(y)) => if x < y {
                Ordering::Less
            } else if x > y {
                Ordering::Greater
            } else {
                Ordering::Equal
            },
        };
        Some(order)
    }
}

impl PartialOrdSpecImpl for Size {
    open spec fn obeys_partial_cmp_spec() -> bool {
        true
    }

    open spec fn partial_cmp_spec(&self, other: &Size) -> Option<Ordering> {
        Some(size_order(*self, *other))
    }
}

/// The sum of two sizes: fixed where both are, else variable.
pub open spec fn size_sum(a: Size, b: Size) -> Size {
    match (a, b) {
        (Size::Fixed(x), Size::Fixed(y)) => Size::Fixed((x + y) as u16),
        _ => Size::Variable,
    }
}

/// The two sizes can be added: where both are fixed, their sum is a `u16`.
pub open spec fn can_add(a: Size, b: Size) -> bool {
    match (a, b) {
        (Size::Fixed(x), Size::Fixed(y)) => x + y <= u16::MAX,
        _ => true,
    }
}

/// The sum of `sizes`, added up from the front, starting at a fixed size 0.
pub open spec fn size_total(sizes: Seq<Size>) -> Size
    decreases sizes.len(),
{
    if sizes.len() == 0 {
        Size::Fixed(0)
    } else {
        size_sum(size_total(sizes.drop_last()), sizes.last())
    }
}

/// `sizes` can be added up from the front: no sum on the way leaves `u16`.
pub open spec fn can_total(sizes: Seq<Size>) -> bool
    decreases sizes.len(),
{
    sizes.len() == 0 || {
        &&& can_total(sizes.drop_last())
        &&& can_add(size_total(sizes.drop_last()), sizes.last())
    }
}

impl Size {
    /// The sum of two sizes.
    pub fn add(self, rhs: Size) -> (res: Size)
        requires
            can_add(self, rhs),
        ensures
            res == size_sum(self, rhs),
    {
        match (self, rhs) {
            (Size::Fixed(x), Size::Fixed(y)) => Size::Fixed(x + y),
            _ => Size::Variable,
        }
    }

    /// The sum of two sizes, or `None` where both are fixed and their sum is
    /// no `u16`.
    pub fn checked_add(self, rhs: Size) -> (res: Option<Size>)
        ensures
            res == if can_add(self, rhs) {
                Some(size_sum(self, rhs))
            } else {
                None
            },
    {
        match (self, rhs) {
            (Size::Fixed(x), Size::Fixed(y)) => match x.checked_add(y) {
                Some(z) => Some(Size::Fixed(z)),
                None => None,
            },
            _ => Some(Size::Variable),
        }
    }

    /// Adds `rhs` to this size.
    pub fn add_assign(&mut self, rhs: Size)
        requires
            can_add(*old(self), rhs),
        ensures
            *final(self) == size_sum(*old(self), rhs),
    {
        *self = self.add(rhs);
    }

    /// The sum of `sizes`.
    pub fn sum(sizes: &Vec<Size>) -> (res: Size)
        requires
            can_total(sizes@),
        ensures
            res == size_total(sizes@),
    {
        let mut acc = Size::Fixed(0);
        let mut i: usize = 0;
        while i < sizes.len()
            invariant
                0 <= i <= sizes.len(),
                can_total(sizes@),
                acc == size_total(sizes@.take(i as int)),
            decreases sizes.len() - i,
        {
            proof {
                assert(sizes@.take(i + 1).drop_last() =~= sizes@.take(i as int));
                lemma_can_total_prefix(sizes@, i + 1);
            }
            acc.add_assign(sizes[i]);
            i = i + 1;
        }
        assert(sizes@.take(i as int) =~= sizes@);
        acc
    }

    /// The sum of `sizes`, or `None` where a sum on the way is no `u16`.
    pub fn checked_sum(sizes: &Vec<Size>) -> (res: Option<Size>)
        ensures
            res == if can_total(sizes@) {
                Some(size_total(sizes@))
            } else {
                None
            },
    {
        let mut acc = Size::Fixed(0);
        let mut i: usize = 0;
        while i < sizes.len()
            invariant
                0 <= i <= sizes.len(),
                can_total(sizes@.take(i as int)),
                acc == size_total(sizes@.take(i as int)),
            decreases sizes.len() - i,
        {
            assert(sizes@.take(i + 1).drop_last() =~= sizes@.take(i as int));
            match acc.checked_add(sizes[i]) {
                Some(sum) => {
                    acc = sum;
                },
                None => {
                    proof {
                        if can_total(sizes@) {
                            lemma_can_total_prefix(sizes@, i + 1);
                        }
                    }
                    return None;
                },
            }
            i = i + 1;
        }
        assert(sizes@.take(i as int) =~= sizes@);
        Some(acc)
    }

    /// Whether this size is below `other`.
    pub fn below(self, other: Size) -> (res: bool)
        ensures
            res == (size_order(self, other) == Ordering::Less),
    {
        self < other
    }
}

/// What can be added up whole can be added up to any point.
pub proof fn lemma_can_total_prefix(sizes: Seq<Size>, k: int)
    requires
        can_total(sizes),
        0 <= k <= sizes.len(),
    ensures
        can_total(sizes.take(k)),
    decreases sizes.len(),
{
    if k < sizes.len() {
        lemma_can_total_prefix(sizes.drop_last(), k);
        assert(sizes.drop_last().take(k) =~= sizes.take(k));
    } else {
        assert(sizes.take(k) =~= sizes);
    }
}

} // verus!
