use vstd::prelude::*;

verus! {

/// Items that are ordered by a pair of integers: by the first part, then by
/// the second.
pub trait Keyed {
    /// The pair by which the item is ordered.
    spec fn key_of(&self) -> (int, int);

    /// The pair by which the item is ordered.
    fn key(&self) -> (k: (i128, i128))
        ensures
            k.0 == self.key_of().0,
            k.1 == self.key_of().1,
    ;
}

/// The order of keys: by the first part, then by the second.
pub open spec fn key_le(a: (int, int), b: (int, int)) -> bool {
    a.0 < b.0 || (a.0 == b.0 && a.1 <= b.1)
}

/// Selects the items with the given key.
pub open spec fn keyed_as<T: Keyed>(k: (int, int)) -> spec_fn(T) -> bool {
    |x: T| x.key_of() == k
}

/// No item stands before one with a smaller key.
pub open spec fn in_key_order<T: Keyed>(s: Seq<T>) -> bool {
    forall|i: int, j: int| 0 <= i < j < s.len() ==> key_le(#[trigger] s[i].key_of(), #[trigger] s[j].key_of())
}

/// `sorted` holds the items of `pool` in key order, and items with the same
/// key stand in the order they had in `pool`.
pub open spec fn is_stable_sort<T: Keyed>(sorted: Seq<T>, pool: Seq<T>) -> bool {
    &&& sorted.len() == pool.len()
    &&& in_key_order(sorted)
    &&& forall|k: (int, int)| #[trigger] sorted.filter(keyed_as(k)) == pool.filter(keyed_as(k))
}

/// Orders the items with `slice::sort_by_key` on their keys. That sort is
/// stable: afterwards the items stand in key order, and for every key the
/// items that carry it are the same, in the same order, as before.
#[verifier::external_body]
pub(crate) fn sort_by_key_stable<T: Keyed>(items: &mut Vec<T>)
    ensures
        is_stable_sort(final(items)@, old(items)@),
{
    items.sort_by_key(|x| x.key());
}

} // verus!
