use std::collections::HashSet;
use std::hash::Hash;
use vstd::prelude::*;
use vstd::std_specs::hash::builds_valid_hashers;
use vstd::std_specs::hash::obeys_key_model;

verus! {

/// `set` holds a copy of `item`.
pub open spec fn keeps<T: Clone>(set: Set<T>, item: T) -> bool {
    exists|k: T| #[trigger] set.contains(k) && cloned(item, k)
}

/// `k` is a copy of one of `items`.
pub open spec fn copied_from<T: Clone>(items: Seq<T>, k: T) -> bool {
    exists|i: int| 0 <= i < items.len() && cloned(#[trigger] items[i], k)
}

/// `set` holds a copy of every item of `items`, and nothing else.
pub open spec fn collects<T: Clone>(items: Seq<T>, set: Set<T>) -> bool {
    &&& forall|i: int| 0 <= i < items.len() ==> keeps(set, #[trigger] items[i])
    &&& forall|k: T| #[trigger] set.contains(k) ==> copied_from(items, k)
}

/// The set of the items of a list.
pub fn set<T: Clone + Hash + Eq + PartialEq>(strings: &[T]) -> (r: HashSet<T>)
    ensures
        obeys_key_model::<T>() ==> collects(strings@, r@),
{
    broadcast use vstd::std_specs::hash::group_hash_axioms;
    let mut out: HashSet<T> = HashSet::new();
    let mut i: usize = 0;
    while i < strings.len()
        invariant
            i <= strings@.len(),
            obeys_key_model::<T>() ==> collects(strings@.take(i as int), out@),
        decreases strings@.len() - i,
    {
        let item = strings[i].clone();
        let ghost before = out@;
        out.insert(item);
        proof {
            if obeys_key_model::<T>() {
                let now = strings@.take(i + 1);
                let then = strings@.take(i as int);
                assert(out@ == before.insert(item));
                assert forall|j: int| 0 <= j < now.len() implies keeps(out@, #[trigger] now[j]) by {
                    if j < i {
                        assert(then[j] == now[j]);
                        assert(keeps(before, then[j]));
                        let k = choose|k: T| #[trigger] before.contains(k) && cloned(then[j], k);
                        assert(out@.contains(k));
                    } else {
                        assert(out@.contains(item));
                    }
                }
                assert forall|k: T| #[trigger] out@.contains(k) implies copied_from(now, k) by {
                    if before.contains(k) {
                        assert(copied_from(then, k));
                        let j = choose|j: int| 0 <= j < then.len() && cloned(#[trigger] then[j], k);
                        assert(then[j] == now[j]);
                    } else {
                        assert(k == item);
                        assert(cloned(now[i as int], k));
                    }
                }
            }
        }
        i = i + 1;
    }
    proof {
        assert(strings@.take(i as int) == strings@);
    }
    out
}

} // verus!
