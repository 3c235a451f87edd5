//! The list of open connections of a server that polls them in turn.
//!
//! After a pass over the connections, those that finished are removed by
//! index. Removing from the highest index down keeps the lower indices
//! valid, so the connections left are exactly the others, in their order.
use vstd::prelude::*;

verus! {

/// The elements of `s` whose indices are not in `removed`, in order.
pub open spec fn without<T>(s: Seq<T>, removed: Set<int>) -> Seq<T>
    decreases s.len(),
{
    if s.len() == 0 {
        s
    } else {
        let rest = without(s.drop_last(), removed);
        if removed.contains(s.len() - 1) {
            rest
        } else {
            rest.push(s.last())
        }
    }
}

/// The indices listed in `indices`.
pub open spec fn index_set(indices: Seq<usize>) -> Set<int> {
    Set::new(|k: int| exists|i: int| 0 <= i < indices.len() && indices[i] as int == k)
}

/// Removing nothing below the length leaves a sequence as it is.
proof fn lemma_without_nothing<T>(s: Seq<T>, removed: Set<int>)
    requires
        forall|k: int| removed.contains(k) ==> k >= s.len(),
    ensures
        without(s, removed) == s,
    decreases s.len(),
{
    if s.len() > 0 {
        lemma_without_nothing(s.drop_last(), removed);
        assert(s.drop_last().push(s.last()) =~= s);
    }
}

/// Removing index `c` from what is left after removing only indices above
/// `c` is removing `c` along with them.
proof fn lemma_without_remove<T>(s: Seq<T>, removed: Set<int>, c: int)
    requires
        0 <= c < s.len(),
        forall|k: int| removed.contains(k) ==> k > c,
    ensures
        c < without(s, removed).len(),
        without(s, removed).remove(c) == without(s, removed.insert(c)),
    decreases s.len(),
{
    let last = s.len() - 1;
    let prefix = s.drop_last();
    if c == last {
        lemma_without_nothing(prefix, removed);
        lemma_without_nothing(prefix, removed.insert(c).remove(c));
        assert forall|k: int| removed.insert(c).contains(k) implies k >= prefix.len() by {}
        lemma_without_nothing(prefix, removed.insert(c));
        assert(prefix.push(s.last()).remove(c) =~= prefix);
    } else {
        lemma_without_remove(prefix, removed, c);
        if !removed.contains(last) {
            let rest = without(prefix, removed);
            assert(rest.push(s.last()).remove(c) =~= rest.remove(c).push(s.last()));
        }
    }
}

/// Removing no index keeps everything, and removing one index in range is
/// removing that one element.
pub proof fn lemma_without_one<T>(s: Seq<T>, i: int)
    requires
        0 <= i < s.len(),
    ensures
        without(s, Set::<int>::empty()) == s,
        without(s, Set::<int>::empty().insert(i)) == s.remove(i),
{
    lemma_without_nothing(s, Set::<int>::empty());
    lemma_without_remove(s, Set::<int>::empty(), i);
}

/// Removes the connections at the indices `completed` (ascending, each an
/// index of `connections`), keeping the others in their order.
pub fn remove_completed<T>(connections: &mut Vec<T>, completed: &Vec<usize>)
    requires
        forall|i: int, j: int| 0 <= i < j < completed.len() ==> completed[i] < completed[j],
        forall|i: int| 0 <= i < completed.len() ==> completed[i] < old(connections).len(),
    ensures
        final(connections)@ == without(old(connections)@, index_set(completed@)),
{
    let ghost original = connections@;
    let m = completed.len();
    proof {
        lemma_without_nothing(original, index_set(completed@.skip(m as int)));
    }
    let mut k = m;
    while k > 0
        invariant
            k <= m == completed.len(),
            forall|i: int, j: int| 0 <= i < j < completed.len() ==> completed[i] < completed[j],
            forall|i: int| 0 <= i < completed.len() ==> completed[i] < original.len(),
            connections@ == without(original, index_set(completed@.skip(k as int))),
        decreases k,
    {
        let c = completed[k - 1];
        let ghost tail = completed@.skip(k as int);
        let ghost tail1 = completed@.skip(k - 1);
        let ghost later = index_set(tail);
        proof {
            assert forall|x: int| later.contains(x) implies x > c by {
                let i = choose|i: int| 0 <= i < tail.len() && #[trigger] tail[i] as int == x;
                assert(tail[i] == completed[k + i]);
            }
            lemma_without_remove(original, later, c as int);
            assert(index_set(tail1) =~= later.insert(c as int)) by {
                assert forall|x: int| index_set(tail1).contains(x) implies later.insert(c as int).contains(x) by {
                    let i = choose|i: int| 0 <= i < tail1.len() && #[trigger] tail1[i] as int == x;
                    if i > 0 {
                        assert(tail[i - 1] == tail1[i]);
                    }
                }
                assert forall|x: int| later.insert(c as int).contains(x) implies index_set(tail1).contains(x) by {
                    if x == c {
                        assert(tail1[0] == c);
                    } else {
                        let i = choose|i: int| 0 <= i < tail.len() && #[trigger] tail[i] as int == x;
                        assert(tail1[i + 1] == tail[i]);
                    }
                }
            }
        }
        connections.remove(c);
        k = k - 1;
    }
    assert(completed@.skip(0) =~= completed@);
}

} // verus!
