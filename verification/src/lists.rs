//! Lists of positions: what holds of their beginnings, and of a list in
//! which nothing occurs twice once an item is added or taken out.

use vstd::prelude::*;
use crate::cell::CellPosition;

verus! {

/// The first `i + 1` items of a sequence are its first `i` items and the item
/// at `i`, which is new among them where nothing occurs twice.
pub proof fn lemma_take_step(s: Seq<CellPosition>, i: int)
    requires
        0 <= i < s.len(),
    ensures
        forall|p: CellPosition| #[trigger]
            s.take(i + 1).contains(p) <==> (s.take(i).contains(p) || p == s[i]),
        s.no_duplicates() ==> !s.take(i).contains(s[i]),
{
    let t0 = s.take(i);
    let t1 = s.take(i + 1);
    assert forall|p: CellPosition| #[trigger] t1.contains(p) <==> (t0.contains(p) || p == s[i]) by {
        if t1.contains(p) {
            let j = choose|j: int| 0 <= j < t1.len() && t1[j] == p;
            if j < i {
                assert(t0[j] == p);
            }
        }
        if t0.contains(p) {
            let j = choose|j: int| 0 <= j < t0.len() && t0[j] == p;
            assert(t1[j] == p);
        }
        if p == s[i] {
            assert(t1[i] == p);
        }
    }
    if s.no_duplicates() && t0.contains(s[i]) {
        let j = choose|j: int| 0 <= j < t0.len() && t0[j] == s[i];
        assert(s[j] == s[i]);
    }
}

/// The first no items of a sequence hold nothing, and its first `len` items
/// are the sequence.
pub proof fn lemma_take_ends(s: Seq<CellPosition>)
    ensures
        forall|p: CellPosition| !(#[trigger] s.take(0).contains(p)),
        s.take(0).to_set() == Set::<CellPosition>::empty(),
        s.take(s.len() as int) == s,
{
    assert(s.take(s.len() as int) =~= s);
    assert(s.take(0).to_set() =~= Set::<CellPosition>::empty());
}

/// An item that a sequence without repeats does not hold can be added at its
/// end: the longer sequence has no repeats either, and holds that item and
/// what the sequence held.
pub proof fn lemma_push_fresh(s: Seq<CellPosition>, item: CellPosition)
    requires
        s.no_duplicates(),
        !s.contains(item),
    ensures
        s.push(item).no_duplicates(),
        forall|p: CellPosition| #[trigger]
            s.push(item).contains(p) <==> (s.contains(p) || p == item),
        s.push(item).to_set() == s.to_set().insert(item),
{
    let t = s.push(item);
    assert forall|p: CellPosition| #[trigger] t.contains(p) <==> (s.contains(p) || p == item) by {
        if t.contains(p) {
            let j = choose|j: int| 0 <= j < t.len() && t[j] == p;
            if j < s.len() {
                assert(s[j] == p);
            }
        }
        if s.contains(p) {
            let j = choose|j: int| 0 <= j < s.len() && s[j] == p;
            assert(t[j] == p);
        }
        if p == item {
            assert(t[s.len() as int] == p);
        }
    }
    assert forall|a: int, b: int| 0 <= a < t.len() && 0 <= b < t.len() && a != b implies t[a]
        != t[b] by {
        if a < s.len() {
            assert(s.contains(s[a]));
        }
        if b < s.len() {
            assert(s.contains(s[b]));
        }
    }
    assert(t.to_set() =~= s.to_set().insert(item));
}

/// Taking the item at `i` out of a sequence without repeats, by moving the
/// last item into its place, leaves the other items, each once.
pub proof fn lemma_swap_remove(s: Seq<CellPosition>, i: int)
    requires
        0 <= i < s.len(),
        s.no_duplicates(),
    ensures
        s.update(i, s.last()).drop_last().no_duplicates(),
        forall|p: CellPosition| #[trigger]
            s.update(i, s.last()).drop_last().contains(p) <==> (s.contains(p) && p != s[i]),
{
    let t = s.update(i, s.last()).drop_last();
    let last = s.len() - 1;
    assert forall|p: CellPosition| #[trigger] t.contains(p) <==> (s.contains(p) && p != s[i]) by {
        if t.contains(p) {
            let j = choose|j: int| 0 <= j < t.len() && t[j] == p;
            if j == i {
                assert(s[last] == p);
            } else {
                assert(s[j] == p);
            }
        }
        if s.contains(p) && p != s[i] {
            let j = choose|j: int| 0 <= j < s.len() && s[j] == p;
            if j == last {
                assert(t[i] == p);
            } else {
                assert(t[j] == p);
            }
        }
    }
}

} // verus!
