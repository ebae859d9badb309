//! A min priority queue whose entries are found again by their identity.
//!
//! Resource records that need attention are kept in a binary min-heap ordered
//! by the instant at which they need attention. Records can arrive again at any
//! time, wherever they stand in the queue: an item whose identity is already
//! queued replaces the queued one, which is then moved up or down the heap.
use std::cmp::Ordering;
use std::rc::Rc;
use vstd::prelude::*;
use vstd::multiset::Multiset;

verus! {

broadcast use vstd::seq_lib::group_to_multiset_ensures, vstd::multiset::group_multiset_axioms;

/// Orders two attention instants.
pub open spec fn attention_ordering(a: int, b: int) -> Ordering {
    if a < b {
        Ordering::Less
    } else if a == b {
        Ordering::Equal
    } else {
        Ordering::Greater
    }
}

/// Items that can be kept in an [`IndexMinPQ`].
///
/// An item has an identity (what tells two items apart: two items with the
/// same identity are two versions of the same entry) and an instant at which
/// it needs attention (what orders the queue).
pub trait CompareAttention: Sized {
    /// What tells two items apart.
    type Identity;

    /// The instant at which this item needs attention.
    spec fn attention(&self) -> int;

    /// The identity of this item.
    spec fn identity(&self) -> Self::Identity;

    /// Compares the attention instants of two items.
    fn cmp_attention(&self, other: &Self) -> (o: Ordering)
        ensures
            o == attention_ordering(self.attention(), other.attention()),
    ;

    /// Tells whether two items have the same identity.
    fn same_identity(&self, other: &Self) -> (b: bool)
        ensures
            b == (self.identity() == other.identity()),
    ;
}

/// The position of the parent of the node at position `i` of a binary heap.
pub open spec fn parent_of(i: int) -> int {
    (i - 1) / 2
}

/// Every node of the heap needs attention no earlier than its parent.
pub open spec fn heap_ordered<T: CompareAttention>(s: Seq<T>) -> bool {
    forall|i: int| #![trigger s[i]] 0 < i < s.len() ==> s[parent_of(i)].attention() <= s[i].attention()
}

/// No two items of the sequence share an identity.
pub open spec fn unique_identities<T: CompareAttention>(s: Seq<T>) -> bool {
    forall|i: int, j: int|
        #![trigger s[i], s[j]]
        0 <= i < s.len() && 0 <= j < s.len() && i != j ==> s[i].identity() != s[j].identity()
}

/// No two entries of the multiset share an identity, and each entry is there once.
pub open spec fn distinct_identities<T: CompareAttention>(m: Multiset<T>) -> bool {
    forall|x: T, y: T|
        #![trigger m.count(x), m.count(y)]
        m.contains(x) && m.contains(y) && x.identity() == y.identity() ==> x == y && m.count(x) == 1
}

/// `x` is in `m` and no entry of `m` needs attention before it.
pub open spec fn is_min_attention<T: CompareAttention>(x: T, m: Multiset<T>) -> bool {
    &&& m.contains(x)
    &&& forall|y: T| #[trigger] m.contains(y) ==> x.attention() <= y.attention()
}

/// Some entry of `m` has identity `id`.
pub open spec fn holds_identity<T: CompareAttention>(m: Multiset<T>, id: T::Identity) -> bool {
    exists|y: T| #[trigger] m.contains(y) && y.identity() == id
}

/// The entry of `m` with identity `id`, where there is one.
pub open spec fn entry_with_identity<T: CompareAttention>(m: Multiset<T>, id: T::Identity) -> T {
    choose|y: T| #[trigger] m.contains(y) && y.identity() == id
}

/// The contents of a queue after pushing `item` into a queue with contents `m`:
/// `item` replaces the entry with the same identity, if there is one.
pub open spec fn pushed<T: CompareAttention>(m: Multiset<T>, item: T) -> Multiset<T> {
    if holds_identity(m, item.identity()) {
        m.remove(entry_with_identity(m, item.identity())).insert(item)
    } else {
        m.insert(item)
    }
}

/// The sequence `s` with the items at `i` and `j` exchanged.
pub open spec fn swapped<T>(s: Seq<T>, i: int, j: int) -> Seq<T> {
    s.update(i, s[j]).update(j, s[i])
}

/// Exchanging two items keeps the same items.
proof fn lemma_swap_keeps_items<T>(s: Seq<T>, i: int, j: int)
    requires
        0 <= i < s.len(),
        0 <= j < s.len(),
    ensures
        swapped(s, i, j).to_multiset() == s.to_multiset(),
        swapped(s, i, j).len() == s.len(),
{
    let s1 = s.update(i, s[j]);
    assert(s1.to_multiset() == s.to_multiset().insert(s[j]).remove(s[i]));
    assert(swapped(s, i, j).to_multiset() == s1.to_multiset().insert(s[i]).remove(s1[j]));
    if i == j {
        assert(swapped(s, i, j) =~= s);
    } else {
        assert(s1[j] == s[j]);
        assert(swapped(s, i, j).to_multiset() =~= s.to_multiset());
    }
}

/// Exchanging two items keeps identities unique.
proof fn lemma_swap_keeps_unique<T: CompareAttention>(s: Seq<T>, i: int, j: int)
    requires
        0 <= i < s.len(),
        0 <= j < s.len(),
        unique_identities(s),
    ensures
        unique_identities(swapped(s, i, j)),
{
    let t = swapped(s, i, j);
    assert forall|a: int, b: int|
        0 <= a < t.len() && 0 <= b < t.len() && a != b implies #[trigger] t[a].identity()
        != #[trigger] t[b].identity() by {
        let sa = if a == i { j } else if a == j { i } else { a };
        let sb = if b == i { j } else if b == j { i } else { b };
        assert(t[a] == s[sa]);
        assert(t[b] == s[sb]);
        assert(s[sa].identity() != s[sb].identity());
    }
}

/// In a heap, the first item needs attention no later than any other.
proof fn lemma_heap_root_is_min<T: CompareAttention>(s: Seq<T>, i: int)
    requires
        heap_ordered(s),
        0 <= i < s.len(),
    ensures
        s[0].attention() <= s[i].attention(),
    decreases i,
{
    if i > 0 {
        lemma_heap_root_is_min(s, parent_of(i));
        assert(s[parent_of(i)].attention() <= s[i].attention());
    }
}

/// The first item of a non-empty heap is a minimum of its contents.
proof fn lemma_heap_first_is_min<T: CompareAttention>(s: Seq<T>)
    requires
        heap_ordered(s),
        s.len() > 0,
    ensures
        is_min_attention(s[0], s.to_multiset()),
{
    assert(s.contains(s[0]));
    assert forall|y: T| #[trigger] s.to_multiset().contains(y) implies s[0].attention()
        <= y.attention() by {
        assert(s.contains(y));
        let k = choose|k: int| 0 <= k < s.len() && s[k] == y;
        lemma_heap_root_is_min(s, k);
    }
}

/// A sequence with unique identities makes a multiset with distinct identities.
proof fn lemma_unique_distinct<T: CompareAttention>(s: Seq<T>)
    requires
        unique_identities(s),
    ensures
        distinct_identities(s.to_multiset()),
    decreases s.len(),
{
    if s.len() > 0 {
        let t = s.drop_last();
        assert(unique_identities(t));
        lemma_unique_distinct(t);
        assert(s =~= t.push(s.last()));
        assert(s.to_multiset() =~= t.to_multiset().insert(s.last()));
        assert forall|y: T| #[trigger] t.to_multiset().contains(y) implies y.identity()
            != s.last().identity() by {
            assert(t.contains(y));
            let k = choose|k: int| 0 <= k < t.len() && t[k] == y;
            assert(s[k] == y);
        }
    }
}

/// The heap is ordered except that the item at `k` may need attention before
/// its parent; the parent of `k` needs attention no later than the children of `k`.
pub open spec fn heap_except_up<T: CompareAttention>(s: Seq<T>, k: int) -> bool {
    &&& forall|i: int|
        #![trigger s[i]]
        0 < i < s.len() && i != k ==> s[parent_of(i)].attention() <= s[i].attention()
    &&& k > 0 ==> forall|c: int|
        #![trigger s[c]]
        0 < c < s.len() && parent_of(c) == k ==> s[parent_of(k)].attention() <= s[c].attention()
}

/// The heap is ordered except that the item at `k` may need attention after its
/// children; the parent of `k` needs attention no later than the children of `k`.
pub open spec fn heap_except_down<T: CompareAttention>(s: Seq<T>, k: int) -> bool {
    &&& forall|i: int|
        #![trigger s[i]]
        0 < i < s.len() && parent_of(i) != k ==> s[parent_of(i)].attention() <= s[i].attention()
    &&& k > 0 ==> forall|c: int|
        #![trigger s[c]]
        0 < c < s.len() && parent_of(c) == k ==> s[parent_of(k)].attention() <= s[c].attention()
}

/// Moving an item that needs attention before its parent one level up.
proof fn lemma_swim_step<T: CompareAttention>(s: Seq<T>, k: int)
    requires
        0 < k < s.len(),
        heap_except_up(s, k),
        s[k].attention() < s[parent_of(k)].attention(),
    ensures
        heap_except_up(swapped(s, k, parent_of(k)), parent_of(k)),
{
    let p = parent_of(k);
    let t = swapped(s, k, p);
    assert(t[p] == s[k] && t[k] == s[p]);
    assert forall|i: int| 0 < i < t.len() && i != p implies t[parent_of(i)].attention()
        <= #[trigger] t[i].attention() by {
        if i == k {
        } else if parent_of(i) == k {
            assert(t[i] == s[i]);
        } else if parent_of(i) == p {
            assert(t[i] == s[i]);
            assert(s[p].attention() <= s[i].attention());
        } else {
            assert(t[i] == s[i]);
            assert(t[parent_of(i)] == s[parent_of(i)]);
        }
    }
    if p > 0 {
        assert(s[parent_of(p)].attention() <= s[p].attention());
        assert forall|c: int| 0 < c < t.len() && parent_of(c) == p implies t[parent_of(p)].attention()
            <= #[trigger] t[c].attention() by {
            assert(t[parent_of(p)] == s[parent_of(p)]);
            if c != k {
                assert(t[c] == s[c]);
                assert(s[p].attention() <= s[c].attention());
            }
        }
    }
}

/// Moving an item that needs attention after its earliest child one level down.
proof fn lemma_sink_step<T: CompareAttention>(s: Seq<T>, k: int, m: int)
    requires
        0 <= k < m < s.len(),
        parent_of(m) == k,
        heap_except_down(s, k),
        s[m].attention() < s[k].attention(),
        forall|c: int|
            #![trigger s[c]]
            0 < c < s.len() && parent_of(c) == k ==> s[m].attention() <= s[c].attention(),
    ensures
        heap_except_down(swapped(s, k, m), m),
{
    let t = swapped(s, k, m);
    assert(t[k] == s[m] && t[m] == s[k]);
    assert forall|i: int| 0 < i < t.len() && parent_of(i) != m implies t[parent_of(i)].attention()
        <= #[trigger] t[i].attention() by {
        if i == k {
            assert(t[parent_of(k)] == s[parent_of(k)]);
            assert(s[parent_of(k)].attention() <= s[m].attention());
        } else if i == m {
        } else if parent_of(i) == k {
            assert(t[i] == s[i]);
        } else {
            assert(t[i] == s[i]);
            assert(t[parent_of(i)] == s[parent_of(i)]);
        }
    }
    assert forall|c: int| 0 < c < t.len() && parent_of(c) == m implies t[parent_of(m)].attention()
        <= #[trigger] t[c].attention() by {
        assert(t[c] == s[c]);
        assert(s[parent_of(c)].attention() <= s[c].attention());
    }
}

/// Replacing the item at `k` by a new version with the same identity.
proof fn lemma_replace<T: CompareAttention>(s: Seq<T>, pos: usize, item: T)
    requires
        heap_ordered(s),
        unique_identities(s),
        0 <= pos < s.len(),
        s[pos as int].identity() == item.identity(),
    ensures
        unique_identities(s.update(pos as int, item)),
        s.update(pos as int, item).to_multiset() == pushed(s.to_multiset(), item),
        s.update(pos as int, item).len() == s.len(),
        item.attention() <= s[pos as int].attention() ==> heap_except_up(s.update(pos as int, item), pos as int),
        item.attention() >= s[pos as int].attention() ==> heap_except_down(s.update(pos as int, item), pos as int),
        item.attention() == s[pos as int].attention() ==> heap_ordered(s.update(pos as int, item)),
{
    let k = pos as int;
    let t = s.update(k, item);
    let m = s.to_multiset();
    assert(unique_identities(t)) by {
        assert forall|a: int, b: int|
            0 <= a < t.len() && 0 <= b < t.len() && a != b implies #[trigger] t[a].identity()
            != #[trigger] t[b].identity() by {
            assert(s[a].identity() != s[b].identity());
        }
    }
    assert(s.contains(s[k]));
    assert(m.contains(s[k]));
    assert(holds_identity(m, item.identity()));
    let y = entry_with_identity(m, item.identity());
    lemma_unique_distinct(s);
    assert(y == s[k]);
    assert(t.to_multiset() =~= m.insert(item).remove(s[k]));
    assert(t.to_multiset() =~= m.remove(s[k]).insert(item));
    if item.attention() <= s[k].attention() {
        assert forall|i: int| 0 < i < t.len() && i != k implies t[parent_of(i)].attention()
            <= #[trigger] t[i].attention() by {
            assert(s[parent_of(i)].attention() <= s[i].attention());
        }
        if k > 0 {
            assert forall|c: int| 0 < c < t.len() && parent_of(c) == k implies t[parent_of(
                k,
            )].attention() <= #[trigger] t[c].attention() by {
                assert(s[parent_of(k)].attention() <= s[k].attention());
                assert(s[k].attention() <= s[c].attention());
            }
        }
    }
    if item.attention() >= s[k].attention() {
        assert forall|i: int| 0 < i < t.len() && parent_of(i) != k implies t[parent_of(
            i,
        )].attention() <= #[trigger] t[i].attention() by {
            assert(s[parent_of(i)].attention() <= s[i].attention());
        }
        if k > 0 {
            assert forall|c: int| 0 < c < t.len() && parent_of(c) == k implies t[parent_of(
                k,
            )].attention() <= #[trigger] t[c].attention() by {
                assert(s[parent_of(k)].attention() <= s[k].attention());
                assert(s[k].attention() <= s[c].attention());
            }
        }
    }
    if item.attention() == s[k].attention() {
        assert forall|i: int| 0 < i < t.len() implies t[parent_of(i)].attention()
            <= #[trigger] t[i].attention() by {
            assert(s[parent_of(i)].attention() <= s[i].attention());
        }
    }
}

/// Appending an item whose identity is not in the heap.
proof fn lemma_append<T: CompareAttention>(s: Seq<T>, item: T)
    requires
        heap_ordered(s),
        unique_identities(s),
        forall|i: int| 0 <= i < s.len() ==> #[trigger] s[i].identity() != item.identity(),
    ensures
        unique_identities(s.push(item)),
        heap_except_up(s.push(item), s.len() as int),
        s.push(item).to_multiset() == pushed(s.to_multiset(), item),
        s.push(item).len() == s.len() + 1,
{
    let t = s.push(item);
    assert(unique_identities(t)) by {
        assert forall|a: int, b: int|
            0 <= a < t.len() && 0 <= b < t.len() && a != b implies #[trigger] t[a].identity()
            != #[trigger] t[b].identity() by {
            if a < s.len() && b < s.len() {
                assert(s[a].identity() != s[b].identity());
            } else if a < s.len() {
                assert(s[a].identity() != item.identity());
            } else {
                assert(s[b].identity() != item.identity());
            }
        }
    }
    assert forall|i: int| 0 < i < t.len() && i != s.len() implies t[parent_of(i)].attention()
        <= #[trigger] t[i].attention() by {
        assert(s[parent_of(i)].attention() <= s[i].attention());
    }
    assert(!holds_identity(s.to_multiset(), item.identity())) by {
        if holds_identity(s.to_multiset(), item.identity()) {
            let y = entry_with_identity(s.to_multiset(), item.identity());
            assert(s.contains(y));
            let k = choose|k: int| 0 <= k < s.len() && s[k] == y;
            assert(s[k].identity() != item.identity());
        }
    }
}

/// Moving the last item to the front after taking out the first one.
proof fn lemma_take_first<T: CompareAttention>(s: Seq<T>)
    requires
        heap_ordered(s),
        unique_identities(s),
        s.len() > 0,
    ensures
        ({
            let r = swapped(s, 0, s.len() - 1).drop_last();
            &&& r.len() > 0 ==> heap_except_down(r, 0)
            &&& unique_identities(r)
            &&& r.to_multiset() == s.to_multiset().remove(s[0])
            &&& swapped(s, 0, s.len() - 1).last() == s[0]
            &&& is_min_attention(s[0], s.to_multiset())
        }),
{
    let last = s.len() - 1;
    let t = swapped(s, 0, last);
    let r = t.drop_last();
    lemma_swap_keeps_items(s, 0, last);
    lemma_swap_keeps_unique(s, 0, last);
    lemma_heap_first_is_min(s);
    assert(t =~= r.push(s[0]));
    assert(t.to_multiset() =~= r.to_multiset().insert(s[0]));
    assert(r.to_multiset() =~= s.to_multiset().remove(s[0]));
    assert forall|a: int, b: int|
        0 <= a < r.len() && 0 <= b < r.len() && a != b implies #[trigger] r[a].identity()
        != #[trigger] r[b].identity() by {
        assert(t[a].identity() != t[b].identity());
    }
    if r.len() > 0 {
        assert forall|i: int| 0 < i < r.len() && parent_of(i) != 0 implies r[parent_of(
            i,
        )].attention() <= #[trigger] r[i].attention() by {
            assert(r[i] == s[i]);
            assert(r[parent_of(i)] == s[parent_of(i)]);
            assert(s[parent_of(i)].attention() <= s[i].attention());
        }
    }
}

/// The items of a sequence in non-decreasing order of attention.
pub open spec fn sorted_by_attention<T: CompareAttention>(s: Seq<T>) -> bool {
    forall|i: int, j: int|
        #![trigger s[i], s[j]]
        0 <= i <= j < s.len() ==> s[i].attention() <= s[j].attention()
}

/// The entries of `m`, by identity.
pub open spec fn identity_map<T: CompareAttention>(m: Multiset<T>) -> Map<T::Identity, T> {
    Map::new(|id: T::Identity| holds_identity(m, id), |id: T::Identity| entry_with_identity(m, id))
}

/// An entry of a multiset with distinct identities is found by its identity.
pub proof fn lemma_identity_map_entry<T: CompareAttention>(m: Multiset<T>, x: T)
    requires
        distinct_identities(m),
        m.contains(x),
    ensures
        identity_map(m).contains_key(x.identity()),
        identity_map(m)[x.identity()] == x,
{
    assert(holds_identity(m, x.identity()));
    let y = entry_with_identity(m, x.identity());
    assert(m.count(x) > 0 && m.count(y) > 0);
}

/// Pushing an item into a queue replaces the entry with the same identity, if
/// there is one, and adds the item otherwise.
pub proof fn lemma_identity_map_pushed<T: CompareAttention>(m: Multiset<T>, item: T)
    requires
        distinct_identities(m),
    ensures
        distinct_identities(pushed(m, item)),
        identity_map(pushed(m, item)) == identity_map(m).insert(item.identity(), item),
        pushed(m, item).contains(item),
        forall|x: T| #[trigger]
            pushed(m, item).contains(x) ==> x == item || (m.contains(x) && x.identity()
                != item.identity()),
        holds_identity(m, item.identity()) ==> pushed(m, item).len() == m.len(),
        !holds_identity(m, item.identity()) ==> pushed(m, item).len() == m.len() + 1,
{
    let p = pushed(m, item);
    let old_entry = entry_with_identity(m, item.identity());
    if holds_identity(m, item.identity()) {
        assert(m.count(old_entry) == 1);
    }
    assert forall|x: T| #[trigger] p.contains(x) implies x == item || (m.contains(x) && x.identity()
        != item.identity()) by {
        if x != item && m.contains(x) && x.identity() == item.identity() {
            assert(m.count(x) > 0 && m.count(old_entry) > 0);
        }
    }
    assert(distinct_identities(p)) by {
        assert forall|x: T, y: T|
            #![trigger p.count(x), p.count(y)]
            p.contains(x) && p.contains(y) && x.identity() == y.identity() implies x == y
            && p.count(x) == 1 by {
            assert(p.contains(x) && p.contains(y));
            if x != item {
                assert(m.count(x) > 0);
            }
            if y != item {
                assert(m.count(y) > 0);
            }
            if x != item && y != item {
                assert(m.count(x) > 0 && m.count(y) > 0);
            }
            if x == item && !holds_identity(m, item.identity()) {
                assert(m.count(item) == 0) by {
                    if m.count(item) > 0 {
                        assert(m.contains(item) && item.identity() == item.identity());
                    }
                }
            }
        }
    }
    assert(identity_map(p) =~= identity_map(m).insert(item.identity(), item)) by {
        assert forall|id: T::Identity| #[trigger] identity_map(p).contains_key(id) <==> identity_map(
            m,
        ).insert(item.identity(), item).contains_key(id) by {
            if id != item.identity() {
                if holds_identity(m, id) {
                    let y = entry_with_identity(m, id);
                    assert(p.count(y) > 0);
                    assert(p.contains(y) && y.identity() == id);
                }
                if holds_identity(p, id) {
                    let y = entry_with_identity(p, id);
                    assert(m.contains(y) && y.identity() == id);
                }
            } else {
                assert(p.contains(item) && item.identity() == id);
            }
        }
        assert forall|id: T::Identity| #[trigger] identity_map(p).contains_key(id) implies identity_map(
            p,
        )[id] == identity_map(m).insert(item.identity(), item)[id] by {
            let y = entry_with_identity(p, id);
            if id == item.identity() {
                assert(p.count(y) > 0 && p.count(item) > 0);
            } else {
                assert(m.contains(y));
                let z = entry_with_identity(m, id);
                assert(m.count(y) > 0 && m.count(z) > 0);
            }
        }
    }
}

/// Taking an entry out of a queue takes its identity out.
pub proof fn lemma_identity_map_removed<T: CompareAttention>(m: Multiset<T>, x: T)
    requires
        distinct_identities(m),
        m.contains(x),
    ensures
        distinct_identities(m.remove(x)),
        identity_map(m.remove(x)) == identity_map(m).remove(x.identity()),
        m.remove(x).len() == m.len() - 1,
{
    let r = m.remove(x);
    assert(m.count(x) == 1);
    assert forall|y: T| #[trigger] r.contains(y) implies m.contains(y) && y.identity() != x.identity() by {
        if y.identity() == x.identity() {
            assert(m.count(y) > 0 && m.count(x) > 0);
        }
    }
    assert(distinct_identities(r)) by {
        assert forall|a: T, b: T|
            #![trigger r.count(a), r.count(b)]
            r.contains(a) && r.contains(b) && a.identity() == b.identity() implies a == b
            && r.count(a) == 1 by {
            assert(r.contains(a) && r.contains(b));
            assert(m.count(a) > 0 && m.count(b) > 0);
        }
    }
    assert(identity_map(r) =~= identity_map(m).remove(x.identity())) by {
        assert forall|id: T::Identity| #[trigger] identity_map(r).contains_key(id) <==> identity_map(
            m,
        ).remove(x.identity()).contains_key(id) by {
            if holds_identity(r, id) {
                let y = entry_with_identity(r, id);
                assert(r.contains(y));
                assert(m.contains(y) && y.identity() == id);
            }
            if holds_identity(m, id) && id != x.identity() {
                let y = entry_with_identity(m, id);
                assert(r.count(y) > 0);
                assert(r.contains(y) && y.identity() == id);
            }
        }
        assert forall|id: T::Identity| #[trigger] identity_map(r).contains_key(id) implies identity_map(
            r,
        )[id] == identity_map(m)[id] by {
            let y = entry_with_identity(r, id);
            assert(r.contains(y));
            let z = entry_with_identity(m, id);
            assert(m.count(y) > 0 && m.count(z) > 0);
        }
    }
}

/// The identities of a queue are finite, as many as its entries when they are distinct.
pub proof fn lemma_identity_map_finite<T: CompareAttention>(m: Multiset<T>)
    ensures
        identity_map(m).dom().finite(),
        identity_map(m).dom() == m.dom().map(|x: T| x.identity()),
        m.len() == 0 ==> identity_map(m).dom().is_empty(),
{
    let f = |x: T| x.identity();
    assert(identity_map(m).dom() =~= m.dom().map(f)) by {
        assert forall|id: T::Identity| #[trigger] identity_map(m).dom().contains(id) implies m.dom().map(
            f,
        ).contains(id) by {
            let y = entry_with_identity(m, id);
            assert(m.dom().contains(y) && f(y) == id);
        }
        assert forall|id: T::Identity| #[trigger] m.dom().map(f).contains(id) implies identity_map(
            m,
        ).dom().contains(id) by {
            let y = choose|y: T| m.dom().contains(y) && f(y) == id;
            assert(m.contains(y));
        }
    }
    m.dom().lemma_map_finite(f);
    if m.len() == 0 {
        assert forall|id: T::Identity| !#[trigger] identity_map(m).dom().contains(id) by {
            if identity_map(m).dom().contains(id) {
                let y = entry_with_identity(m, id);
                assert(m.count(y) > 0);
            }
        }
    }
}

impl CompareAttention for i32 {
    type Identity = i32;

    open spec fn attention(&self) -> int {
        *self as int
    }

    open spec fn identity(&self) -> i32 {
        *self
    }

    fn cmp_attention(&self, other: &Self) -> (o: Ordering) {
        if *self < *other {
            Ordering::Less
        } else if *self == *other {
            Ordering::Equal
        } else {
            Ordering::Greater
        }
    }

    fn same_identity(&self, other: &Self) -> (b: bool) {
        *self == *other
    }
}

impl<T: CompareAttention> CompareAttention for Rc<T> {
    type Identity = T::Identity;

    open spec fn attention(&self) -> int {
        (**self).attention()
    }

    open spec fn identity(&self) -> T::Identity {
        (**self).identity()
    }

    fn cmp_attention(&self, other: &Self) -> (o: Ordering) {
        (**self).cmp_attention(&**other)
    }

    fn same_identity(&self, other: &Self) -> (b: bool) {
        (**self).same_identity(&**other)
    }
}

} // verus!

verus! {

/// Exchanges two items of a vector.
#[verifier::external_body]
fn vec_swap<T>(v: &mut Vec<T>, i: usize, j: usize)
    requires
        i < old(v)@.len(),
        j < old(v)@.len(),
    ensures
        final(v)@ == swapped(old(v)@, i as int, j as int),
{
    v.swap(i, j)
}

/// A min priority queue ordered by attention instant, in which an item can be
/// updated wherever it stands by pushing a new version with the same identity.
pub struct IndexMinPQ<T> {
    data: Vec<T>,
}

impl<T: CompareAttention> IndexMinPQ<T> {
    /// The items in the queue.
    pub closed spec fn contents(&self) -> Multiset<T> {
        self.data@.to_multiset()
    }

    /// The queue is a heap ordered by attention instant and holds no two
    /// items with the same identity.
    pub closed spec fn wf(&self) -> bool {
        &&& heap_ordered(self.data@)
        &&& unique_identities(self.data@)
    }

    /// In a well-formed queue, no two items share an identity.
    pub proof fn lemma_distinct_identities(&self)
        requires
            self.wf(),
        ensures
            distinct_identities(self.contents()),
    {
        lemma_unique_distinct(self.data@);
    }

    /// Empties the queue.
    pub fn clear(&mut self)
        ensures
            final(self).wf(),
            final(self).contents() =~= Multiset::<T>::empty(),
    {
        self.data.clear();
    }

    /// An empty queue.
    pub fn new() -> (pq: IndexMinPQ<T>)
        ensures
            pq.wf(),
            pq.contents() =~= Multiset::<T>::empty(),
    {
        IndexMinPQ { data: Vec::new() }
    }

    /// The number of items in the queue.
    pub fn len(&self) -> (n: usize)
        ensures
            n == self.contents().len(),
    {
        self.data.len()
    }

    /// Whether the queue holds no item.
    pub fn empty(&self) -> (b: bool)
        ensures
            b == (self.contents().len() == 0),
    {
        self.data.len() == 0
    }

    /// The position of the parent of the node at position `i`, if `i` is not the root.
    fn parent_idx(&self, i: usize) -> (p: Option<usize>)
        ensures
            i == 0 ==> p is None,
            i > 0 ==> p == Some(((i - 1) / 2) as usize),
    {
        if i == 0 {
            None
        } else {
            Some((i - 1) / 2)
        }
    }

    /// The position of the left child of the node at position `i`.
    fn left_child_idx(&self, i: usize) -> (c: usize)
        requires
            2 * i + 1 <= usize::MAX,
        ensures
            c == 2 * i + 1,
    {
        2 * i + 1
    }

    /// The position of the right child of the node at position `i`.
    fn right_child_idx(&self, i: usize) -> (c: usize)
        requires
            2 * i + 2 <= usize::MAX,
        ensures
            c == 2 * i + 2,
    {
        2 * i + 2
    }

    /// The position of the last item.
    fn last_idx(&self) -> (l: usize)
        requires
            self.data@.len() > 0,
        ensures
            l == self.data@.len() - 1,
    {
        self.data.len() - 1
    }



    /// Finds the position of the item with the identity of `item`.
    fn find(&self, item: &T) -> (r: Option<usize>)
        ensures
            r matches Some(k) ==> k < self.data@.len() && self.data@[k as int].identity()
                == item.identity(),
            r is None ==> forall|k: int|
                0 <= k < self.data@.len() ==> #[trigger] self.data@[k].identity()
                    != item.identity(),
    {
        let mut i: usize = 0;
        while i < self.data.len()
            invariant
                i <= self.data@.len(),
                forall|k: int| 0 <= k < i ==> #[trigger] self.data@[k].identity() != item.identity(),
            decreases self.data@.len() - i,
        {
            if self.data[i].same_identity(item) {
                return Some(i);
            }
            i = i + 1;
        }
        None
    }

    /// Pushes `item` into the queue. An item with the same identity that is
    /// already queued is replaced by `item`, which then moves to its new place.
    pub fn push(&mut self, item: T)
        requires
            old(self).wf(),
        ensures
            final(self).wf(),
            final(self).contents() == pushed(old(self).contents(), item),
    {
        match self.find(&item) {
            Some(index) => {
                // Item already in the list, this is an update
                proof {
                    lemma_replace(self.data@, index, item);
                }
                let order = Self::cmp(&item, &self.data[index]);
                self.data[index] = item;
                match order {
                    Ordering::Equal => {
                        // Nothing to do!
                    },
                    Ordering::Less => {
                        self.swim(index);
                    },
                    Ordering::Greater => {
                        self.sink(index);
                    },
                }
            },
            None => {
                // Not in the list, insert it
                proof {
                    lemma_append(self.data@, item);
                }
                self.data.push(item);
                let last_idx = self.last_idx();
                self.swim(last_idx);
            },
        }
    }

    /// The item at the root of the heap: the one that `peek` shows and `pop`
    /// takes out.
    pub closed spec fn top(&self) -> T {
        self.data@[0]
    }

    /// Takes out an item that needs attention no later than any other: the
    /// root of the heap, which `peek` shows.
    pub fn pop(&mut self) -> (r: Option<T>)
        requires
            old(self).wf(),
        ensures
            final(self).wf(),
            old(self).contents().len() > 0 ==> r == Some(old(self).top()),
            old(self).contents().len() == 0 ==> r is None && final(self).contents()
                == old(self).contents(),
            old(self).contents().len() > 0 ==> (r matches Some(x) && is_min_attention(
                x,
                old(self).contents(),
            ) && final(self).contents() == old(self).contents().remove(x)),
    {
        if self.data.len() == 0 {
            return None;
        }
        proof {
            lemma_take_first(self.data@);
        }
        let last_idx = self.last_idx();
        self.swap(0, last_idx);
        let item = self.data.pop();
        if self.data.len() != 0 {
            self.sink(0);
        }
        item
    }

    /// An item that needs attention no later than any other, left in the queue.
    pub fn peek(&self) -> (r: Option<&T>)
        requires
            self.wf(),
        ensures
            r is None <==> self.contents().len() == 0,
            r matches Some(x) ==> is_min_attention(*x, self.contents()) && *x == self.top(),
    {
        if self.data.len() == 0 {
            None
        } else {
            proof {
                lemma_heap_first_is_min(self.data@);
            }
            Some(&self.data[0])
        }
    }

    /// Empties the queue into a vector, in the order in which the items are popped.
    pub fn into_sorted_vec(self) -> (v: Vec<T>)
        requires
            self.wf(),
        ensures
            sorted_by_attention(v@),
            v@.to_multiset() == self.contents(),
    {
        let ghost all = self.contents();
        let mut pq = self;
        let mut ret: Vec<T> = Vec::new();
        while pq.len() != 0
            invariant
                pq.wf(),
                sorted_by_attention(ret@),
                ret@.to_multiset().add(pq.contents()) == all,
                forall|i: int, y: T|
                    0 <= i < ret@.len() && #[trigger] pq.contents().contains(y) ==> (
                    #[trigger] ret@[i]).attention() <= y.attention(),
            decreases pq.contents().len(),
        {
            let ghost before = pq.contents();
            if let Some(elem) = pq.pop() {
                proof {
                    assert forall|i: int| 0 <= i < ret@.len() implies (
                    #[trigger] ret@[i]).attention() <= elem.attention() by {
                        assert(before.contains(elem));
                    }
                    assert forall|y: T| #[trigger] pq.contents().contains(y) implies elem.attention()
                        <= y.attention() by {
                        assert(before.contains(y));
                    }
                    assert(ret@.push(elem).to_multiset() =~= ret@.to_multiset().insert(elem));
                    assert(ret@.to_multiset().insert(elem).add(pq.contents()) =~= ret@.to_multiset().add(before));
                }
                ret.push(elem);
            }
        }
        proof {
            assert(pq.contents() =~= Multiset::<T>::empty());
            assert(ret@.to_multiset().add(pq.contents()) =~= ret@.to_multiset());
        }
        ret
    }

    /// Whether `a` needs attention strictly before `b`.
    fn less(a: &T, b: &T) -> (r: bool)
        ensures
            r == (a.attention() < b.attention()),
    {
        match a.cmp_attention(b) {
            Ordering::Less => true,
            _ => false,
        }
    }

    /// Compares the attention instants of two items.
    fn cmp(item1: &T, item2: &T) -> (o: Ordering)
        ensures
            o == attention_ordering(item1.attention(), item2.attention()),
    {
        item1.cmp_attention(item2)
    }

    /// Moves the item at `idx` up until its parent needs attention no later than it.
    fn swim(&mut self, idx: usize)
        requires
            idx < old(self).data@.len(),
            heap_except_up(old(self).data@, idx as int),
            unique_identities(old(self).data@),
        ensures
            heap_ordered(final(self).data@),
            unique_identities(final(self).data@),
            final(self).data@.to_multiset() == old(self).data@.to_multiset(),
            final(self).data@.len() == old(self).data@.len(),
    {
        let ghost items = self.data@.to_multiset();
        let ghost n = self.data@.len();
        let mut idx = idx;
        loop
            invariant
                idx < self.data@.len(),
                self.data@.len() == n,
                heap_except_up(self.data@, idx as int),
                unique_identities(self.data@),
                self.data@.to_multiset() == items,
            ensures
                heap_ordered(self.data@),
            decreases idx,
        {
            match self.parent_idx(idx) {
                None => {
                    break;
                },
                Some(parent_idx) => {
                    if !Self::less(&self.data[idx], &self.data[parent_idx]) {
                        break;
                    }
                    proof {
                        lemma_swim_step(self.data@, idx as int);
                    }
                    self.swap(idx, parent_idx);
                    idx = parent_idx;
                },
            }
        }
    }

    /// Moves the item at `idx` down until no child needs attention before it.
    fn sink(&mut self, idx: usize)
        requires
            idx < old(self).data@.len(),
            heap_except_down(old(self).data@, idx as int),
            unique_identities(old(self).data@),
        ensures
            heap_ordered(final(self).data@),
            unique_identities(final(self).data@),
            final(self).data@.to_multiset() == old(self).data@.to_multiset(),
            final(self).data@.len() == old(self).data@.len(),
    {
        let ghost items = self.data@.to_multiset();
        let len = self.data.len();
        let last_idx = self.last_idx();
        let mut idx = idx;
        loop
            invariant
                idx < len,
                last_idx == len - 1,
                self.data@.len() == len,
                heap_except_down(self.data@, idx as int),
                unique_identities(self.data@),
                self.data@.to_multiset() == items,
            ensures
                heap_ordered(self.data@),
            decreases len - idx,
        {
            let mut smallest_idx = idx;
            if idx < len / 2 {
                let left_child_idx = self.left_child_idx(idx);
                if Self::less(&self.data[left_child_idx], &self.data[idx]) {
                    smallest_idx = left_child_idx;
                }
            }
            if len >= 1 && idx < (len - 1) / 2 {
                let right_child_idx = self.right_child_idx(idx);
                if Self::less(&self.data[right_child_idx], &self.data[idx]) && Self::less(
                    &self.data[right_child_idx],
                    &self.data[smallest_idx],
                ) {
                    smallest_idx = right_child_idx;
                }
            }
            if smallest_idx != idx {
                proof {
                    assert forall|c: int|
                        #![trigger self.data@[c]]
                        0 < c < self.data@.len() && parent_of(c) == idx implies self.data@[smallest_idx as int].attention()
                        <= self.data@[c].attention() by {
                        assert(c == 2 * idx + 1 || c == 2 * idx + 2);
                    }
                    lemma_sink_step(self.data@, idx as int, smallest_idx as int);
                }
                self.swap(idx, smallest_idx);
                idx = smallest_idx;
            } else {
                proof {
                    assert forall|i: int|
                        #![trigger self.data@[i]]
                        0 < i < self.data@.len() implies self.data@[parent_of(i)].attention()
                        <= self.data@[i].attention() by {
                        if parent_of(i) == idx {
                            assert(i == 2 * idx + 1 || i == 2 * idx + 2);
                        }
                    }
                }
                break;
            }
        }
    }

    /// Exchanges the items at positions `i` and `j`.
    fn swap(&mut self, i: usize, j: usize)
        requires
            i < old(self).data@.len(),
            j < old(self).data@.len(),
        ensures
            final(self).data@ == swapped(old(self).data@, i as int, j as int),
            final(self).data@.to_multiset() == old(self).data@.to_multiset(),
            unique_identities(old(self).data@) ==> unique_identities(final(self).data@),
    {
        proof {
            lemma_swap_keeps_items(self.data@, i as int, j as int);
            if unique_identities(self.data@) {
                lemma_swap_keeps_unique(self.data@, i as int, j as int);
            }
        }
        vec_swap(&mut self.data, i, j);
    }
}

} // verus!
