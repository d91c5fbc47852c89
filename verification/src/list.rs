//! Lists of things that have an identifier: finding one, and moving one to another place.
use vstd::prelude::*;

verus! {

/// `i` is the first place at which `id` stands.
pub open spec fn first_at(ids: Seq<usize>, id: usize, i: int) -> bool {
    &&& 0 <= i < ids.len()
    &&& ids[i] == id
    &&& forall|k: int| 0 <= k < i ==> ids[k] != id
}

/// The first place at which `id` stands, where it stands somewhere.
pub open spec fn place(ids: Seq<usize>, id: usize) -> int {
    choose|i: int| first_at(ids, id, i)
}

/// No identifier stands twice.
pub open spec fn distinct(ids: Seq<usize>) -> bool {
    forall|i: int, j: int| 0 <= i < j < ids.len() ==> ids[i] != ids[j]
}

/// `s` with the element at `from` taken out and put back at `to`.
pub open spec fn moved<T>(s: Seq<T>, from: int, to: int) -> Seq<T> {
    s.remove(from).insert(to, s[from])
}

/// A place found is the place.
pub proof fn lemma_place(ids: Seq<usize>, id: usize, i: int)
    requires
        first_at(ids, id, i),
    ensures
        ids.contains(id),
        place(ids, id) == i,
{
    let j = place(ids, id);
    assert(first_at(ids, id, j));
    if i < j {
        assert(ids[i] != id);
    }
    if j < i {
        assert(ids[j] != id);
    }
}

/// An identifier that stands somewhere has a first place.
pub proof fn lemma_place_exists(ids: Seq<usize>, id: usize)
    requires
        ids.contains(id),
    ensures
        first_at(ids, id, place(ids, id)),
{
    let n = choose|n: int| 0 <= n < ids.len() && ids[n] == id;
    lemma_first_before(ids, id, n);
}

proof fn lemma_first_before(ids: Seq<usize>, id: usize, n: int)
    requires
        0 <= n < ids.len(),
        ids[n] == id,
    ensures
        exists|i: int| first_at(ids, id, i),
    decreases n,
{
    if forall|k: int| 0 <= k < n ==> ids[k] != id {
        assert(first_at(ids, id, n));
    } else {
        let k = choose|k: int| 0 <= k < n && ids[k] == id;
        lemma_first_before(ids, id, k);
    }
}

/// Where the element comes from that stands at `k` after a move.
pub open spec fn source(from: int, to: int, k: int) -> int {
    if k == to {
        from
    } else {
        let left = if k < to {
            k
        } else {
            k - 1
        };
        if left < from {
            left
        } else {
            left + 1
        }
    }
}

/// Every element after a move stood somewhere before it, and no two at the same place.
pub proof fn lemma_moved_from<T>(s: Seq<T>, from: int, to: int, k: int)
    requires
        0 <= from < s.len(),
        0 <= to < s.len(),
        0 <= k < s.len(),
    ensures
        moved(s, from, to).len() == s.len(),
        0 <= source(from, to, k) < s.len(),
        moved(s, from, to)[k] == s[source(from, to, k)],
{
}

/// A move leaves distinct identifiers distinct.
pub proof fn lemma_moved_distinct(ids: Seq<usize>, from: int, to: int)
    requires
        0 <= from < ids.len(),
        0 <= to < ids.len(),
        distinct(ids),
    ensures
        distinct(moved(ids, from, to)),
{
    let m = moved(ids, from, to);
    assert forall|i: int, j: int| 0 <= i < j < m.len() implies m[i] != m[j] by {
        lemma_moved_from(ids, from, to, i);
        lemma_moved_from(ids, from, to, j);
    }
}

/// A move loses no identifier.
pub proof fn lemma_moved_place(ids: Seq<usize>, from: int, to: int, id: usize)
    requires
        0 <= from < ids.len(),
        0 <= to < ids.len(),
        distinct(ids),
        ids.contains(id),
    ensures
        moved(ids, from, to).contains(id),
        first_at(moved(ids, from, to), id, place(moved(ids, from, to), id)),
        source(from, to, place(moved(ids, from, to), id)) == place(ids, id),
{
    lemma_place_exists(ids, id);
    let at = place(ids, id);
    let m = moved(ids, from, to);
    let now = if at == from {
        to
    } else {
        let left = if at < from {
            at
        } else {
            at - 1
        };
        if left < to {
            left
        } else {
            left + 1
        }
    };
    lemma_moved_from(ids, from, to, now);
    assert(source(from, to, now) == at);
    lemma_moved_distinct(ids, from, to);
    assert(first_at(m, id, now));
    lemma_place(m, id, now);
}

/// A move back restores the list.
pub proof fn lemma_moved_back<T>(s: Seq<T>, from: int, to: int)
    requires
        0 <= from < s.len(),
        0 <= to < s.len(),
    ensures
        moved(s, from, to).len() == s.len(),
        moved(moved(s, from, to), to, from) == s,
{
    assert(moved(moved(s, from, to), to, from) =~= s);
}

/// An identifier is found where it stands, and nowhere before that.
pub proof fn law_first_place_is_found(ids: Seq<usize>, id: usize, n: int)
    requires
        0 <= n < ids.len(),
        ids[n] == id,
    ensures
        0 <= place(ids, id) <= n,
        ids[place(ids, id)] == id,
        forall|k: int| 0 <= k < place(ids, id) ==> ids[k] != id,
{
    lemma_place_exists(ids, id);
}

/// A move takes one element to its new place, and leaves the others in their order.
pub proof fn law_move_takes_one_along<T>(s: Seq<T>, from: int, to: int)
    requires
        0 <= from < s.len(),
        0 <= to < s.len(),
    ensures
        ({
            let m = moved(s, from, to);
            &&& m.len() == s.len()
            &&& m[to] == s[from]
            &&& m.take(to) + m.skip(to + 1) == s.take(from) + s.skip(from + 1)
        }),
{
    let m = moved(s, from, to);
    assert(m.take(to) + m.skip(to + 1) =~= s.take(from) + s.skip(from + 1));
}

} // verus!
