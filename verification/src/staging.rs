//! Snapshot diffing and the staged-change queues.
//!
//! A staged change is identified for deduplication purposes by the pair
//! (source, title) — exact, case-sensitive string match — never by its own
//! identifier. The inbox and snoozed queues are ordered, deduplicated lists.

use vstd::prelude::*;
use crate::domain::DetectedChange;
use crate::domain::DetectedChangeV;

verus! {

broadcast use vstd::seq_lib::group_filter_ensures;

/// The views of the changes in a list, in order.
pub open spec fn views_of(s: Seq<DetectedChange>) -> Seq<DetectedChangeV> {
    s.map_values(|c: DetectedChange| c@)
}

/// The deduplication key of a staged change: its (source, title) pair.
pub open spec fn change_key(c: DetectedChangeV) -> (Seq<char>, Seq<char>) {
    (c.source, c.title)
}

/// Some element of `s` has the key `k`.
pub open spec fn has_key(s: Seq<DetectedChangeV>, k: (Seq<char>, Seq<char>)) -> bool {
    exists|i: int| 0 <= i < s.len() && change_key(s[i]) == k
}

/// Some element of `s` carries the identifier `id`.
pub open spec fn has_id(s: Seq<DetectedChangeV>, id: Seq<char>) -> bool {
    exists|i: int| 0 <= i < s.len() && s[i].id == id
}

/// The items of `cur` whose key is absent from `prev`, in order.
pub open spec fn spec_diff(prev: Seq<DetectedChangeV>, cur: Seq<DetectedChangeV>) -> Seq<
    DetectedChangeV,
> {
    cur.filter(|c: DetectedChangeV| !has_key(prev, change_key(c)))
}

/// Decide whether the list holds an item with the given (source, title) key.
pub fn contains_key(list: &Vec<DetectedChange>, source: &String, title: &String) -> (r: bool)
    ensures
        r == has_key(views_of(list@), (source@, title@)),
{
    let mut i: usize = 0;
    while i < list.len()
        invariant
            0 <= i <= list@.len(),
            forall|j: int| 0 <= j < i ==> change_key(views_of(list@)[j]) != (source@, title@),
        decreases list@.len() - i,
    {
        let c = &list[i];
        if c.source == *source && c.title == *title {
            proof {
                assert(views_of(list@)[i as int] == list@[i as int]@);
            }
            return true;
        }
        proof {
            assert(views_of(list@)[i as int] == list@[i as int]@);
        }
        i = i + 1;
    }
    false
}

/// Borrow the element at `i`.
fn list_get(list: &Vec<DetectedChange>, i: usize) -> (r: &DetectedChange)
    requires
        i < list@.len(),
    ensures
        *r == list@[i as int],
{
    &list[i]
}

/// Compute the set difference of a current scan against the previous
/// snapshot for one source: exactly the items of `current` whose
/// (source, title) key does not occur in `previous`, in scan order.
pub fn diff_changes(previous: &Vec<DetectedChange>, current: &Vec<DetectedChange>) -> (r: Vec<
    DetectedChange,
>)
    ensures
        views_of(r@) == spec_diff(views_of(previous@), views_of(current@)),
{
    let ghost pred = |c: DetectedChangeV| !has_key(views_of(previous@), change_key(c));
    let mut r: Vec<DetectedChange> = Vec::new();
    let mut i: usize = 0;
    while i < current.len()
        invariant
            0 <= i <= current@.len(),
            views_of(r@) == views_of(current@).subrange(0, i as int).filter(pred),
            pred == (|c: DetectedChangeV| !has_key(views_of(previous@), change_key(c))),
        decreases current@.len() - i,
    {
        let ghost r0 = views_of(r@);
        let c = list_get(current, i);
        let keep = !contains_key(previous, &c.source, &c.title);
        proof {
            reveal_with_fuel(Seq::<_>::filter, 2);
            let vs = views_of(current@);
            let s1 = vs.subrange(0, i + 1 as int);
            assert(vs[i as int] == current@[i as int]@);
            assert(s1.drop_last() =~= vs.subrange(0, i as int));
            assert(s1.last() == vs[i as int]);
            assert(keep == pred(s1.last()));
        }
        if keep {
            let cc = c.clone();
            r.push(cc);
            proof {
                assert(views_of(r@) =~= r0.push(current@[i as int]@));
            }
        }
        i = i + 1;
    }
    proof {
        assert(views_of(current@).subrange(0, current@.len() as int) =~= views_of(current@));
    }
    r
}

/// Every element of a filtered sequence comes from the sequence.
proof fn lemma_filter_from<A>(s: Seq<A>, pred: spec_fn(A) -> bool)
    ensures
        forall|i: int| 0 <= i < s.filter(pred).len() ==> s.contains(#[trigger] s.filter(pred)[i]),
    decreases s.len(),
{
    reveal_with_fuel(Seq::<_>::filter, 2);
    if s.len() > 0 {
        lemma_filter_from(s.drop_last(), pred);
        assert forall|i: int| 0 <= i < s.filter(pred).len() implies s.contains(
            #[trigger] s.filter(pred)[i],
        ) by {
            let f = s.filter(pred);
            let g = s.drop_last().filter(pred);
            if i < g.len() {
                assert(g[i] == f[i]);
                let w = choose|j: int| 0 <= j < s.drop_last().len() && s.drop_last()[j] == g[i];
                assert(s[w] == f[i]);
            } else {
                assert(f[i] == s.last());
                assert(s[s.len() - 1] == f[i]);
            }
        }
    }
}

/// The diff holds exactly the items of the current scan whose key is
/// absent from the snapshot: every diff item is a scan item with a fresh
/// key, and every scan item with a fresh key is in the diff.
pub proof fn lemma_diff_exact(prev: Seq<DetectedChangeV>, cur: Seq<DetectedChangeV>)
    ensures
        forall|i: int|
            0 <= i < spec_diff(prev, cur).len() ==> cur.contains(#[trigger] spec_diff(prev, cur)[i])
                && !has_key(prev, change_key(spec_diff(prev, cur)[i])),
        forall|i: int|
            0 <= i < cur.len() && !has_key(prev, change_key(#[trigger] cur[i])) ==> spec_diff(
                prev,
                cur,
            ).contains(cur[i]),
{
    let pred = |c: DetectedChangeV| !has_key(prev, change_key(c));
    lemma_filter_from(cur, pred);
}

/// Re-diffing a scan against a snapshot equal to that same scan yields
/// nothing: every item's key is present in the snapshot.
pub proof fn lemma_diff_self_empty(cur: Seq<DetectedChangeV>)
    ensures
        spec_diff(cur, cur) =~= Seq::<DetectedChangeV>::empty(),
{
    lemma_diff_all_present(cur, cur);
}

/// If every element of `s` has its key in `prev`, the diff of `s` against
/// `prev` is empty.
pub proof fn lemma_diff_all_present(prev: Seq<DetectedChangeV>, s: Seq<DetectedChangeV>)
    requires
        forall|i: int| 0 <= i < s.len() ==> has_key(prev, change_key(#[trigger] s[i])),
    ensures
        spec_diff(prev, s) =~= Seq::<DetectedChangeV>::empty(),
    decreases s.len(),
{
    reveal_with_fuel(Seq::<_>::filter, 2);
    if s.len() > 0 {
        assert(forall|i: int|
            0 <= i < s.drop_last().len() ==> has_key(
                prev,
                change_key(#[trigger] s.drop_last()[i]),
            ));
        lemma_diff_all_present(prev, s.drop_last());
    }
}

/// The result of merging `incoming` into `target`, skipping every item
/// whose key is already present, in order.
pub open spec fn spec_append_unique(
    target: Seq<DetectedChangeV>,
    incoming: Seq<DetectedChangeV>,
) -> Seq<DetectedChangeV>
    decreases incoming.len(),
{
    if incoming.len() == 0 {
        target
    } else {
        let first = incoming[0];
        let stepped = if has_key(target, change_key(first)) {
            target
        } else {
            target.push(first)
        };
        spec_append_unique(stepped, incoming.drop_first())
    }
}

/// The number of genuinely new keys that merging `incoming` adds to `target`.
pub open spec fn spec_new_key_count(
    target: Seq<DetectedChangeV>,
    incoming: Seq<DetectedChangeV>,
) -> nat
    decreases incoming.len(),
{
    if incoming.len() == 0 {
        0
    } else {
        let first = incoming[0];
        if has_key(target, change_key(first)) {
            spec_new_key_count(target, incoming.drop_first())
        } else {
            1 + spec_new_key_count(target.push(first), incoming.drop_first())
        }
    }
}

/// Append each incoming item whose (source, title) key is not already in
/// the target list; an item whose key is present anywhere in the target is
/// skipped. The existing items stay unchanged, in place, and the length
/// grows exactly by the number of genuinely new keys.
pub fn append_unique(target: &mut Vec<DetectedChange>, incoming: Vec<DetectedChange>)
    ensures
        views_of(final(target)@) == spec_append_unique(
            views_of(old(target)@),
            views_of(incoming@),
        ),
        final(target)@.len() == old(target)@.len() + spec_new_key_count(
            views_of(old(target)@),
            views_of(incoming@),
        ),
        old(target)@.is_prefix_of(final(target)@),
{
    let ghost orig = views_of(target@);
    let ghost orig_items = target@;
    let ghost inc = views_of(incoming@);
    let mut i: usize = 0;
    proof {
        assert(inc.subrange(0, inc.len() as int) =~= inc);
    }
    while i < incoming.len()
        invariant
            0 <= i <= incoming@.len(),
            inc == views_of(incoming@),
            inc.len() == incoming@.len(),
            spec_append_unique(views_of(target@), inc.subrange(i as int, inc.len() as int))
                == spec_append_unique(orig, inc),
            target@.len() + spec_new_key_count(
                views_of(target@),
                inc.subrange(i as int, inc.len() as int),
            ) == orig_items.len() + spec_new_key_count(orig, inc),
            orig_items.is_prefix_of(target@),
        decreases incoming@.len() - i,
    {
        let ghost rest = inc.subrange(i as int, inc.len() as int);
        let ghost t0 = views_of(target@);
        let c = list_get(&incoming, i);
        let present = contains_key(target, &c.source, &c.title);
        proof {
            assert(rest[0] == inc[i as int]);
            assert(inc[i as int] == incoming@[i as int]@);
            assert(rest.drop_first() =~= inc.subrange(i + 1 as int, inc.len() as int));
            assert(present == has_key(t0, change_key(rest[0])));
        }
        if !present {
            let cc = c.clone();
            target.push(cc);
            proof {
                assert(views_of(target@) =~= t0.push(rest[0]));
            }
        }
        i = i + 1;
        proof {
            let stepped = if has_key(t0, change_key(rest[0])) {
                t0
            } else {
                t0.push(rest[0])
            };
            assert(views_of(target@) == stepped);
            assert(spec_append_unique(t0, rest) == spec_append_unique(stepped, rest.drop_first()));
        }
    }
    proof {
        assert(inc.subrange(inc.len() as int, inc.len() as int) =~= Seq::<
            DetectedChangeV,
        >::empty());
    }
}

/// Merging items whose keys are all already present is a no-op.
pub proof fn lemma_append_unique_noop(target: Seq<DetectedChangeV>, incoming: Seq<DetectedChangeV>)
    requires
        forall|i: int|
            0 <= i < incoming.len() ==> has_key(target, change_key(#[trigger] incoming[i])),
    ensures
        spec_append_unique(target, incoming) == target,
    decreases incoming.len(),
{
    if incoming.len() > 0 {
        assert(has_key(target, change_key(incoming[0])));
        assert(forall|i: int|
            0 <= i < incoming.drop_first().len() ==> has_key(
                target,
                change_key(#[trigger] incoming.drop_first()[i]),
            ));
        lemma_append_unique_noop(target, incoming.drop_first());
    }
}

/// Find the first item carrying the identifier, if any.
pub fn find_by_id(list: &Vec<DetectedChange>, id: &String) -> (r: Option<usize>)
    ensures
        match r {
            Some(p) => {
                &&& 0 <= p < list@.len()
                &&& list@[p as int].id@ == id@
                &&& forall|j: int| 0 <= j < p ==> list@[j].id@ != id@
            },
            None => !has_id(views_of(list@), id@),
        },
{
    let mut i: usize = 0;
    while i < list.len()
        invariant
            0 <= i <= list@.len(),
            forall|j: int| 0 <= j < i ==> list@[j].id@ != id@,
        decreases list@.len() - i,
    {
        let c = &list[i];
        if c.id == *id {
            return Some(i);
        }
        i = i + 1;
    }
    proof {
        assert forall|j: int| 0 <= j < views_of(list@).len() implies views_of(list@)[j].id != id@
        by {
            assert(views_of(list@)[j] == list@[j]@);
        }
    }
    None
}

/// The list without any item carrying the identifier.
pub open spec fn spec_remove_by_id(s: Seq<DetectedChangeV>, id: Seq<char>) -> Seq<
    DetectedChangeV,
> {
    s.filter(|c: DetectedChangeV| c.id != id)
}

/// Drop every item carrying the identifier; the rest keep their order.
pub fn remove_by_id(list: &mut Vec<DetectedChange>, id: &String)
    ensures
        views_of(final(list)@) == spec_remove_by_id(views_of(old(list)@), id@),
{
    let ghost pred = |c: DetectedChangeV| c.id != id@;
    let mut r: Vec<DetectedChange> = Vec::new();
    let mut i: usize = 0;
    while i < list.len()
        invariant
            0 <= i <= list@.len(),
            views_of(r@) == views_of(list@).subrange(0, i as int).filter(pred),
            pred == (|c: DetectedChangeV| c.id != id@),
        decreases list@.len() - i,
    {
        let ghost r0 = views_of(r@);
        let c = list_get(list, i);
        let keep = !(c.id == *id);
        proof {
            reveal_with_fuel(Seq::<_>::filter, 2);
            let vs = views_of(list@);
            let s1 = vs.subrange(0, i + 1 as int);
            assert(vs[i as int] == list@[i as int]@);
            assert(s1.drop_last() =~= vs.subrange(0, i as int));
            assert(s1.last() == vs[i as int]);
            assert(keep == pred(s1.last()));
        }
        if keep {
            let cc = c.clone();
            r.push(cc);
            proof {
                assert(views_of(r@) =~= r0.push(list@[i as int]@));
            }
        }
        i = i + 1;
    }
    proof {
        assert(views_of(list@).subrange(0, list@.len() as int) =~= views_of(list@));
    }
    *list = r;
}

/// The first index in `s` whose item carries `id`; meaningful only when
/// `has_id(s, id)` holds.
pub open spec fn first_id_index(s: Seq<DetectedChangeV>, id: Seq<char>) -> int
    decreases s.len(),
{
    if s.len() == 0 {
        0
    } else if s[0].id == id {
        0
    } else {
        1 + first_id_index(s.drop_first(), id)
    }
}

/// When `has_id(s, id)` holds, `first_id_index` names a valid first match.
pub proof fn lemma_first_id_index(s: Seq<DetectedChangeV>, id: Seq<char>)
    requires
        has_id(s, id),
    ensures
        0 <= first_id_index(s, id) < s.len(),
        s[first_id_index(s, id)].id == id,
        forall|j: int| 0 <= j < first_id_index(s, id) ==> s[j].id != id,
    decreases s.len(),
{
    if s.len() > 0 && s[0].id != id {
        let rest = s.drop_first();
        assert(has_id(rest, id)) by {
            let w = choose|i: int| 0 <= i < s.len() && s[i].id == id;
            assert(rest[w - 1].id == id);
        }
        lemma_first_id_index(rest, id);
        assert forall|j: int| 0 <= j < first_id_index(s, id) implies s[j].id != id by {
            if j > 0 {
                assert(s[j] == rest[j - 1]);
            }
        }
    }
}

/// The pair of lists after moving the first item of `from` carrying `id`
/// to the back of `to`; both unchanged when no item carries it.
pub open spec fn spec_move_by_id(
    from: Seq<DetectedChangeV>,
    to: Seq<DetectedChangeV>,
    id: Seq<char>,
) -> (Seq<DetectedChangeV>, Seq<DetectedChangeV>) {
    if has_id(from, id) {
        let p = first_id_index(from, id);
        (from.remove(p), to.push(from[p]))
    } else {
        (from, to)
    }
}

/// Move the first item carrying the identifier from one queue to the back
/// of the other, with every field unchanged; do nothing when absent.
pub fn move_by_id(
    from: &mut Vec<DetectedChange>,
    to: &mut Vec<DetectedChange>,
    id: &String,
) -> (moved: bool)
    ensures
        (views_of(final(from)@), views_of(final(to)@)) == spec_move_by_id(
            views_of(old(from)@),
            views_of(old(to)@),
            id@,
        ),
        moved == has_id(views_of(old(from)@), id@),
{
    match find_by_id(from, id) {
        Some(p) => {
            let ghost vf = views_of(from@);
            let ghost vt = views_of(to@);
            proof {
                assert(vf[p as int] == from@[p as int]@);
                assert(has_id(vf, id@)) by {
                    assert(vf[p as int].id == id@);
                }
                lemma_first_id_index(vf, id@);
                assert(first_id_index(vf, id@) == p as int) by {
                    let q = first_id_index(vf, id@);
                    if q < p as int {
                        assert(from@[q].id@ != id@);
                        assert(vf[q] == from@[q]@);
                    }
                    if q > p as int {
                        assert(vf[p as int].id != id@);
                    }
                }
            }
            let item = from.remove(p);
            to.push(item);
            proof {
                assert(views_of(from@) =~= vf.remove(p as int));
                assert(views_of(to@) =~= vt.push(vf[p as int]));
            }
            true
        },
        None => false,
    }
}

/// Some group in the list is for the source.
pub open spec fn group_covers(r: Seq<SourceGroup>, src: Seq<char>) -> bool {
    exists|g: int| 0 <= g < r.len() && (#[trigger] r[g]).source@ == src
}

/// One source's share of a scan: the source name and its changes in scan
/// order.
pub struct SourceGroup {
    /// The detector source the group belongs to.
    pub source: String,
    /// The source's changes, in scan order.
    pub changes: Vec<DetectedChange>,
}

/// Decide whether the list holds a string with these characters.
fn has_string(list: &Vec<String>, x: &String) -> (r: bool)
    ensures
        r == exists|j: int| 0 <= j < list@.len() && (#[trigger] list@[j])@ == x@,
{
    let mut i: usize = 0;
    while i < list.len()
        invariant
            0 <= i <= list@.len(),
            forall|j: int| 0 <= j < i ==> (#[trigger] list@[j])@ != x@,
        decreases list@.len() - i,
    {
        if list[i] == *x {
            return true;
        }
        i = i + 1;
    }
    false
}

/// Collect the items of one source, in order.
fn changes_of_source(changes: &Vec<DetectedChange>, source: &String) -> (r: Vec<DetectedChange>)
    ensures
        views_of(r@) == views_of(changes@).filter(
            |c: DetectedChangeV| c.source == source@,
        ),
{
    let ghost pred = |c: DetectedChangeV| c.source == source@;
    let mut r: Vec<DetectedChange> = Vec::new();
    let mut i: usize = 0;
    while i < changes.len()
        invariant
            0 <= i <= changes@.len(),
            views_of(r@) == views_of(changes@).subrange(0, i as int).filter(pred),
            pred == (|c: DetectedChangeV| c.source == source@),
        decreases changes@.len() - i,
    {
        let ghost r0 = views_of(r@);
        let c = list_get(changes, i);
        let keep = c.source == *source;
        proof {
            reveal_with_fuel(Seq::<_>::filter, 2);
            let vs = views_of(changes@);
            let s1 = vs.subrange(0, i + 1 as int);
            assert(vs[i as int] == changes@[i as int]@);
            assert(s1.drop_last() =~= vs.subrange(0, i as int));
            assert(s1.last() == vs[i as int]);
            assert(keep == pred(s1.last()));
        }
        if keep {
            let cc = c.clone();
            r.push(cc);
            proof {
                assert(views_of(r@) =~= r0.push(changes@[i as int]@));
            }
        }
        i = i + 1;
    }
    proof {
        assert(views_of(changes@).subrange(0, changes@.len() as int) =~= views_of(changes@));
    }
    r
}

/// Group a scan by detector source: one group per distinct source, each
/// holding exactly that source's items in scan order; every scanned item
/// belongs to some group and no two groups share a source.
pub fn group_by_source(changes: &Vec<DetectedChange>) -> (r: Vec<SourceGroup>)
    ensures
        forall|g: int|
            0 <= g < r@.len() ==> views_of((#[trigger] r@[g]).changes@) == views_of(
                changes@,
            ).filter(|c: DetectedChangeV| c.source == r@[g].source@),
        forall|g1: int, g2: int|
            0 <= g1 < g2 < r@.len() ==> (#[trigger] r@[g1]).source@ != (#[trigger] r@[g2]).source@,
        forall|i: int|
            0 <= i < views_of(changes@).len() ==> group_covers(
                r@,
                (#[trigger] views_of(changes@)[i]).source,
            ),
{
    let ghost cs = views_of(changes@);
    let mut sources: Vec<String> = Vec::new();
    let mut i: usize = 0;
    while i < changes.len()
        invariant
            0 <= i <= changes@.len(),
            cs == views_of(changes@),
            cs.len() == changes@.len(),
            forall|j1: int, j2: int|
                0 <= j1 < j2 < sources@.len() ==> (#[trigger] sources@[j1])@ != (
                #[trigger] sources@[j2])@,
            forall|k: int|
                0 <= k < i ==> exists|g: int|
                    0 <= g < sources@.len() && (#[trigger] sources@[g])@ == (
                    #[trigger] cs[k]).source,
        decreases changes@.len() - i,
    {
        let c = list_get(changes, i);
        let present = has_string(&sources, &c.source);
        proof {
            assert(cs[i as int] == changes@[i as int]@);
        }
        if !present {
            let ghost s0 = sources@;
            sources.push(c.source.clone());
            proof {
                assert(sources@[s0.len() as int]@ == cs[i as int].source);
                assert(forall|j: int| 0 <= j < s0.len() ==> sources@[j] == s0[j]);
            }
        }
        i = i + 1;
    }
    let mut r: Vec<SourceGroup> = Vec::new();
    let mut g: usize = 0;
    while g < sources.len()
        invariant
            0 <= g <= sources@.len(),
            cs == views_of(changes@),
            r@.len() == g,
            forall|k: int| 0 <= k < g ==> (#[trigger] r@[k]).source@ == sources@[k]@,
            forall|k: int|
                0 <= k < g ==> views_of((#[trigger] r@[k]).changes@) == cs.filter(
                    |c: DetectedChangeV| c.source == r@[k].source@,
                ),
        decreases sources@.len() - g,
    {
        let source = sources[g].clone();
        let ghost srcv = source@;
        let group_changes = changes_of_source(changes, &source);
        r.push(SourceGroup { source, changes: group_changes });
        proof {
            let gi = r@.len() - 1;
            assert(r@[gi].source@ == srcv);
            assert((|c: DetectedChangeV| c.source == r@[gi].source@) =~= (
            |c: DetectedChangeV| c.source == srcv));
            assert(views_of(r@[gi].changes@) == cs.filter(
                |c: DetectedChangeV| c.source == r@[gi].source@,
            ));
        }
        g = g + 1;
    }
    proof {
        assert forall|i2: int| 0 <= i2 < views_of(changes@).len() implies group_covers(
            r@,
            (#[trigger] views_of(changes@)[i2]).source,
        ) by {
            assert(views_of(changes@)[i2] == cs[i2]);
            let w = choose|j: int|
                0 <= j < sources@.len() && (#[trigger] sources@[j])@ == cs[i2].source;
            assert(r@[w].source@ == cs[i2].source);
            assert(group_covers(r@, views_of(changes@)[i2].source));
        }
        assert forall|g1: int, g2: int| 0 <= g1 < g2 < r@.len() implies (
        #[trigger] r@[g1]).source@ != (#[trigger] r@[g2]).source@ by {
            assert(sources@[g1]@ != sources@[g2]@);
        }
        assert(forall|g2: int|
            0 <= g2 < r@.len() ==> views_of((#[trigger] r@[g2]).changes@) == cs.filter(
                |c: DetectedChangeV| c.source == r@[g2].source@,
            ));
    }
    r
}

/// Moving an item from the inbox to the snoozed queue and back restores the
/// very record — same identifier, same field values — appended at the back
/// of the inbox, and leaves the snoozed queue as it began, provided the
/// identifier names an inbox item and no snoozed item.
pub proof fn lemma_snooze_unsnooze_restores(
    inbox: Seq<DetectedChangeV>,
    snoozed: Seq<DetectedChangeV>,
    id: Seq<char>,
)
    requires
        has_id(inbox, id),
        !has_id(snoozed, id),
    ensures
        ({
            let p = first_id_index(inbox, id);
            let moved = spec_move_by_id(inbox, snoozed, id);
            let back = spec_move_by_id(moved.1, moved.0, id);
            back.0 == snoozed && back.1 == inbox.remove(p).push(inbox[p])
        }),
{
    lemma_first_id_index(inbox, id);
    let p = first_id_index(inbox, id);
    let item = inbox[p];
    let s1 = snoozed.push(item);
    assert(has_id(s1, id)) by {
        assert(s1[snoozed.len() as int].id == id);
    }
    lemma_first_id_index(s1, id);
    let q = first_id_index(s1, id);
    assert(q == snoozed.len()) by {
        if q < snoozed.len() {
            assert(s1[q] == snoozed[q]);
            assert(snoozed[q].id == id);
        }
    }
    assert(s1.remove(q) =~= snoozed);
}

} // verus!
