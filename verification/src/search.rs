//! Case-insensitive search over stored entries.

use vstd::prelude::*;
use crate::domain::Entry;
use crate::domain::EntryV;
use crate::text::contains_sub;
use crate::text::has_sub;
use crate::text::lower_of;
use crate::text::lowercase;
use crate::text::str_to_chars;
use crate::vault::entries_view;

verus! {

broadcast use vstd::seq_lib::group_filter_ensures;

/// The entry matches the query: its lowercased title, a lowercased tag, or
/// the lowercased rationale contains the lowercased query.
pub open spec fn matches_query(e: EntryV, q: Seq<char>) -> bool {
    ||| has_sub(lower_of(e.title), lower_of(q))
    ||| exists|i: int| 0 <= i < e.tags.len() && has_sub(lower_of(#[trigger] e.tags[i]), lower_of(q))
    ||| has_sub(lower_of(e.rationale), lower_of(q))
}

/// Decide whether already-lowered text contains the lowered query.
fn lowered_contains(text: &str, lq: &Vec<char>) -> (r: bool)
    ensures
        r == has_sub(lower_of(text@), lq@),
{
    let lt = lowercase(text);
    let lv = str_to_chars(lt.as_str());
    if lq.len() == 0 {
        proof {
            assert(lv@.subrange(0, 0) =~= lq@);
            assert(crate::text::matches_at(lv@, lq@, 0));
        }
        return true;
    }
    contains_sub(&lv, lq)
}

/// Decide whether the entry matches the query.
pub fn entry_matches_query(entry: &Entry, query: &str) -> (r: bool)
    ensures
        r == matches_query(entry@, query@),
{
    let lq_s = lowercase(query);
    let lq = str_to_chars(lq_s.as_str());
    if lowered_contains(entry.title.as_str(), &lq) {
        return true;
    }
    if lowered_contains(entry.rationale.as_str(), &lq) {
        return true;
    }
    let mut i: usize = 0;
    while i < entry.tags.len()
        invariant
            0 <= i <= entry.tags@.len(),
            lq@ == lower_of(query@),
            forall|j: int|
                0 <= j < i ==> !has_sub(lower_of(#[trigger] entry@.tags[j]), lower_of(query@)),
        decreases entry.tags@.len() - i,
    {
        proof {
            assert(entry@.tags[i as int] == entry.tags@[i as int]@);
        }
        if lowered_contains(entry.tags[i].as_str(), &lq) {
            return true;
        }
        i = i + 1;
    }
    false
}

/// The entries that match the query, in order.
pub fn search_entries(entries: &Vec<Entry>, query: &str) -> (r: Vec<Entry>)
    ensures
        entries_view(r@) == entries_view(entries@).filter(
            |e: EntryV| matches_query(e, query@),
        ),
{
    let ghost pred = |e: EntryV| matches_query(e, query@);
    let mut r: Vec<Entry> = Vec::new();
    let mut i: usize = 0;
    while i < entries.len()
        invariant
            0 <= i <= entries@.len(),
            entries_view(r@) == entries_view(entries@).subrange(0, i as int).filter(pred),
            pred == (|e: EntryV| matches_query(e, query@)),
        decreases entries@.len() - i,
    {
        let ghost r0 = entries_view(r@);
        let keep = entry_matches_query(&entries[i], query);
        proof {
            reveal_with_fuel(Seq::<_>::filter, 2);
            let vs = entries_view(entries@);
            let s1 = vs.subrange(0, i + 1 as int);
            assert(vs[i as int] == entries@[i as int]@);
            assert(s1.drop_last() =~= vs.subrange(0, i as int));
            assert(s1.last() == vs[i as int]);
            assert(keep == pred(s1.last()));
        }
        if keep {
            let e = entries[i].clone();
            r.push(e);
            proof {
                assert(entries_view(r@) =~= r0.push(entries@[i as int]@));
            }
        }
        i = i + 1;
    }
    proof {
        assert(entries_view(entries@).subrange(0, entries@.len() as int) =~= entries_view(
            entries@,
        ));
    }
    r
}

} // verus!
