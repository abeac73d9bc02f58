//! The command history: how a command joins it, and which entries a
//! reverse search finds.
use crate::state::string_views;
use crate::text::{chars_of, contains, contains_chars};
use vstd::prelude::*;

verus! {

broadcast use vstd::string::group_string_axioms;

/// The number of entries at which the history stops growing.
pub const HISTORY_LIMIT: usize = 1000;

/// The history after `command` joins it: at the end, and, if the history
/// held exactly `HISTORY_LIMIT` entries, without its oldest entry.
pub open spec fn pushed(history: Seq<Seq<char>>, command: Seq<char>) -> Seq<Seq<char>> {
    if history.len() == HISTORY_LIMIT {
        history.skip(1).push(command)
    } else {
        history.push(command)
    }
}

/// Adds `command` to the end of `history` (see `pushed`).
pub fn push_history(command: &String, history: &mut Vec<String>)
    ensures
        string_views(final(history)@) == pushed(string_views(old(history)@), command@),
{
    let ghost before = string_views(history@);
    if history.len() == HISTORY_LIMIT {
        history.remove(0);
        assert(string_views(history@) =~= before.skip(1));
    }
    let ghost mid = string_views(history@);
    history.push(command.clone());
    assert(string_views(history@) =~= mid.push(command@));
}

/// The indices, in increasing order, of the entries of `history` in which
/// `p` occurs.
pub open spec fn matching_indices(history: Seq<Seq<char>>, p: Seq<char>) -> Seq<usize>
    decreases history.len(),
{
    if history.len() == 0 {
        seq![]
    } else {
        let prev = matching_indices(history.drop_last(), p);
        if contains(history.last(), p) {
            prev.push((history.len() - 1) as usize)
        } else {
            prev
        }
    }
}

/// The indices of the history entries that hold `reverse_search`, in
/// increasing order.
pub fn search_history(reverse_search: &String, history: &Vec<String>) -> (r: Vec<usize>)
    ensures
        r@ == matching_indices(string_views(history@), reverse_search@),
{
    let p = chars_of(reverse_search.as_str());
    let ghost h = string_views(history@);
    let mut r: Vec<usize> = Vec::new();
    let mut i: usize = 0;
    while i < history.len()
        invariant
            h == string_views(history@),
            p@ == reverse_search@,
            i <= history.len(),
            r@ == matching_indices(h.take(i as int), p@),
        decreases history.len() - i,
    {
        let entry = chars_of(history[i].as_str());
        assert(h.take(i + 1).drop_last() =~= h.take(i as int));
        assert(h.take(i + 1).last() == entry@);
        if contains_chars(&entry, &p) {
            r.push(i);
        }
        i = i + 1;
    }
    assert(h.take(history.len() as int) =~= h);
    r
}


/// The history never grows past its limit, and the newest command is its
/// last entry.
pub proof fn law_history_bounded(history: Seq<Seq<char>>, command: Seq<char>)
    requires
        history.len() <= HISTORY_LIMIT,
    ensures
        pushed(history, command).len() <= HISTORY_LIMIT,
        pushed(history, command).last() == command,
        history.len() < HISTORY_LIMIT ==> pushed(history, command).drop_last() == history,
        history.len() == HISTORY_LIMIT ==> pushed(history, command).drop_last() == history.skip(1),
{
    assert(history.push(command).drop_last() =~= history);
    assert(history.skip(1).push(command).drop_last() =~= history.skip(1));
}

/// A reverse search finds exactly the entries that hold the text searched
/// for, each once, in increasing order.
pub proof fn law_search_exact(history: Seq<Seq<char>>, p: Seq<char>)
    requires
        history.len() <= usize::MAX,
    ensures
        forall|i: int|
            0 <= i < history.len() ==> (matching_indices(history, p).contains(i as usize)
                <==> contains(#[trigger] history[i], p)),
        forall|k: int|
            0 <= k < matching_indices(history, p).len() ==> #[trigger] matching_indices(
                history,
                p,
            )[k] < history.len(),
        forall|k: int, l: int|
            0 <= k < l < matching_indices(history, p).len() ==> #[trigger] matching_indices(
                history,
                p,
            )[k] < #[trigger] matching_indices(history, p)[l],
    decreases history.len(),
{
    if history.len() > 0 {
        let h0 = history.drop_last();
        law_search_exact(h0, p);
        let prev = matching_indices(h0, p);
        let cur = matching_indices(history, p);
        let n = history.len() - 1;
        assert forall|i: int| 0 <= i < history.len() implies (cur.contains(i as usize) <==> contains(
            #[trigger] history[i],
            p,
        )) by {
            if i < n {
                assert(history[i] == h0[i]);
                if prev.contains(i as usize) {
                    let k = choose|k: int| 0 <= k < prev.len() && prev[k] == i as usize;
                    assert(cur[k] == prev[k]);
                }
                if cur.contains(i as usize) {
                    let k = choose|k: int| 0 <= k < cur.len() && cur[k] == i as usize;
                    if k < prev.len() {
                        assert(prev[k] == cur[k]);
                    }
                }
            } else {
                if contains(history[i], p) {
                    assert(cur[cur.len() - 1] == i as usize);
                }
                if cur.contains(i as usize) {
                    let k = choose|k: int| 0 <= k < cur.len() && cur[k] == i as usize;
                    if k < prev.len() {
                        assert(prev[k] == cur[k]);
                    }
                }
            }
        }
        assert forall|k: int| 0 <= k < cur.len() implies #[trigger] cur[k] < history.len() by {
            if k < prev.len() {
                assert(cur[k] == prev[k]);
            }
        }
        assert forall|k: int, l: int| 0 <= k < l < cur.len() implies #[trigger] cur[k]
            < #[trigger] cur[l] by {
            if l < prev.len() {
                assert(cur[k] == prev[k] && cur[l] == prev[l]);
            } else {
                assert(cur[k] == prev[k]);
            }
        }
    }
}

} // verus!
