//! The per-challenge "working on" set: a duplicate-free list of usernames
//! with set semantics — adding a member twice is a no-op, and clearing a
//! user who is not present is a no-op. The joined string form used at the
//! storage and display boundary is defined here as well.

use vstd::prelude::*;

use crate::models::{distinct_names, names_of};
use crate::text::str_eq;

verus! {

/// The username is a member of the working set.
pub open spec fn working_contains(ws: Seq<Seq<char>>, name: Seq<char>) -> bool {
    exists|i: int| 0 <= i < ws.len() && ws[i] == name
}

/// The working set after marking a user as working: unchanged when the user
/// is already a member, extended at the end otherwise.
pub open spec fn with_working(ws: Seq<Seq<char>>, name: Seq<char>) -> Seq<Seq<char>> {
    if working_contains(ws, name) {
        ws
    } else {
        ws.push(name)
    }
}

/// Keeps every username other than the one being cleared.
pub open spec fn keep_other(name: Seq<char>) -> spec_fn(Seq<char>) -> bool {
    |n: Seq<char>| n != name
}

/// The working set after clearing a user: every other member, in order.
pub open spec fn without_working(ws: Seq<Seq<char>>, name: Seq<char>) -> Seq<Seq<char>> {
    ws.filter(keep_other(name))
}

/// Whether the given username is in the working list.
pub fn contains_working(list: &Vec<String>, name: &str) -> (r: bool)
    ensures
        r == working_contains(names_of(list@), name@),
{
    let mut i: usize = 0;
    while i < list.len()
        invariant
            i <= list@.len(),
            forall|j: int| 0 <= j < i ==> names_of(list@)[j] != name@,
        decreases list@.len() - i,
    {
        if str_eq(list[i].as_str(), name) {
            proof {
                assert(names_of(list@)[i as int] == name@);
            }
            return true;
        }
        i += 1;
    }
    false
}

/// Marks a user as working: appends the username unless already present.
pub fn add_working_user(list: &mut Vec<String>, name: &str)
    ensures
        names_of(final(list)@) == with_working(names_of(old(list)@), name@),
{
    if !contains_working(list, name) {
        list.push(String::from_str(name));
        proof {
            assert(names_of(list@) =~= names_of(old(list)@).push(name@));
        }
    }
}

proof fn lemma_filter_take_step(s: Seq<Seq<char>>, pred: spec_fn(Seq<char>) -> bool, i: int)
    requires
        0 <= i < s.len(),
    ensures
        s.take(i + 1).filter(pred) == if pred(s[i]) {
            s.take(i).filter(pred).push(s[i])
        } else {
            s.take(i).filter(pred)
        },
{
    reveal(Seq::filter);
    assert(s.take(i + 1).drop_last() =~= s.take(i));
    assert(s.take(i + 1).last() == s[i]);
}

/// Clears a user from the working set: removes the username if present,
/// leaves the set unchanged otherwise.
pub fn remove_working_user(list: &mut Vec<String>, name: &str)
    ensures
        names_of(final(list)@) == without_working(names_of(old(list)@), name@),
{
    let ghost pred = keep_other(name@);
    let mut kept: Vec<String> = Vec::new();
    let mut i: usize = 0;
    while i < list.len()
        invariant
            i <= list@.len(),
            *list == *old(list),
            names_of(kept@) == names_of(list@).take(i as int).filter(pred),
            pred == keep_other(name@),
        decreases list@.len() - i,
    {
        let is_name = str_eq(list[i].as_str(), name);
        proof {
            lemma_filter_take_step(names_of(list@), pred, i as int);
            assert(names_of(list@)[i as int] == list@[i as int]@);
        }
        if !is_name {
            kept.push(list[i].clone());
            proof {
                assert(names_of(kept@) =~= names_of(list@).take(i as int).filter(pred).push(
                    names_of(list@)[i as int],
                ));
            }
        }
        i += 1;
    }
    proof {
        assert(names_of(list@).take(list@.len() as int) =~= names_of(list@));
    }
    *list = kept;
}

/// The joined string form of a working set, as stored and displayed:
/// members separated by a comma and a space.
pub open spec fn joined(items: Seq<Seq<char>>) -> Seq<char>
    decreases items.len(),
{
    if items.len() == 0 {
        Seq::empty()
    } else if items.len() == 1 {
        items[0]
    } else {
        joined(items.drop_last()) + ", "@ + items.last()
    }
}

/// Serialises a working set into its joined string form.
pub fn join_working(list: &Vec<String>) -> (r: String)
    ensures
        r@ == joined(names_of(list@)),
{
    let ghost ns = names_of(list@);
    let mut out = String::new();
    let mut i: usize = 0;
    while i < list.len()
        invariant
            i <= list@.len(),
            ns == names_of(list@),
            out@ == joined(ns.take(i as int)),
        decreases list@.len() - i,
    {
        if i > 0 {
            out.append(", ");
        }
        out.append(list[i].as_str());
        proof {
            assert(ns.take(i + 1).drop_last() =~= ns.take(i as int));
            assert(ns.take(i + 1).last() == ns[i as int]);
            if i == 0 {
                assert(out@ =~= joined(ns.take(1)));
            } else {
                assert(out@ =~= joined(ns.take(i as int)) + ", "@ + ns[i as int]);
            }
        }
        i += 1;
    }
    proof {
        assert(ns.take(list@.len() as int) =~= ns);
    }
    out
}

/// Marking a user as working is idempotent: marking twice yields the same
/// working set as marking once.
pub proof fn lemma_mark_working_idempotent(ws: Seq<Seq<char>>, name: Seq<char>)
    ensures
        with_working(with_working(ws, name), name) == with_working(ws, name),
{
    if !working_contains(ws, name) {
        assert(ws.push(name)[ws.len() as int] == name);
        assert(working_contains(ws.push(name), name));
    }
}

/// Clearing a user who is not a member of the working set is a no-op: the
/// set is unchanged and no error arises.
pub proof fn lemma_clear_working_absent_noop(ws: Seq<Seq<char>>, name: Seq<char>)
    requires
        !working_contains(ws, name),
    ensures
        without_working(ws, name) == ws,
    decreases ws.len(),
{
    reveal(Seq::filter);
    let pred = keep_other(name);
    if ws.len() > 0 {
        assert forall|i: int| 0 <= i < ws.drop_last().len() implies ws.drop_last()[i] != name by {
            assert(ws.drop_last()[i] == ws[i]);
        }
        lemma_clear_working_absent_noop(ws.drop_last(), name);
        assert(ws.last() != name);
        assert(ws.drop_last().push(ws.last()) =~= ws);
    }
}

/// Marking a user as working preserves the duplicate-free invariant.
pub proof fn lemma_with_working_distinct(ws: Seq<Seq<char>>, name: Seq<char>)
    requires
        distinct_names(ws),
    ensures
        distinct_names(with_working(ws, name)),
{
    if !working_contains(ws, name) {
        let ws2 = ws.push(name);
        assert forall|i: int, j: int| 0 <= i < j < ws2.len() implies ws2[i] != ws2[j] by {
            if j == ws.len() {
                assert(ws2[i] == ws[i]);
            }
        }
    }
}

proof fn lemma_filter_member(s: Seq<Seq<char>>, pred: spec_fn(Seq<char>) -> bool, x: Seq<char>)
    requires
        s.filter(pred).contains(x),
    ensures
        s.contains(x),
    decreases s.len(),
{
    reveal(Seq::filter);
    if s.len() > 0 {
        if x == s.last() {
            assert(s[s.len() - 1] == x);
        } else {
            lemma_filter_member(s.drop_last(), pred, x);
            let k = choose|k: int| 0 <= k < s.drop_last().len() && s.drop_last()[k] == x;
            assert(s[k] == x);
        }
    }
}

/// Clearing a user preserves the duplicate-free invariant.
pub proof fn lemma_without_working_distinct(ws: Seq<Seq<char>>, name: Seq<char>)
    requires
        distinct_names(ws),
    ensures
        distinct_names(without_working(ws, name)),
    decreases ws.len(),
{
    reveal(Seq::filter);
    let pred = keep_other(name);
    if ws.len() > 0 {
        let dl = ws.drop_last();
        assert(forall|i: int| 0 <= i < dl.len() ==> dl[i] == ws[i]);
        lemma_without_working_distinct(dl, name);
        if pred(ws.last()) {
            broadcast use vstd::seq_lib::group_filter_ensures;

            let sub = dl.filter(pred);
            assert forall|i: int, j: int|
                0 <= i < j < sub.push(ws.last()).len() implies sub.push(ws.last())[i] != sub.push(
                ws.last(),
            )[j] by {
                if j == sub.len() {
                    assert(sub.contains(sub[i]));
                    lemma_filter_member(dl, pred, sub[i]);
                    let k = choose|k: int| 0 <= k < dl.len() && dl[k] == sub[i];
                    assert(ws[k] != ws.last());
                }
            }
        }
    }
}

} // verus!
