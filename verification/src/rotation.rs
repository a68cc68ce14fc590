//! The rotation resolver.
//!
//! Given the ordered participant list of a task and whoever completed it
//! last, the next responsible participant is the one after the completer's
//! first occurrence, wrapping around to the front of the list.  A completer
//! that is missing from the list signals corrupted task state and is reported
//! as a distinct fault, never a crash.

use vstd::prelude::*;

verus! {

/// Fault raised when a recorded completer is absent from the rota.
#[derive(Clone, Copy, PartialEq, Eq, Structural, Debug)]
pub enum RotationError {
    UnknownCompleter,
}

/// Whether `x` occurs in the participant list `ps`.
pub open spec fn rota_contains(ps: Seq<Seq<char>>, x: Seq<char>) -> bool {
    exists|i: int| 0 <= i < ps.len() && ps[i] == x
}

/// Index of the first occurrence of `x` in `ps` (meaningful only when
/// `rota_contains(ps, x)` holds).
pub open spec fn first_index_of(ps: Seq<Seq<char>>, x: Seq<char>) -> int
    decreases ps.len(),
{
    if ps.len() == 0 {
        0
    } else if ps[0] == x {
        0
    } else {
        1 + first_index_of(ps.drop_first(), x)
    }
}

/// The participant after `x` in rotation order: the element following the
/// first occurrence of `x`, or the front of the list when `x` is last.
pub open spec fn successor_of(ps: Seq<Seq<char>>, x: Seq<char>) -> Seq<char> {
    let i = first_index_of(ps, x);
    if i + 1 < ps.len() {
        ps[i + 1]
    } else {
        ps[0]
    }
}

/// The participant before `x` in rotation order: the successor with respect
/// to the reversed list.
pub open spec fn predecessor_of(ps: Seq<Seq<char>>, x: Seq<char>) -> Seq<char> {
    successor_of(ps.reverse(), x)
}

/// Whether no participant name repeats in `ps`.
pub open spec fn distinct_rota(ps: Seq<Seq<char>>) -> bool {
    forall|j: int, k: int| 0 <= j < k < ps.len() ==> ps[j] != ps[k]
}

/// When `x` occurs in `ps`, `first_index_of` names its first occurrence.
pub proof fn lemma_first_index_of(ps: Seq<Seq<char>>, x: Seq<char>)
    requires
        rota_contains(ps, x),
    ensures
        0 <= first_index_of(ps, x) < ps.len(),
        ps[first_index_of(ps, x)] == x,
        forall|j: int| 0 <= j < first_index_of(ps, x) ==> ps[j] != x,
    decreases ps.len(),
{
    if ps.len() == 0 {
        // contradicts rota_contains
    } else if ps[0] == x {
    } else {
        let w = choose|i: int| 0 <= i < ps.len() && ps[i] == x;
        assert(ps.drop_first()[w - 1] == x);
        lemma_first_index_of(ps.drop_first(), x);
        let f = first_index_of(ps.drop_first(), x);
        assert forall|j: int| 0 <= j < 1 + f implies ps[j] != x by {
            if j > 0 {
                assert(ps.drop_first()[j - 1] == ps[j]);
            }
        }
    }
}

/// A list reversal keeps exactly the same members.
pub proof fn lemma_rota_contains_reverse(ps: Seq<Seq<char>>, x: Seq<char>)
    ensures
        rota_contains(ps.reverse(), x) == rota_contains(ps, x),
{
    if rota_contains(ps, x) {
        let i = choose|i: int| 0 <= i < ps.len() && ps[i] == x;
        assert(ps.reverse()[ps.len() - i - 1] == x);
    }
    if rota_contains(ps.reverse(), x) {
        let i = choose|i: int| 0 <= i < ps.reverse().len() && ps.reverse()[i] == x;
        assert(ps[ps.len() - i - 1] == x);
    }
}

/// The successor of a rota member is itself a rota member.
pub proof fn lemma_successor_in_rota(ps: Seq<Seq<char>>, x: Seq<char>)
    requires
        rota_contains(ps, x),
    ensures
        rota_contains(ps, successor_of(ps, x)),
{
    lemma_first_index_of(ps, x);
    let i = first_index_of(ps, x);
    if i + 1 < ps.len() {
        assert(ps[i + 1] == successor_of(ps, x));
    } else {
        assert(ps[0] == successor_of(ps, x));
    }
}

/// Wrap-around law of the rotation: in a duplicate-free list, the successor
/// of the element at `i` is the element at `i + 1`, or the front of the list
/// when `i` is the last position.  A singleton list rotates to itself.
pub proof fn lemma_rota_wrap_around(ps: Seq<Seq<char>>, i: int)
    requires
        0 <= i < ps.len(),
        distinct_rota(ps),
    ensures
        successor_of(ps, ps[i]) == (if i + 1 < ps.len() {
            ps[i + 1]
        } else {
            ps[0]
        }),
{
    assert(rota_contains(ps, ps[i]));
    lemma_first_index_of(ps, ps[i]);
    let f = first_index_of(ps, ps[i]);
    if f < i {
        assert(ps[f] == ps[i]);
        assert(false);
    }
    if f > i {
        assert(ps[i] != ps[i]);
        assert(false);
    }
}

/// In particular, the single member of a one-element rota is its own
/// successor.
pub proof fn lemma_rota_singleton(p: Seq<char>)
    ensures
        successor_of(seq![p], p) == p,
{
    lemma_rota_wrap_around(seq![p], 0);
}

/// Creation law: attributing a task's synthesized first completion to the
/// rotation predecessor of a participant hands the task to that participant
/// — in a duplicate-free rota, the successor of the predecessor of a member
/// is the member itself.
pub proof fn lemma_predecessor_rotates_back(ps: Seq<Seq<char>>, i: int)
    requires
        0 <= i < ps.len(),
        distinct_rota(ps),
    ensures
        successor_of(ps, predecessor_of(ps, ps[i])) == ps[i],
{
    let n = ps.len() as int;
    let r = ps.reverse();
    assert forall|j: int, k: int| 0 <= j < k < r.len() implies r[j] != r[k] by {
        assert(r[j] == ps[n - 1 - j]);
        assert(r[k] == ps[n - 1 - k]);
    }
    assert(r[n - 1 - i] == ps[i]);
    lemma_rota_wrap_around(r, n - 1 - i);
    if i > 0 {
        assert(predecessor_of(ps, ps[i]) == r[n - i]);
        assert(r[n - i] == ps[i - 1]);
        lemma_rota_wrap_around(ps, i - 1);
    } else {
        assert(predecessor_of(ps, ps[i]) == r[0]);
        assert(r[0] == ps[n - 1]);
        lemma_rota_wrap_around(ps, n - 1);
    }
}

/// Resolves who is responsible for a task after `last_completed_by` finished
/// it: the next participant in order, wrapping around at the end of the list.
/// A completer outside the list is reported as a fault, since stored task
/// state guarantees membership.
pub fn next_assignee<'a>(participants: &'a Vec<String>, last_completed_by: &String) -> (r: Result<
    &'a String,
    RotationError,
>)
    ensures
        match r {
            Ok(name) => {
                &&& rota_contains(participants.deep_view(), last_completed_by@)
                &&& name@ == successor_of(participants.deep_view(), last_completed_by@)
            },
            Err(e) => {
                &&& e == RotationError::UnknownCompleter
                &&& !rota_contains(participants.deep_view(), last_completed_by@)
            },
        },
{
    let ghost ps = participants.deep_view();
    let n = participants.len();
    let mut i: usize = 0;
    while i < n
        invariant
            n == participants.len(),
            ps == participants.deep_view(),
            i <= n,
            forall|j: int| 0 <= j < i ==> ps[j] != last_completed_by@,
        decreases n - i,
    {
        if participants[i] == *last_completed_by {
            proof {
                assert(ps[i as int] == last_completed_by@);
                lemma_first_index_of(ps, last_completed_by@);
                let f = first_index_of(ps, last_completed_by@);
                assert(f == i) by {
                    if f < i {
                        assert(ps[f] != last_completed_by@);
                    }
                    if f > i {
                        assert(ps[i as int] != last_completed_by@);
                    }
                }
            }
            if i + 1 < n {
                return Ok(&participants[i + 1]);
            } else {
                return Ok(&participants[0]);
            }
        }
        i = i + 1;
    }
    Err(RotationError::UnknownCompleter)
}

} // verus!
