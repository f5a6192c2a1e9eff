//! Clauses over integer literals, as a SAT solver reads them, and what it means
//! for an assignment to satisfy them.
use vstd::prelude::*;

verus! {

/// An assignment gives each variable `v >= 1` a truth value.
pub type Assignment = spec_fn(int) -> bool;

/// Literal `v > 0` is true when `v` is; `-v` when `v` is false; 0 is never true.
pub open spec fn lit_holds(a: Assignment, lit: int) -> bool {
    if lit > 0 {
        a(lit)
    } else if lit < 0 {
        !a(-lit)
    } else {
        false
    }
}

/// A clause holds when one of its literals does.
pub open spec fn clause_holds(a: Assignment, clause: Seq<i32>) -> bool {
    exists|i: int| 0 <= i < clause.len() && #[trigger] lit_holds(a, clause[i] as int)
}

/// Every clause of `clauses` holds under `a`.
pub open spec fn all_hold(a: Assignment, clauses: Seq<Seq<i32>>) -> bool {
    forall|i: int| 0 <= i < clauses.len() ==> #[trigger] clause_holds(a, clauses[i])
}

/// No assignment satisfies `clauses`.
pub open spec fn unsatisfiable(clauses: Seq<Seq<i32>>) -> bool {
    forall|a: Assignment| !#[trigger] all_hold(a, clauses)
}

/// No literal is `i32::MIN` (whose absolute value `splr` takes).
pub open spec fn literals_in_range(clauses: Seq<Seq<i32>>) -> bool {
    forall|c: int, i: int|
        0 <= c < clauses.len() && 0 <= i < clauses[c].len() ==> #[trigger] clauses[c][i] > i32::MIN
}

/// Two clause lists have literals in range when each has.
pub proof fn lemma_literals_concat(s1: Seq<Seq<i32>>, s2: Seq<Seq<i32>>)
    ensures
        literals_in_range(s1 + s2) == (literals_in_range(s1) && literals_in_range(s2)),
{
    if literals_in_range(s1 + s2) {
        assert forall|c: int, i: int| 0 <= c < s1.len() && 0 <= i < s1[c].len() implies #[trigger] s1[c][i]
            > i32::MIN by {
            assert((s1 + s2)[c] == s1[c]);
        }
        assert forall|c: int, i: int| 0 <= c < s2.len() && 0 <= i < s2[c].len() implies #[trigger] s2[c][i]
            > i32::MIN by {
            assert((s1 + s2)[s1.len() + c] == s2[c]);
        }
    }
    if literals_in_range(s1) && literals_in_range(s2) {
        assert forall|c: int, i: int|
            0 <= c < (s1 + s2).len() && 0 <= i < (s1 + s2)[c].len() implies #[trigger] (s1 + s2)[c][i]
            > i32::MIN by {
            if c < s1.len() {
                assert((s1 + s2)[c] == s1[c]);
            } else {
                assert((s1 + s2)[c] == s2[c - s1.len()]);
            }
        }
    }
}

/// A conjunction of two clause lists holds when each does.
pub proof fn lemma_all_hold_concat(a: Assignment, s1: Seq<Seq<i32>>, s2: Seq<Seq<i32>>)
    ensures
        all_hold(a, s1 + s2) == (all_hold(a, s1) && all_hold(a, s2)),
{
    if all_hold(a, s1 + s2) {
        assert forall|i: int| 0 <= i < s1.len() implies #[trigger] clause_holds(a, s1[i]) by {
            assert((s1 + s2)[i] == s1[i]);
        }
        assert forall|i: int| 0 <= i < s2.len() implies #[trigger] clause_holds(a, s2[i]) by {
            assert((s1 + s2)[s1.len() + i] == s2[i]);
        }
    }
    if all_hold(a, s1) && all_hold(a, s2) {
        assert forall|i: int| 0 <= i < (s1 + s2).len() implies #[trigger] clause_holds(
            a,
            (s1 + s2)[i],
        ) by {
            if i < s1.len() {
                assert((s1 + s2)[i] == s1[i]);
            } else {
                assert((s1 + s2)[i] == s2[i - s1.len()]);
            }
        }
    }
}

} // verus!
