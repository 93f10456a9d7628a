//! The matching core of the as-of join: each left key is paired with the
//! greatest right key at or before it (backward strategy). The right keys
//! must be sorted, and this is checked, not assumed.

use vstd::prelude::*;

use crate::error::EngineError;
use crate::error::ErrorKind;
use crate::series::Series;
use crate::value::Val;

verus! {

broadcast use vstd::std_specs::vec::group_vec_axioms;

/// Whether an integer cell is at or before a key under the equality rule.
pub open spec fn key_hits(cell: Val, key: int, allow_eq: bool) -> bool {
    cell is Int && (if allow_eq {
        cell->Int_0 <= key
    } else {
        cell->Int_0 < key
    })
}

/// The last index whose integer key is at or before `key` (strictly
/// before when `allow_eq` is false); a null cell never matches.
pub open spec fn spec_backward_idx(rk: Seq<Val>, key: int, allow_eq: bool) -> Option<int>
    decreases rk,
{
    if rk.len() == 0 {
        None
    } else if key_hits(rk.last(), key, allow_eq) {
        Some(rk.len() - 1)
    } else {
        spec_backward_idx(rk.drop_last(), key, allow_eq)
    }
}

/// Whether the integer cells of a key column never decrease (nulls are
/// ignored for the order).
pub open spec fn int_keys_sorted(rk: Seq<Val>) -> bool {
    forall|i: int, j: int|
        0 <= i < j < rk.len() && (#[trigger] rk[i]) is Int && (#[trigger] rk[j]) is Int
            ==> rk[i]->Int_0 <= rk[j]->Int_0
}

/// The backward as-of law: over a sorted right key column, the matched
/// row's key is the greatest right key at or before the left key, and
/// there is no match exactly when no right key is at or before it.
pub proof fn lemma_backward_match_greatest(rk: Seq<Val>, key: int, allow_eq: bool)
    requires
        int_keys_sorted(rk),
        forall|i: int| 0 <= i < rk.len() ==> (#[trigger] rk[i]) is Int,
    ensures
        match spec_backward_idx(rk, key, allow_eq) {
            Some(j) => {
                &&& 0 <= j < rk.len()
                &&& key_hits(rk[j], key, allow_eq)
                &&& forall|j2: int|
                    0 <= j2 < rk.len() && key_hits(#[trigger] rk[j2], key, allow_eq)
                        ==> rk[j2]->Int_0 <= rk[j]->Int_0
            },
            None => forall|j2: int|
                0 <= j2 < rk.len() ==> !key_hits(#[trigger] rk[j2], key, allow_eq),
        },
    decreases rk,
{
    if rk.len() > 0 {
        if key_hits(rk.last(), key, allow_eq) {
            assert forall|j2: int|
                0 <= j2 < rk.len() && key_hits(#[trigger] rk[j2], key, allow_eq) implies rk[j2]->Int_0
                <= rk[rk.len() - 1]->Int_0 by {
                if j2 < rk.len() - 1 {
                    assert(rk[j2]->Int_0 <= rk[rk.len() - 1]->Int_0);
                }
            }
        } else {
            assert forall|i: int, j: int|
                0 <= i < j < rk.drop_last().len() && (#[trigger] rk.drop_last()[i]) is Int && (
                #[trigger] rk.drop_last()[j]) is Int implies rk.drop_last()[i]->Int_0
                <= rk.drop_last()[j]->Int_0 by {
                assert(rk.drop_last()[i] == rk[i]);
                assert(rk.drop_last()[j] == rk[j]);
            }
            assert forall|i: int| 0 <= i < rk.drop_last().len() implies (
            #[trigger] rk.drop_last()[i]) is Int by {
                assert(rk.drop_last()[i] == rk[i]);
            }
            lemma_backward_match_greatest(rk.drop_last(), key, allow_eq);
            let sub = spec_backward_idx(rk.drop_last(), key, allow_eq);
            if sub is Some {
                assert(rk.drop_last()[sub->0] == rk[sub->0]);
                assert forall|j2: int|
                    0 <= j2 < rk.len() && key_hits(#[trigger] rk[j2], key, allow_eq) implies
                    rk[j2]->Int_0 <= rk[sub->0]->Int_0 by {
                    if j2 < rk.len() - 1 {
                        assert(rk.drop_last()[j2] == rk[j2]);
                    }
                }
            } else {
                assert forall|j2: int| 0 <= j2 < rk.len() implies !key_hits(
                    #[trigger] rk[j2],
                    key,
                    allow_eq,
                ) by {
                    if j2 < rk.len() - 1 {
                        assert(rk.drop_last()[j2] == rk[j2]);
                    }
                }
            }
        }
    }
}

impl Series {
    /// Whether this column's integer cells never decrease.
    #[verifier::loop_isolation(false)]
    pub fn int_cells_sorted(&self) -> (r: bool)
        requires
            self.wf(),
        ensures
            r == int_keys_sorted(self.spec_vals()),
    {
        let n = self.len();
        let mut prev: Option<i64> = None;
        let mut i: usize = 0;
        while i < n
            invariant
                i <= n,
                n == self.spec_vals().len(),
                match prev {
                    Some(p) => exists|q: int|
                        0 <= q < i && (#[trigger] self.spec_vals()[q]) == Val::Int(p as int) && (
                        forall|q2: int|
                            0 <= q2 < i && (#[trigger] self.spec_vals()[q2]) is Int
                                ==> self.spec_vals()[q2]->Int_0 <= p as int),
                    None => forall|q: int|
                        0 <= q < i ==> !((#[trigger] self.spec_vals()[q]) is Int),
                },
                forall|a: int, b: int|
                    0 <= a < b < i && (#[trigger] self.spec_vals()[a]) is Int && (
                    #[trigger] self.spec_vals()[b]) is Int ==> self.spec_vals()[a]->Int_0
                        <= self.spec_vals()[b]->Int_0,
            decreases n - i,
        {
            match self.cell(i) {
                crate::value::AnyVal::Int(v) => {
                    match prev {
                        Some(p) => {
                            if *v < p {
                                proof {
                                    let ghost q = choose|q: int|
                                        0 <= q < i && (#[trigger] self.spec_vals()[q]) == Val::Int(
                                            p as int,
                                        ) && (forall|q2: int|
                                            0 <= q2 < i && (#[trigger] self.spec_vals()[q2]) is Int
                                                ==> self.spec_vals()[q2]->Int_0 <= p as int);
                                    assert(self.spec_vals()[q] == Val::Int(p as int));
                                    assert(self.spec_vals()[i as int] == Val::Int(*v as int));
                                    assert(!int_keys_sorted(self.spec_vals()));
                                }
                                return false;
                            }
                            prev = Some(*v);
                        },
                        None => {
                            prev = Some(*v);
                        },
                    }
                },
                _ => {},
            }
            i = i + 1;
        }
        true
    }

    /// For each left key, the index of the matching right row under the
    /// backward strategy: the last right row whose integer key is at or
    /// before the left key (strictly before when `allow_eq` is false). A
    /// null left key matches nothing. Succeeds exactly when both key
    /// columns are of the signed-integer physical family (the signed
    /// widths and the temporal types) and the right keys are sorted; any
    /// other type is a type error, unsorted right keys a not-sorted error.
    #[verifier::loop_isolation(false)]
    pub fn asof_backward_indices(&self, right: &Series, allow_eq: bool) -> (r: Result<
        Vec<Option<usize>>,
        EngineError,
    >)
        requires
            self.wf(),
            right.wf(),
        ensures
            r is Ok <==> crate::series_ops::is_intlike(self.spec_dtype())
                && crate::series_ops::is_intlike(right.spec_dtype()) && int_keys_sorted(
                right.spec_vals(),
            ),
            match r {
                Ok(idx) => {
                    &&& idx@.len() == self.spec_vals().len()
                    &&& forall|i: int|
                        0 <= i < idx@.len() ==> #[trigger] idx@[i] == (match self.spec_vals()[i] {
                            Val::Int(k) => match spec_backward_idx(
                                right.spec_vals(),
                                k,
                                allow_eq,
                            ) {
                                Some(j) => Some(j as usize),
                                None => None,
                            },
                            _ => None,
                        })
                },
                Err(e) => e.kind() == (if crate::series_ops::is_intlike(self.spec_dtype())
                    && crate::series_ops::is_intlike(right.spec_dtype()) {
                    ErrorKind::NotSorted
                } else {
                    ErrorKind::Type
                }),
            },
    {
        let lk = self.dtype().kind_of();
        let rk2 = right.dtype().kind_of();
        let l_ok = (2 <= lk && lk <= 5) || (13 <= lk && lk <= 16);
        let r_ok = (2 <= rk2 && rk2 <= 5) || (13 <= rk2 && rk2 <= 16);
        proof {
            assert(l_ok == crate::series_ops::is_intlike(self.spec_dtype()));
            assert(r_ok == crate::series_ops::is_intlike(right.spec_dtype()));
        }
        if !(l_ok && r_ok) {
            return Err(EngineError::type_error("as-of keys must be integer-keyed columns"));
        }
        if !right.int_cells_sorted() {
            return Err(EngineError::not_sorted("right as-of keys are not sorted"));
        }
        let n = self.len();
        let rn = right.len();
        let mut out: Vec<Option<usize>> = Vec::new();
        let mut i: usize = 0;
        while i < n
            invariant
                i <= n,
                n == self.spec_vals().len(),
                rn == right.spec_vals().len(),
                self.wf(),
                right.wf(),
                out@.len() == i,
                forall|q: int|
                    0 <= q < i ==> #[trigger] out@[q] == (match self.spec_vals()[q] {
                        Val::Int(k) => match spec_backward_idx(right.spec_vals(), k, allow_eq) {
                            Some(j) => Some(j as usize),
                            None => None,
                        },
                        _ => None,
                    }),
            decreases n - i,
        {
            let entry: Option<usize> = match self.cell(i) {
                crate::value::AnyVal::Int(kref) => {
                    let k = *kref;
                    // scan from the end, mirroring the matching rule
                    let mut j: usize = rn;
                    let mut found: Option<usize> = None;
                    proof {
                        assert(right.spec_vals().take(rn as int) =~= right.spec_vals());
                    }
                    while j > 0 && found.is_none()
                        invariant
                            j <= rn,
                            rn == right.spec_vals().len(),
                            right.wf(),
                            found is None ==> spec_backward_idx(
                                right.spec_vals(),
                                k as int,
                                allow_eq,
                            ) == spec_backward_idx(
                                right.spec_vals().take(j as int),
                                k as int,
                                allow_eq,
                            ),
                            found matches Some(f) ==> spec_backward_idx(
                                right.spec_vals(),
                                k as int,
                                allow_eq,
                            ) == Some(f as int),
                        decreases j, (if found is Some {
                            0int
                        } else {
                            1int
                        }),
                    {
                        proof {
                            let ghost rv = right.spec_vals();
                            assert(rv.take(j as int).drop_last() =~= rv.take(j - 1));
                            assert(rv.take(j as int).last() == rv[j - 1]);
                        }
                        let hit = match right.cell(j - 1) {
                            crate::value::AnyVal::Int(rv) => {
                                if allow_eq {
                                    *rv <= k
                                } else {
                                    *rv < k
                                }
                            },
                            _ => false,
                        };
                        if hit {
                            found = Some(j - 1);
                        } else {
                            j = j - 1;
                        }
                    }
                    proof {
                        if found is None {
                            assert(right.spec_vals().take(0) =~= Seq::<Val>::empty());
                        }
                    }
                    found
                },
                _ => None,
            };
            out.push(entry);
            i = i + 1;
        }
        Ok(out)
    }
}

} // verus!
