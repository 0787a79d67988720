//! Heap's algorithm as a recursive definition, the facts about it that make
//! its output a list of all orders of the input (the arrangement each run
//! leaves behind, and the element each round of a run brings to the last
//! place), and the link between that definition and the counter-driven loop
//! that computes it.
use vstd::prelude::*;

verus! {

/// `s` with the elements at `a` and `b` exchanged.
pub open spec fn swap(s: Seq<u32>, a: int, b: int) -> Seq<u32> {
    s.update(a, s[b]).update(b, s[a])
}

/// The exchange Heap's algorithm makes before round `j + 1` of a run on the
/// first `k` places: with `k` even, places `j` and `k - 1`; with `k` odd,
/// places `0` and `k - 1`.
pub open spec fn heap_swap(k: nat, s: Seq<u32>, j: int) -> Seq<u32> {
    if k % 2 == 0 {
        swap(s, j, k - 1)
    } else {
        swap(s, 0, k - 1)
    }
}

/// A run of Heap's algorithm on the first `k` places of `s`: the arrangements
/// it reports, in order, and the arrangement it leaves behind.
pub open spec fn heap_run(k: nat, s: Seq<u32>) -> (Seq<Seq<u32>>, Seq<u32>)
    decreases k, 1int, 0int,
{
    if k <= 1 {
        (seq![s], s)
    } else {
        heap_rounds(k, s, k - 1)
    }
}

/// A run on the first `k` places after its first `j + 1` rounds: a run on
/// the first `k - 1` places, then `j` times an exchange followed by such a run.
pub open spec fn heap_rounds(k: nat, s: Seq<u32>, j: int) -> (Seq<Seq<u32>>, Seq<u32>)
    decreases k, 0int, j,
{
    if k == 0 {
        (seq![s], s)
    } else if j <= 0 {
        heap_run((k - 1) as nat, s)
    } else {
        let prev = heap_rounds(k, s, j - 1);
        let next = heap_run((k - 1) as nat, heap_swap(k, prev.1, j - 1));
        (prev.0 + next.0, next.1)
    }
}

/// `s` rearranged so that place `p` holds what `s` held at `f(p)`, for the
/// arrangement `f` picks by `(k, j)` as `arrangement_index` says.
pub open spec fn arranged(s: Seq<u32>, k: int, j: int) -> Seq<u32> {
    Seq::new(s.len(), |p: int| s[arrangement_index(k, j, p)])
}

/// Where a run on `k` places, `k` even, takes each element from.
pub open spec fn even_final_index(k: int, p: int) -> int {
    if k == 2 {
        if p == 0 {
            1
        } else if p == 1 {
            0
        } else {
            p
        }
    } else if p == 0 {
        k - 3
    } else if p == 1 {
        k - 2
    } else if 2 <= p <= k - 3 {
        p - 1
    } else if p == k - 2 {
        k - 1
    } else if p == k - 1 {
        0
    } else {
        p
    }
}

/// Where a run on `k` places, `k` odd, takes each element from: the first
/// and the `k`-th exchanged.
pub open spec fn odd_final_index(k: int, p: int) -> int {
    if p == 0 {
        k - 1
    } else if p == k - 1 {
        0
    } else {
        p
    }
}

/// Where a run on `k` places takes each element from.
pub open spec fn final_index(k: int, p: int) -> int {
    if k % 2 == 1 {
        odd_final_index(k, p)
    } else {
        even_final_index(k, p)
    }
}

/// The order in which the rounds of a run on `m + 1` places, `m` even, visit
/// the places: reversing `1..=m-3` and keeping the others.
pub open spec fn visit_order(m: int, p: int) -> int {
    if 1 <= p <= m - 3 {
        m - 2 - p
    } else {
        p
    }
}

/// Where the arrangement after `j + 1` rounds of a run on `k` places, `k`
/// even, takes each element from.
pub open spec fn even_round_index(k: int, j: int, p: int) -> int {
    let m = k - 1;
    if p >= k {
        p
    } else if j == 0 {
        odd_final_index(m, p)
    } else if j == 1 {
        if p == m - 1 {
            m
        } else if p == m {
            m - 1
        } else {
            p
        }
    } else if j <= m - 1 {
        if p == 0 {
            if j % 2 == 1 {
                0
            } else {
                m
            }
        } else if p == 1 {
            m - 1
        } else if p <= j - 1 {
            p - 1
        } else if p <= m - 2 {
            p
        } else if p == m - 1 {
            if j % 2 == 1 {
                m
            } else {
                0
            }
        } else {
            j - 1
        }
    } else {
        even_final_index(k, p)
    }
}

/// Where the arrangement after `j + 1` rounds of a run on `k` places, `k`
/// odd and at least 3, takes each element from.
pub open spec fn odd_round_index(k: int, j: int, p: int) -> int {
    let m = k - 1;
    if p >= k {
        p
    } else {
        even_final_index(m, visit_order(m, (visit_order(m, p) + j) % k))
    }
}

/// Where the arrangement after `j + 1` rounds of a run on `k` places takes
/// each element from.
pub open spec fn arrangement_index(k: int, j: int, p: int) -> int {
    if k % 2 == 0 {
        even_round_index(k, j, p)
    } else {
        odd_round_index(k, j, p)
    }
}

/// The arrangement a run leaves: place `p` holds what `s` held at `final_index(k, p)`.
pub proof fn lemma_run_final(k: nat, s: Seq<u32>)
    requires
        1 <= k <= s.len(),
    ensures
        heap_run(k, s).1 =~= Seq::new(s.len(), |p: int| s[final_index(k as int, p)]),
    decreases k, 1int, 0int,
{
    if k == 1 {
        assert(heap_run(k, s).1 =~= Seq::new(s.len(), |p: int| s[final_index(k as int, p)]));
    } else {
        lemma_rounds_state(k, s, k - 1);
        assert forall|p: int| 0 <= p < s.len() implies arrangement_index(k as int, k - 1, p)
            == final_index(k as int, p) by {
            if k % 2 == 1 && p < k {
                let m = k - 1;
                let o = visit_order(m as int, p);
                if o == 0 {
                    vstd::arithmetic::div_mod::lemma_small_mod(m as nat, k as nat);
                    assert((o + m) % (k as int) == m);
                } else {
                    vstd::arithmetic::div_mod::lemma_mod_add_multiples_vanish(o - 1, k as int);
                    vstd::arithmetic::div_mod::lemma_small_mod((o - 1) as nat, k as nat);
                    assert((o + m) % (k as int) == o - 1);
                }
            }
        }
    }
}

/// The arrangement after `j + 1` rounds of a run on `k` places.
pub proof fn lemma_rounds_state(k: nat, s: Seq<u32>, j: int)
    requires
        2 <= k <= s.len(),
        0 <= j <= k - 1,
    ensures
        heap_rounds(k, s, j).1 =~= arranged(s, k as int, j),
    decreases k, 0int, j,
{
    let m = (k - 1) as nat;
    if j == 0 {
        lemma_run_final(m, s);
        if k % 2 == 1 {
            assert forall|p: int| 0 <= p < s.len() implies arrangement_index(k as int, 0, p)
                == final_index(m as int, p) by {
                if p < k {
                    vstd::arithmetic::div_mod::lemma_small_mod(
                        visit_order(m as int, p) as nat,
                        k as nat,
                    );
                    assert((visit_order(m as int, p) + 0) % (k as int) == visit_order(m as int, p));
                }
            }
        }
    } else {
        lemma_rounds_state(k, s, j - 1);
        let a = heap_rounds(k, s, j - 1).1;
        let b = heap_swap(k, a, j - 1);
        lemma_run_final(m, b);
        assert forall|p: int| 0 <= p < s.len() implies #[trigger] heap_rounds(k, s, j).1[p]
            == s[arrangement_index(k as int, j, p)] by {
            if k % 2 == 1 && p < k {
                let q = final_index(m as int, p);
                let r = if q == 0 {
                    m as int
                } else if q == m {
                    0
                } else {
                    q
                };
                let o = visit_order(m as int, p);
                let o2 = visit_order(m as int, r);
                if p == m {
                    vstd::arithmetic::div_mod::lemma_mod_add_multiples_vanish(j - 1, k as int);
                }
            }
        }
    }
}

/// `x` holds the elements of `s`, the first `k` possibly in another order,
/// the others in place.
pub open spec fn rearranged(x: Seq<u32>, s: Seq<u32>, k: int) -> bool {
    &&& x.len() == s.len()
    &&& 0 <= k <= s.len()
    &&& x.take(k).to_multiset() =~= s.take(k).to_multiset()
    &&& forall|p: int| k <= p < s.len() ==> x[p] == s[p]
}

/// Every sequence is a rearrangement of itself.
proof fn lemma_rearranged_refl(s: Seq<u32>, k: int)
    requires
        0 <= k <= s.len(),
    ensures
        rearranged(s, s, k),
{
}

/// Rearrangements compose.
proof fn lemma_rearranged_trans(x: Seq<u32>, y: Seq<u32>, s: Seq<u32>, k: int)
    requires
        rearranged(x, y, k),
        rearranged(y, s, k),
    ensures
        rearranged(x, s, k),
{
}

/// A rearrangement of the first `k` places is one of the first `k2 >= k` places.
proof fn lemma_rearranged_widen(x: Seq<u32>, s: Seq<u32>, k: int, k2: int)
    requires
        rearranged(x, s, k),
        k <= k2 <= s.len(),
    ensures
        rearranged(x, s, k2),
{
    assert(x.take(k2) =~= x.take(k) + x.subrange(k, k2));
    assert(s.take(k2) =~= s.take(k) + s.subrange(k, k2));
    assert(x.subrange(k, k2) =~= s.subrange(k, k2));
    vstd::seq_lib::lemma_multiset_commutative(x.take(k), x.subrange(k, k2));
    vstd::seq_lib::lemma_multiset_commutative(s.take(k), s.subrange(k, k2));
}

/// An exchange of two of the first `k` places rearranges them.
proof fn lemma_swap_rearranges(x: Seq<u32>, a: int, b: int, k: int)
    requires
        0 <= a < k,
        0 <= b < k,
        k <= x.len(),
    ensures
        rearranged(swap(x, a, b), x, k),
{
    broadcast use vstd::multiset::group_multiset_axioms, vstd::seq_lib::group_to_multiset_ensures;

    let t = x.take(k);
    assert(swap(x, a, b).take(k) =~= t.update(a, t[b]).update(b, t[a]));
    let t1 = t.update(a, t[b]);
    vstd::seq_lib::to_multiset_update(t, a, t[b]);
    vstd::seq_lib::to_multiset_update(t1, b, t[a]);
    if a == b {
        assert(t1.update(b, t[a]) =~= t);
    } else {
        assert(t1[b] == t[b]);
        assert(t.contains(t[a]));
        assert(t1.contains(t1[b]));
        let m = t.to_multiset();
        let m2 = t1.update(b, t[a]).to_multiset();
        assert(m.count(t[a]) >= 1);
        assert(t1.to_multiset().count(t[b]) >= 1);
        assert forall|v: u32| m2.count(v) == m.count(v) by {
        }
        assert(m2 =~= m);
    }
}

/// Rearranging keeps the first `k` places free of repeated elements.
proof fn lemma_rearranged_no_duplicates(x: Seq<u32>, s: Seq<u32>, k: int, k2: int)
    requires
        rearranged(x, s, k),
        s.take(k).no_duplicates(),
        0 <= k2 <= k,
    ensures
        x.take(k2).no_duplicates(),
{
    broadcast use vstd::multiset::group_multiset_axioms;

    s.take(k).lemma_multiset_has_no_duplicates();
    x.take(k).lemma_multiset_has_no_duplicates_conv();
    assert forall|i: int, j: int| 0 <= i < k2 && 0 <= j < k2 && i != j implies x.take(k2)[i]
        != x.take(k2)[j] by {
        assert(x.take(k2)[i] == x.take(k)[i]);
        assert(x.take(k2)[j] == x.take(k)[j]);
    }
}

/// The place whose element a round of a run on `k` places moves to place
/// `k - 1`, before the run on `k - 1` places of round `b + 1`; for the first
/// round, the element already there.
pub open spec fn last_index(k: int, b: int) -> int {
    if b == 0 {
        k - 1
    } else if k % 2 == 0 {
        arrangement_index(k, b - 1, b - 1)
    } else {
        arrangement_index(k, b - 1, 0)
    }
}

/// `visit_order` is its own inverse on `0..=m` and keeps `m` in place.
proof fn lemma_visit_order(m: int)
    requires
        m >= 2,
    ensures
        forall|p: int| 0 <= p <= m ==> 0 <= #[trigger] visit_order(m, p) <= m,
        forall|p: int| 0 <= p <= m ==> visit_order(m, #[trigger] visit_order(m, p)) == p,
        forall|p: int| 0 <= p < m ==> #[trigger] visit_order(m, p) < m,
{
}

/// A run on `m` places, `m` even, takes the elements of places `0..m` from
/// distinct places of `0..m`.
proof fn lemma_even_final_injective(m: int)
    requires
        m >= 2,
        m % 2 == 0,
    ensures
        forall|p: int| 0 <= p < m ==> 0 <= #[trigger] even_final_index(m, p) < m,
        forall|p1: int, p2: int|
            0 <= p1 < m && 0 <= p2 < m && p1 != p2 ==> #[trigger] even_final_index(m, p1)
                != #[trigger] even_final_index(m, p2),
{
}

/// The rounds of a run on `k` places bring distinct places' elements to place `k - 1`.
proof fn lemma_last_index_injective(k: int)
    requires
        k >= 2,
    ensures
        forall|b: int| 0 <= b < k ==> 0 <= #[trigger] last_index(k, b) < k,
        forall|b1: int, b2: int|
            0 <= b1 < k && 0 <= b2 < k && b1 != b2 ==> #[trigger] last_index(k, b1)
                != #[trigger] last_index(k, b2),
{
    if k % 2 == 1 {
        let m = k - 1;
        lemma_visit_order(m);
        lemma_even_final_injective(m);
        assert forall|b: int| 1 <= b < k implies #[trigger] last_index(k, b) == even_final_index(
            m,
            visit_order(m, b - 1),
        ) by {
            vstd::arithmetic::div_mod::lemma_small_mod((b - 1) as nat, k as nat);
            assert((visit_order(m, 0) + (b - 1)) % k == b - 1);
        }
        assert forall|b1: int, b2: int|
            0 <= b1 < k && 0 <= b2 < k && b1 != b2 implies #[trigger] last_index(k, b1)
            != #[trigger] last_index(k, b2) by {
            if b1 >= 1 && b2 >= 1 {
                assert(visit_order(m, b1 - 1) != visit_order(m, b2 - 1)) by {
                    if visit_order(m, b1 - 1) == visit_order(m, b2 - 1) {
                        assert(visit_order(m, visit_order(m, b1 - 1)) == b1 - 1);
                        assert(visit_order(m, visit_order(m, b2 - 1)) == b2 - 1);
                    }
                }
            }
        }
    }
}

/// `n!`.
pub open spec fn factorial(n: nat) -> nat
    decreases n,
{
    if n == 0 {
        1
    } else {
        n * factorial((n - 1) as nat)
    }
}

/// `n!` is positive.
pub proof fn lemma_factorial_positive(n: nat)
    ensures
        factorial(n) >= 1,
    decreases n,
{
    if n > 0 {
        lemma_factorial_positive((n - 1) as nat);
        vstd::arithmetic::mul::lemma_mul_inequality(1, n as int, factorial((n - 1) as nat) as int);
    }
}

/// The element at place `k - 1` of `o` is one that one of the first `j + 1`
/// rounds of a run on `k` places brought there.
pub open spec fn from_round(o: Seq<u32>, s: Seq<u32>, k: int, j: int) -> bool {
    exists|b: int| 0 <= b <= j && o[k - 1] == s[#[trigger] last_index(k, b)]
}

/// What a run on the first `k` places of `s` reports: `k!` arrangements, the
/// first of them `s`, each a rearrangement of the first `k` places, and no
/// two alike when those places hold distinct elements; it also leaves a
/// rearrangement behind.
pub proof fn lemma_run_outputs(k: nat, s: Seq<u32>)
    requires
        1 <= k <= s.len(),
    ensures
        heap_run(k, s).0.len() == factorial(k),
        heap_run(k, s).0[0] == s,
        rearranged(heap_run(k, s).1, s, k as int),
        forall|i: int|
            0 <= i < heap_run(k, s).0.len() ==> rearranged(#[trigger] heap_run(k, s).0[i], s, k as int),
        s.take(k as int).no_duplicates() ==> forall|i: int, j: int|
            0 <= i < j < heap_run(k, s).0.len() ==> #[trigger] heap_run(k, s).0[i] != #[trigger] heap_run(
                k,
                s,
            ).0[j],
    decreases k, 1int, 0int,
{
    if k == 1 {
        lemma_rearranged_refl(s, 1);
        assert(factorial(1) == 1 * factorial(0));
    } else {
        lemma_rounds_outputs(k, s, k - 1);
        let f = factorial((k - 1) as nat);
        assert(factorial(k) == k * f);
        assert((k - 1 + 1) * f == k * f);
    }
}

/// What the first `j + 1` rounds of a run on `k` places report.
pub proof fn lemma_rounds_outputs(k: nat, s: Seq<u32>, j: int)
    requires
        2 <= k <= s.len(),
        0 <= j <= k - 1,
    ensures
        heap_rounds(k, s, j).0.len() == (j + 1) * factorial((k - 1) as nat),
        heap_rounds(k, s, j).0[0] == s,
        rearranged(heap_rounds(k, s, j).1, s, k as int),
        forall|i: int|
            0 <= i < heap_rounds(k, s, j).0.len() ==> rearranged(
                #[trigger] heap_rounds(k, s, j).0[i],
                s,
                k as int,
            ),
        forall|i: int|
            0 <= i < heap_rounds(k, s, j).0.len() ==> from_round(
                #[trigger] heap_rounds(k, s, j).0[i],
                s,
                k as int,
                j,
            ),
        s.take(k as int).no_duplicates() ==> forall|i1: int, i2: int|
            0 <= i1 < i2 < heap_rounds(k, s, j).0.len() ==> #[trigger] heap_rounds(k, s, j).0[i1]
                != #[trigger] heap_rounds(k, s, j).0[i2],
    decreases k, 0int, j,
{
    let m = (k - 1) as nat;
    let outs = heap_rounds(k, s, j).0;
    lemma_factorial_positive(m);
    if j == 0 {
        lemma_run_outputs(m, s);
        lemma_rearranged_widen(heap_run(m, s).1, s, m as int, k as int);
        assert forall|i: int| 0 <= i < outs.len() implies rearranged(#[trigger] outs[i], s, k as int)
            && from_round(outs[i], s, k as int, j) by {
            lemma_rearranged_widen(outs[i], s, m as int, k as int);
            assert(outs[i][k - 1] == s[last_index(k as int, 0)]);
        }
        if s.take(k as int).no_duplicates() {
            lemma_rearranged_refl(s, k as int);
            lemma_rearranged_no_duplicates(s, s, k as int, m as int);
        }
    } else {
        lemma_rounds_outputs(k, s, j - 1);
        lemma_rounds_state(k, s, j - 1);
        let prev = heap_rounds(k, s, j - 1);
        let a = prev.1;
        let b = heap_swap(k, a, j - 1);
        let next = heap_run(m, b);
        lemma_run_outputs(m, b);
        if k % 2 == 0 {
            lemma_swap_rearranges(a, j - 1, k - 1, k as int);
        } else {
            lemma_swap_rearranges(a, 0, k - 1, k as int);
        }
        lemma_rearranged_trans(b, a, s, k as int);
        assert(b[k - 1] == s[last_index(k as int, j)]);
        lemma_rearranged_widen(next.1, b, m as int, k as int);
        lemma_rearranged_trans(next.1, b, s, k as int);
        assert(outs == prev.0 + next.0);
        let f = factorial(m);
        assert((j + 1) * f == j * f + f) by (nonlinear_arith);
        assert(j * f >= 1) by (nonlinear_arith)
            requires
                j >= 1,
                f >= 1,
        ;
        assert(outs[0] == prev.0[0]);
        assert forall|i: int| 0 <= i < outs.len() implies rearranged(#[trigger] outs[i], s, k as int)
            && from_round(outs[i], s, k as int, j) by {
            if i < prev.0.len() {
                assert(outs[i] == prev.0[i]);
                assert(from_round(prev.0[i], s, k as int, j - 1));
                let bb = choose|bb: int|
                    0 <= bb <= j - 1 && prev.0[i][k - 1] == s[#[trigger] last_index(k as int, bb)];
                assert(0 <= bb <= j && outs[i][k - 1] == s[last_index(k as int, bb)]);
            } else {
                let t = i - prev.0.len();
                assert(outs[i] == next.0[t]);
                lemma_rearranged_widen(next.0[t], b, m as int, k as int);
                lemma_rearranged_trans(next.0[t], b, s, k as int);
                assert(outs[i][k - 1] == s[last_index(k as int, j)]);
            }
        }
        if s.take(k as int).no_duplicates() {
            lemma_rearranged_no_duplicates(b, s, k as int, m as int);
            lemma_last_index_injective(k as int);
            assert forall|i1: int, i2: int| 0 <= i1 < i2 < outs.len() implies #[trigger] outs[i1]
                != #[trigger] outs[i2] by {
                if i2 < prev.0.len() {
                    assert(outs[i1] == prev.0[i1]);
                    assert(outs[i2] == prev.0[i2]);
                } else if i1 >= prev.0.len() {
                    assert(outs[i1] == next.0[i1 - prev.0.len()]);
                    assert(outs[i2] == next.0[i2 - prev.0.len()]);
                } else {
                    assert(outs[i1] == prev.0[i1]);
                    assert(from_round(prev.0[i1], s, k as int, j - 1));
                    let bb = choose|bb: int|
                        0 <= bb <= j - 1 && prev.0[i1][k - 1] == s[#[trigger] last_index(
                            k as int,
                            bb,
                        )];
                    let t = i2 - prev.0.len();
                    assert(outs[i2] == next.0[t]);
                    assert(outs[i2][k - 1] == s[last_index(k as int, j)]);
                    assert(last_index(k as int, bb) != last_index(k as int, j));
                    assert(s.take(k as int)[last_index(k as int, bb)] == s[last_index(k as int, bb)]);
                    assert(s.take(k as int)[last_index(k as int, j)] == s[last_index(k as int, j)]);
                    assert(outs[i1][k - 1] != outs[i2][k - 1]);
                }
            }
        }
    }
}

/// What the counter-driven form of Heap's algorithm reports from the state
/// `(a, c, i)`: `a` the arrangement, `c` one counter per place, `i` the place
/// it looks at, `n` the number of places. With `c[i] < i` it exchanges as
/// round `c[i] + 1` of a run on `i + 1` places does, reports, and carries out
/// the run on the first `i` places that follows; otherwise it resets `c[i]`
/// and moves on to place `i + 1`.
pub open spec fn counter_rest(a: Seq<u32>, c: Seq<usize>, i: int, n: int) -> Seq<Seq<u32>>
    decreases n - i, i - c[i],
{
    if i < 0 || i >= n || i >= c.len() || c[i] > i || c[i] >= usize::MAX {
        seq![]
    } else if c[i] < i {
        let a1 = heap_swap((i + 1) as nat, a, c[i] as int);
        let run = heap_run(i as nat, a1);
        run.0 + counter_rest(run.1, c.update(i, (c[i] + 1) as usize), i, n)
    } else {
        counter_rest(a, c.update(i, 0), i + 1, n)
    }
}

/// Counters that are zero below place `i` and at most their place everywhere.
pub open spec fn counters_ok(c: Seq<usize>, i: int, n: int) -> bool {
    &&& c.len() == n
    &&& forall|j: int| 0 <= j < i ==> c[j] == 0
    &&& forall|j: int| 0 <= j < n ==> c[j] <= j
}

/// With counter `c[i] = r`, the rest of the rounds of the run on `i + 1`
/// places, then the move on to place `i + 1`.
proof fn lemma_counter_rounds(a: Seq<u32>, c: Seq<usize>, i: int, n: int, r: int)
    requires
        0 <= r <= i < n <= a.len(),
        n <= usize::MAX,
        counters_ok(c, i, n),
        c[i] == r,
    ensures
        heap_rounds((i + 1) as nat, a, r).0 + counter_rest(
            heap_rounds((i + 1) as nat, a, r).1,
            c,
            i,
            n,
        ) == heap_rounds((i + 1) as nat, a, i).0 + counter_rest(
            heap_rounds((i + 1) as nat, a, i).1,
            c.update(i, 0),
            i + 1,
            n,
        ),
    decreases i - r,
{
    let k = (i + 1) as nat;
    let y = heap_rounds(k, a, r);
    if r == i {
        assert(counter_rest(y.1, c, i, n) == counter_rest(y.1, c.update(i, 0), i + 1, n));
    } else {
        let c2 = c.update(i, (r + 1) as usize);
        lemma_counter_rounds(a, c2, i, n, r + 1);
        let sw = heap_swap(k, y.1, r);
        let run = heap_run(i as nat, sw);
        assert(heap_rounds(k, a, r + 1).0 == y.0 + run.0);
        assert(heap_rounds(k, a, r + 1).1 == run.1);
        assert(counter_rest(y.1, c, i, n) == run.0 + counter_rest(run.1, c2, i, n));
        assert(c2.update(i, 0) =~= c.update(i, 0));
        assert(y.0 + (run.0 + counter_rest(run.1, c2, i, n)) =~= (y.0 + run.0) + counter_rest(
            run.1,
            c2,
            i,
            n,
        ));
    }
}

/// From place 0, with the counters below place `i` zero, the counter-driven
/// form carries out a run on the first `i` places (its first report aside)
/// and arrives at place `i`.
pub proof fn lemma_counter_run(a: Seq<u32>, c: Seq<usize>, i: int, n: int)
    requires
        0 <= i <= n <= a.len(),
        n <= usize::MAX,
        counters_ok(c, i, n),
    ensures
        counter_rest(a, c, 0, n) == heap_run(i as nat, a).0.drop_first() + counter_rest(
            heap_run(i as nat, a).1,
            c,
            i,
            n,
        ),
    decreases i,
{
    if i == 0 {
        assert(heap_run(0, a).0.drop_first() =~= Seq::<Seq<u32>>::empty());
    } else {
        let p = i - 1;
        lemma_counter_run(a, c, p, n);
        let k = i as nat;
        assert(heap_rounds(k, a, 0) == heap_run(p as nat, a));
        lemma_counter_rounds(a, c, p, n, 0);
        assert(c.update(p, 0) =~= c);
        lemma_run_outputs(k, a);
        lemma_factorial_positive(k);
        if i >= 2 {
            lemma_run_outputs(p as nat, a);
            lemma_factorial_positive(p as nat);
        }
        let first = heap_run(p as nat, a);
        let whole = heap_run(k, a);
        assert(whole == heap_rounds(k, a, p));
        assert(first.0.len() >= 1);
        assert((first.0 + counter_rest(first.1, c, p, n)).drop_first() =~= first.0.drop_first()
            + counter_rest(first.1, c, p, n));
        assert((whole.0 + counter_rest(whole.1, c, i, n)).drop_first() =~= whole.0.drop_first()
            + counter_rest(whole.1, c, i, n));
    }
}

/// The place a run on `m` places, `m` even, takes the element of place `q`
/// to: the inverse of `even_final_index(m, _)` on `0..m`.
pub open spec fn even_final_inverse(m: int, q: int) -> int {
    if m == 2 {
        if q == 0 {
            1
        } else {
            0
        }
    } else if q == m - 3 {
        0
    } else if q == m - 2 {
        1
    } else if 1 <= q <= m - 4 {
        q + 1
    } else if q == m - 1 {
        m - 2
    } else {
        m - 1
    }
}

/// Every one of the first `k` places has its element brought to place
/// `k - 1` by some round of a run on `k` places.
proof fn lemma_last_index_onto(k: int, q: int)
    requires
        k >= 2,
        0 <= q < k,
    ensures
        exists|b: int| 0 <= b < k && #[trigger] last_index(k, b) == q,
{
    let m = k - 1;
    if q == m {
        assert(last_index(k, 0) == q);
    } else if k % 2 == 0 {
        if q == m - 1 {
            assert(last_index(k, 1) == q);
        } else if q == 0 {
            assert(last_index(k, m) == q);
        } else if q == 1 {
            assert(last_index(k, 2) == q);
        } else {
            assert(last_index(k, q + 1) == q);
        }
    } else {
        lemma_visit_order(m);
        let e = even_final_inverse(m, q);
        assert(0 <= e < m && even_final_index(m, e) == q);
        let b = 1 + visit_order(m, e);
        vstd::arithmetic::div_mod::lemma_small_mod((b - 1) as nat, k as nat);
        assert((visit_order(m, 0) + (b - 1)) % k == b - 1);
        assert(visit_order(m, visit_order(m, e)) == e);
        assert(last_index(k, b) == q);
    }
}

/// Two rearrangements of the same sequence rearrange each other.
proof fn lemma_rearranged_symmetric(x: Seq<u32>, y: Seq<u32>, s: Seq<u32>, k: int)
    requires
        rearranged(x, s, k),
        rearranged(y, s, k),
    ensures
        rearranged(x, y, k),
{
}

/// A rearrangement of the first `k` places that leaves place `k - 1` as it
/// was rearranges the first `k - 1` places.
proof fn lemma_rearranged_shrink(x: Seq<u32>, y: Seq<u32>, k: int)
    requires
        rearranged(x, y, k),
        k >= 1,
        x[k - 1] == y[k - 1],
    ensures
        rearranged(x, y, k - 1),
{
    broadcast use vstd::multiset::group_multiset_axioms;

    assert(x.take(k) =~= x.take(k - 1).push(x[k - 1]));
    assert(y.take(k) =~= y.take(k - 1).push(y[k - 1]));
    vstd::seq_lib::to_multiset_build(x.take(k - 1), x[k - 1]);
    vstd::seq_lib::to_multiset_build(y.take(k - 1), y[k - 1]);
    let mx = x.take(k - 1).to_multiset();
    let my = y.take(k - 1).to_multiset();
    assert forall|v: u32| mx.count(v) == my.count(v) by {
        assert(mx.insert(x[k - 1]).count(v) == my.insert(y[k - 1]).count(v));
    }
    assert(mx =~= my);
}

/// A run on `k` places reports every rearrangement of the first `k` places.
pub proof fn lemma_run_complete(k: nat, s: Seq<u32>, t: Seq<u32>)
    requires
        1 <= k <= s.len(),
        rearranged(t, s, k as int),
    ensures
        heap_run(k, s).0.contains(t),
    decreases k, 1int, 0int,
{
    lemma_run_outputs(k, s);
    if k == 1 {
        broadcast use vstd::seq_lib::group_to_multiset_ensures;

        let ts = t.take(1);
        let ss = s.take(1);
        assert(ts[0] == t[0]);
        assert(ts.contains(t[0]));
        assert(ss.to_multiset().count(t[0]) > 0);
        assert(ss.contains(t[0]));
        assert(t[0] == s[0]);
        assert(t =~= s);
        assert(heap_run(k, s).0[0] == t);
    } else {
        broadcast use vstd::seq_lib::group_to_multiset_ensures;

        let ts = t.take(k as int);
        let ss = s.take(k as int);
        assert(ts[k - 1] == t[k - 1]);
        assert(ts.contains(t[k - 1]));
        assert(ss.to_multiset().count(t[k - 1]) > 0);
        assert(ss.contains(t[k - 1]));
        let q = choose|q: int| 0 <= q < ss.len() && ss[q] == t[k - 1];
        lemma_last_index_onto(k as int, q);
        let b = choose|b: int| 0 <= b < k && #[trigger] last_index(k as int, b) == q;
        assert(0 <= b <= k - 1 && t[k - 1] == s[last_index(k as int, b)]);
        lemma_rounds_complete(k, s, t, k - 1);
    }
}

/// The first `j + 1` rounds of a run on `k` places report every
/// rearrangement whose element at place `k - 1` one of them brings there.
proof fn lemma_rounds_complete(k: nat, s: Seq<u32>, t: Seq<u32>, j: int)
    requires
        2 <= k <= s.len(),
        0 <= j <= k - 1,
        rearranged(t, s, k as int),
        exists|b: int| 0 <= b <= j && t[k - 1] == s[#[trigger] last_index(k as int, b)],
    ensures
        heap_rounds(k, s, j).0.contains(t),
    decreases k, 0int, j,
{
    let m = (k - 1) as nat;
    let b = choose|b: int| 0 <= b <= j && t[k - 1] == s[#[trigger] last_index(k as int, b)];
    if j == 0 {
        assert(b == 0);
        lemma_rearranged_shrink(t, s, k as int);
        lemma_run_complete(m, s, t);
    } else {
        lemma_rounds_outputs(k, s, j - 1);
        lemma_rounds_state(k, s, j - 1);
        let prev = heap_rounds(k, s, j - 1);
        let bb = heap_swap(k, prev.1, j - 1);
        if k % 2 == 0 {
            lemma_swap_rearranges(prev.1, j - 1, k - 1, k as int);
        } else {
            lemma_swap_rearranges(prev.1, 0, k - 1, k as int);
        }
        lemma_rearranged_trans(bb, prev.1, s, k as int);
        assert(bb[k - 1] == s[last_index(k as int, j)]);
        let outs = heap_rounds(k, s, j).0;
        assert(outs == prev.0 + heap_run(m, bb).0);
        if b == j {
            lemma_rearranged_symmetric(t, bb, s, k as int);
            lemma_rearranged_shrink(t, bb, k as int);
            lemma_run_complete(m, bb, t);
            let i = choose|i: int| 0 <= i < heap_run(m, bb).0.len() && heap_run(m, bb).0[i] == t;
            assert(outs[prev.0.len() + i] == t);
        } else {
            lemma_rounds_complete(k, s, t, j - 1);
            let i = choose|i: int| 0 <= i < prev.0.len() && prev.0[i] == t;
            assert(outs[i] == t);
        }
    }
}

} // verus!
