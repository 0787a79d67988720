//! The coin puzzle: five coins, each worth a number, go into the slots of
//! `_ + _ * _^2 + _^3 - _ = 399`. The solver tries every order of the coins.
use vstd::prelude::*;
use crate::heap::{
    counter_rest, counters_ok, factorial, heap_run, heap_swap, lemma_counter_run,
    lemma_factorial_positive, lemma_run_complete, lemma_run_outputs, rearranged, swap,
};

verus! {

/// The elements of each vector of a list.
pub open spec fn vec_views(v: Seq<Vec<u32>>) -> Seq<Seq<u32>> {
    v.map_values(|x: Vec<u32>| x@)
}

/// A copy of a vector.
fn copy_vec(v: &[u32]) -> (r: Vec<u32>)
    ensures
        r@ == v@,
{
    let mut r: Vec<u32> = Vec::new();
    let mut i: usize = 0;
    while i < v.len()
        invariant
            i <= v@.len(),
            r@ == v@.subrange(0, i as int),
        decreases v@.len() - i,
    {
        r.push(v[i]);
        i = i + 1;
        assert(r@ =~= v@.subrange(0, i as int));
    }
    assert(r@ =~= v@);
    r
}

/// Exchanges two elements.
fn swap_elements(a: &mut Vec<u32>, i: usize, j: usize)
    requires
        i < old(a)@.len(),
        j < old(a)@.len(),
    ensures
        final(a)@ == swap(old(a)@, i as int, j as int),
{
    let x = a[i];
    let y = a[j];
    a.set(i, y);
    a.set(j, x);
}

/// The orders of `input` that Heap's algorithm visits, the input itself
/// first: `n!` of them for `n` elements, each holding the same elements as
/// the input, every order of the input among them, and no two alike when
/// the input has no repeated element.
pub fn generate_permutations(input: &[u32]) -> (res: Vec<Vec<u32>>)
    ensures
        vec_views(res@) == heap_run(input@.len(), input@).0,
        res@.len() == factorial(input@.len()),
        res@[0]@ == input@,
        forall|k: int|
            0 <= k < res@.len() ==> (#[trigger] res@[k])@.to_multiset() =~= input@.to_multiset(),
        forall|t: Seq<u32>|
            #[trigger] t.to_multiset() =~= input@.to_multiset() ==> exists|k: int|
                0 <= k < res@.len() && (#[trigger] res@[k])@ == t,
        input@.no_duplicates() ==> forall|i: int, j: int|
            0 <= i < j < res@.len() ==> (#[trigger] res@[i])@ != (#[trigger] res@[j])@,
{
    let n = input.len();
    let mut mem: Vec<usize> = Vec::new();
    while mem.len() < n
        invariant
            mem@.len() <= n,
            forall|j: int| 0 <= j < mem@.len() ==> mem@[j] == 0,
        decreases n - mem@.len(),
    {
        mem.push(0);
    }
    let mut res: Vec<Vec<u32>> = Vec::new();
    res.push(copy_vec(input));
    let mut manipulated = copy_vec(input);
    let mut i: usize = 0;
    proof {
        lemma_counter_run(input@, mem@, n as int, n as int);
        if n >= 1 {
            lemma_run_outputs(n as nat, input@);
            lemma_factorial_positive(n as nat);
        }
        let whole = heap_run(n as nat, input@).0;
        assert(vec_views(res@) + whole.drop_first() =~= whole);
    }
    while i < n
        invariant
            n == input@.len(),
            manipulated@.len() == n,
            i <= n,
            counters_ok(mem@, i as int, n as int),
            vec_views(res@) + counter_rest(manipulated@, mem@, i as int, n as int) == heap_run(
                n as nat,
                input@,
            ).0,
        decreases counter_rest(manipulated@, mem@, i as int, n as int).len(), n - i,
    {
        if mem[i] < i {
            let ghost c = mem@;
            let ghost a = manipulated@;
            if i % 2 == 0 {
                swap_elements(&mut manipulated, 0, i);
            } else {
                swap_elements(&mut manipulated, mem[i], i);
            }
            assert(manipulated@ == heap_swap((i + 1) as nat, a, c[i as int] as int));
            let ghost before = vec_views(res@);
            res.push(copy_vec(&manipulated));
            let next = mem[i] + 1;
            mem.set(i, next);
            proof {
                let run = heap_run(i as nat, manipulated@);
                lemma_counter_run(manipulated@, mem@, i as int, n as int);
                lemma_run_outputs(i as nat, manipulated@);
                lemma_factorial_positive(i as nat);
                assert(counter_rest(a, c, i as int, n as int) == run.0 + counter_rest(
                    run.1,
                    mem@,
                    i as int,
                    n as int,
                ));
                assert(vec_views(res@) =~= before.push(manipulated@));
                assert(run.0 =~= seq![manipulated@] + run.0.drop_first());
                assert(vec_views(res@) + counter_rest(manipulated@, mem@, 0, n as int) =~= before
                    + counter_rest(a, c, i as int, n as int));
            }
            i = 0;
        } else {
            let ghost c = mem@;
            mem.set(i, 0);
            assert(counter_rest(manipulated@, c, i as int, n as int) == counter_rest(
                manipulated@,
                mem@,
                i + 1,
                n as int,
            ));
            i = i + 1;
        }
    }
    proof {
        let outs = heap_run(n as nat, input@).0;
        assert(vec_views(res@) =~= outs);
        if n >= 1 {
            lemma_run_outputs(n as nat, input@);
            lemma_factorial_positive(n as nat);
        }
        assert(input@.take(n as int) =~= input@);
        assert forall|k: int| 0 <= k < res@.len() implies (#[trigger] res@[k])@.to_multiset()
            =~= input@.to_multiset() by {
            assert(res@[k]@ == outs[k]);
            if n >= 1 {
                assert(outs[k].take(n as int) =~= outs[k]);
            }
        }
        assert(res@[0]@ == outs[0]);
        assert forall|t: Seq<u32>| #[trigger] t.to_multiset() =~= input@.to_multiset() implies exists|
            k: int,
        | 0 <= k < res@.len() && (#[trigger] res@[k])@ == t by {
            broadcast use vstd::seq_lib::group_to_multiset_ensures;

            assert(t.to_multiset().len() == input@.to_multiset().len());
            assert(t.len() == n);
            if n == 0 {
                assert(t =~= input@);
                assert(res@[0]@ == t);
            } else {
                assert(t.take(n as int) =~= t);
                assert(rearranged(t, input@, n as int));
                lemma_run_complete(n as nat, input@, t);
                let i = choose|i: int| 0 <= i < outs.len() && outs[i] == t;
                assert(res@[i]@ == outs[i]);
            }
        }
        if input@.no_duplicates() {
            assert forall|i: int, j: int| 0 <= i < j < res@.len() implies (#[trigger] res@[i])@
                != (#[trigger] res@[j])@ by {
                assert(res@[i]@ == outs[i]);
                assert(res@[j]@ == outs[j]);
            }
        }
    }
    res
}

/// The left side of the coin equation for an order of coins:
/// `a + b * c^2 + d^3 - e`.
pub open spec fn equation_value(p: Seq<u32>) -> int {
    p[0] + p[1] * (p[2] * p[2]) + p[3] * (p[3] * p[3]) - p[4]
}

/// The equation can be evaluated in 32-bit unsigned arithmetic, in the order
/// the solver evaluates it, without overflow or a negative difference.
pub open spec fn equation_defined(p: Seq<u32>) -> bool {
    &&& p.len() >= 5
    &&& p[2] * p[2] <= u32::MAX
    &&& p[1] * (p[2] * p[2]) <= u32::MAX
    &&& p[0] + p[1] * (p[2] * p[2]) <= u32::MAX
    &&& p[3] * p[3] <= u32::MAX
    &&& p[3] * (p[3] * p[3]) <= u32::MAX
    &&& p[0] + p[1] * (p[2] * p[2]) + p[3] * (p[3] * p[3]) <= u32::MAX
    &&& p[0] + p[1] * (p[2] * p[2]) + p[3] * (p[3] * p[3]) >= p[4]
}

/// Whether the first five coins of an order solve the equation `= 399`.
pub fn solves_equation(perm: &[u32]) -> (r: bool)
    requires
        equation_defined(perm@),
    ensures
        r == (equation_value(perm@) == 399),
{
    let c2 = perm[2] * perm[2];
    let d2 = perm[3] * perm[3];
    let d3 = perm[3] * d2;
    perm[0] + perm[1] * c2 + d3 - perm[4] == 399
}

/// Whether `solves_equation` can evaluate the equation for this order.
pub fn equation_is_defined(perm: &[u32]) -> (r: bool)
    ensures
        r == equation_defined(perm@),
{
    if perm.len() < 5 {
        return false;
    }
    let c2 = match perm[2].checked_mul(perm[2]) {
        Some(v) => v,
        None => return false,
    };
    let t = match perm[1].checked_mul(c2) {
        Some(v) => v,
        None => return false,
    };
    let u = match perm[0].checked_add(t) {
        Some(v) => v,
        None => return false,
    };
    let d2 = match perm[3].checked_mul(perm[3]) {
        Some(v) => v,
        None => return false,
    };
    let d3 = match perm[3].checked_mul(d2) {
        Some(v) => v,
        None => return false,
    };
    let w = match u.checked_add(d3) {
        Some(v) => v,
        None => return false,
    };
    w >= perm[4]
}

/// The orders among `orders` whose coins solve the equation, in the order
/// they come.
pub open spec fn coin_solutions(orders: Seq<Seq<u32>>) -> Seq<Seq<u32>> {
    orders.filter(|p: Seq<u32>| equation_value(p) == 399)
}

/// Tries every order of the coins that `generate_permutations` visits and
/// keeps those that solve the equation. The flag is `true` exactly when every
/// order can be evaluated; otherwise the solver stops at the first order that
/// cannot, and the list holds the solutions among the orders before it.
pub fn solve_coins(coins: &[u32]) -> (res: (Vec<Vec<u32>>, bool))
    ensures
        ({
            let orders = heap_run(coins@.len(), coins@).0;
            &&& res.1 <==> forall|k: int|
                0 <= k < orders.len() ==> equation_defined(#[trigger] orders[k])
            &&& res.1 ==> vec_views(res.0@) == coin_solutions(orders)
            &&& !res.1 ==> exists|k: int|
                0 <= k < orders.len() && !equation_defined(#[trigger] orders[k]) && (forall|j: int|
                    0 <= j < k ==> equation_defined(#[trigger] orders[j])) && vec_views(res.0@)
                    == coin_solutions(orders.take(k))
        }),
{
    let perms = generate_permutations(coins);
    let ghost orders = vec_views(perms@);
    let mut res: Vec<Vec<u32>> = Vec::new();
    let mut i: usize = 0;
    while i < perms.len()
        invariant
            i <= perms@.len(),
            orders == vec_views(perms@),
            orders == heap_run(coins@.len(), coins@).0,
            orders.len() == perms@.len(),
            forall|j: int| 0 <= j < i ==> equation_defined(#[trigger] orders[j]),
            vec_views(res@) == coin_solutions(orders.take(i as int)),
        decreases perms@.len() - i,
    {
        let order = perms[i].as_slice();
        assert(order@ == orders[i as int]);
        if !equation_is_defined(order) {
            assert(!equation_defined(orders[i as int]));
            return (res, false);
        }
        assert(orders.take(i + 1) =~= orders.take(i as int).push(orders[i as int]));
        proof {
            orders.take(i as int).lemma_filter_push(
                orders[i as int],
                |p: Seq<u32>| equation_value(p) == 399,
            );
        }
        if solves_equation(order) {
            let ghost before = res@;
            res.push(copy_vec(order));
            assert(vec_views(res@) =~= vec_views(before).push(orders[i as int]));
        }
        i = i + 1;
    }
    assert(orders.take(perms@.len() as int) =~= orders);
    (res, true)
}

/// The name of the coin worth a number.
pub open spec fn coin_name(num: u32) -> Seq<char> {
    if num == 2 {
        "red coin"@
    } else if num == 3 {
        "corroded coin"@
    } else if num == 5 {
        "shiny coin"@
    } else if num == 7 {
        "concave coin"@
    } else if num == 9 {
        "blue coin"@
    } else {
        "unknown coin"@
    }
}

/// The name of the coin worth `num`.
pub fn number_to_coin(num: u32) -> (s: String)
    ensures
        s@ == coin_name(num),
{
    match num {
        2 => "red coin".to_owned(),
        3 => "corroded coin".to_owned(),
        5 => "shiny coin".to_owned(),
        7 => "concave coin".to_owned(),
        9 => "blue coin".to_owned(),
        _ => "unknown coin".to_owned(),
    }
}

} // verus!
