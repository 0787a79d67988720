//! The test the challenge program makes of register 7: an Ackermann-like
//! function on machine words, evaluated with a memo table.
use vstd::prelude::*;
use std::collections::HashMap;
use crate::u15::U15;

verus! {

broadcast use {
    U15::lemma_spec_new_view,
    U15::lemma_view_injective,
    U15::lemma_inv_range,
    vstd::std_specs::hash::group_hash_axioms,
    vstd::map_lib::lemma_submap_of_trans,
};

/// The function the register test computes, with `r7` the value of register 7:
/// `f(0, b) = b + 1`, `f(a, 0) = f(a - 1, r7)` and
/// `f(a, b) = f(a - 1, f(a, b - 1))`, all results taken modulo 32768.
pub open spec fn ack_spec(a: nat, b: nat, r7: nat) -> nat
    decreases a, b,
{
    if a == 0 {
        (b + 1) % 32768
    } else if b == 0 {
        ack_spec((a - 1) as nat, r7, r7)
    } else {
        ack_spec((a - 1) as nat, ack_spec(a, (b - 1) as nat, r7), r7)
    }
}

/// The key under which the result for the arguments `(a, b)` is memoized.
pub open spec fn memo_key(a: nat, b: nat) -> nat {
    a * 32768 + b
}

/// Every entry of the memo table holds the value of the function, for the
/// given register 7, at the arguments its key encodes.
pub open spec fn memo_consistent(m: Map<u32, U15>, r7: nat) -> bool {
    forall|k: u32|
        #[trigger] m.contains_key(k) ==> k < 32768 * 32768 && m[k]@ == ack_spec(
            k as nat / 32768,
            k as nat % 32768,
            r7,
        )
}

/// Storing the function's value under its key keeps the table consistent
/// and keeps every entry it had.
proof fn lemma_memo_insert(m: Map<u32, U15>, r7: nat, k: u32, v: U15)
    requires
        memo_consistent(m, r7),
        k < 32768 * 32768,
        v@ == ack_spec(k as nat / 32768, k as nat % 32768, r7),
    ensures
        memo_consistent(m.insert(k, v), r7),
        m.submap_of(m.insert(k, v)),
{
    if m.contains_key(k) {
        assert(m[k]@ == v@);
        assert(m[k] == U15::spec_new(m[k]@));
        assert(v == U15::spec_new(v@));
    }
}

/// The memo key of two words.
fn key_of(a: U15, b: U15) -> (k: u32)
    ensures
        k == memo_key(a@ as nat, b@ as nat),
        k < 32768 * 32768,
        k as nat / 32768 == a@ as nat,
        k as nat % 32768 == b@ as nat,
{
    let (x, y) = (a.to_u16() as u32, b.to_u16() as u32);
    let k = x * 32768 + y;
    assert(k / 32768 == x && k % 32768 == y) by (nonlinear_arith)
        requires
            k == x * 32768 + y,
            y < 32768,
    ;
    k
}

/// What the memoized evaluation of `(a, b)` returns and leaves in the memo
/// table `m`: a stored result is returned as it is; `f(0, b)` is computed
/// without storing anything; otherwise every recursive result is stored
/// under its key as soon as it is known.
pub open spec fn ack_run(m: Map<u32, U15>, a: nat, b: nat, r7: nat) -> (U15, Map<u32, U15>)
    decreases a, b,
{
    let key = memo_key(a, b) as u32;
    if m.contains_key(key) {
        (m[key], m)
    } else if a == 0 {
        (U15::spec_new(((b + 1) % 32768) as u16), m)
    } else if b == 0 {
        let run = ack_run(m, (a - 1) as nat, r7, r7);
        (run.0, run.1.insert(memo_key((a - 1) as nat, r7) as u32, run.0))
    } else {
        let first = ack_run(m, a, (b - 1) as nat, r7);
        let m1 = first.1.insert(memo_key(a, (b - 1) as nat) as u32, first.0);
        let second = ack_run(m1, (a - 1) as nat, first.0@ as nat, r7);
        (second.0, second.1.insert(memo_key((a - 1) as nat, first.0@ as nat) as u32, second.0))
    }
}

/// The key of two word values fits in a `u32` and gives them back.
proof fn lemma_key(a: nat, b: nat)
    requires
        a < 32768,
        b < 32768,
    ensures
        (memo_key(a, b) as u32) as nat == memo_key(a, b),
        memo_key(a, b) < 32768 * 32768,
        memo_key(a, b) / 32768 == a,
        memo_key(a, b) % 32768 == b,
{
    vstd::arithmetic::div_mod::lemma_fundamental_div_mod_converse(
        memo_key(a, b) as int,
        32768,
        a as int,
        b as int,
    );
}

/// The function's values are words.
proof fn lemma_ack_spec_range(a: nat, b: nat, r7: nat)
    ensures
        ack_spec(a, b, r7) < 32768,
    decreases a, b,
{
    if a > 0 {
        if b == 0 {
            lemma_ack_spec_range((a - 1) as nat, r7, r7);
        } else {
            lemma_ack_spec_range((a - 1) as nat, ack_spec(a, (b - 1) as nat, r7), r7);
        }
    }
}

/// Started on a memo table whose entries all hold the function's values, the
/// memoized evaluation returns the function's value, leaves the table
/// consistent and keeps every entry it had.
pub proof fn law_memo_agrees(m: Map<u32, U15>, a: nat, b: nat, r7: nat)
    requires
        memo_consistent(m, r7),
        a < 32768,
        b < 32768,
        r7 < 32768,
    ensures
        ack_run(m, a, b, r7).0@ == ack_spec(a, b, r7),
        memo_consistent(ack_run(m, a, b, r7).1, r7),
        m.submap_of(ack_run(m, a, b, r7).1),
    decreases a, b,
{
    lemma_key(a, b);
    let key = memo_key(a, b) as u32;
    if m.contains_key(key) {
    } else if a == 0 {
    } else if b == 0 {
        let prev = (a - 1) as nat;
        law_memo_agrees(m, prev, r7, r7);
        lemma_key(prev, r7);
        let run = ack_run(m, prev, r7, r7);
        lemma_memo_insert(run.1, r7, memo_key(prev, r7) as u32, run.0);
    } else {
        let prev = (a - 1) as nat;
        law_memo_agrees(m, a, (b - 1) as nat, r7);
        lemma_key(a, (b - 1) as nat);
        let first = ack_run(m, a, (b - 1) as nat, r7);
        lemma_memo_insert(first.1, r7, memo_key(a, (b - 1) as nat) as u32, first.0);
        let m1 = first.1.insert(memo_key(a, (b - 1) as nat) as u32, first.0);
        lemma_ack_spec_range(a, (b - 1) as nat, r7);
        law_memo_agrees(m1, prev, first.0@ as nat, r7);
        lemma_key(prev, first.0@ as nat);
        let second = ack_run(m1, prev, first.0@ as nat, r7);
        lemma_memo_insert(
            second.1,
            r7,
            memo_key(prev, first.0@ as nat) as u32,
            second.0,
        );
    }
}

/// Evaluates the register test for `(a, b)` with register 7 holding `r7`,
/// using and filling the memo table. Whatever the table holds, the call
/// returns and changes it as `ack_run` says; on a table that holds only
/// values of the function, the result is the function's value.
pub fn ack(a: U15, b: U15, r7: U15, memory: &mut HashMap<u32, U15>) -> (r: U15)
    ensures
        (r, final(memory)@) == ack_run(old(memory)@, a@ as nat, b@ as nat, r7@ as nat),
        memo_consistent(old(memory)@, r7@ as nat) ==> {
            &&& r@ == ack_spec(a@ as nat, b@ as nat, r7@ as nat)
            &&& memo_consistent(final(memory)@, r7@ as nat)
            &&& old(memory)@.submap_of(final(memory)@)
        },
    decreases a@, b@,
{
    proof {
        use_type_invariant(&a);
        use_type_invariant(&b);
        use_type_invariant(&r7);
        if memo_consistent(memory@, r7@ as nat) {
            law_memo_agrees(memory@, a@ as nat, b@ as nat, r7@ as nat);
        }
    }
    let key = key_of(a, b);
    if let Some(mem) = memory.get(&key) {
        return *mem;
    }
    if a == U15::new(0) {
        return b + 1u16;
    }
    if b == U15::new(0) {
        let prev = a + 32767u16;
        let res = ack(prev, r7, r7, memory);
        let k1 = key_of(prev, r7);
        memory.insert(k1, res);
        return res;
    }
    let prev_b = b + 32767u16;
    let res1 = ack(a, prev_b, r7, memory);
    let k1 = key_of(a, prev_b);
    memory.insert(k1, res1);
    let prev_a = a + 32767u16;
    let res2 = ack(prev_a, res1, r7, memory);
    let k2 = key_of(prev_a, res1);
    memory.insert(k2, res2);
    res2
}

/// The value register 7 takes in the trial numbered `i` (from 0) of the
/// search: 1, 2, ..., 32767 and, last, 0.
pub open spec fn trial_register(i: int) -> nat {
    ((i + 1) % 32768) as nat
}

/// Searches for the value of register 7 for which the register test on
/// `(a, b)` gives `target`, trying 1, 2, ... in turn with a fresh memo table
/// for each trial. Returns the failed trials, each with the value tried and
/// the result it gave, and the value found; `None` once every value was
/// tried without success.
pub fn search_register_7(a: U15, b: U15, target: U15) -> (res: (Vec<(U15, U15)>, Option<U15>))
    ensures
        res.0.len() <= 32768,
        forall|i: int|
            0 <= i < res.0.len() ==> {
                &&& (#[trigger] res.0[i]).0@ == trial_register(i)
                &&& res.0[i].1@ == ack_spec(a@ as nat, b@ as nat, res.0[i].0@ as nat)
                &&& res.0[i].1@ != target@
            },
        match res.1 {
            Some(x) => {
                &&& res.0.len() < 32768
                &&& x@ == trial_register(res.0.len() as int)
                &&& ack_spec(a@ as nat, b@ as nat, x@ as nat) == target@
            },
            None => res.0.len() == 32768,
        },
        res.1 matches Some(x) ==> forall|y: nat|
            1 <= y < x@ ==> ack_spec(a@ as nat, b@ as nat, y) != target@,
        res.1 is None ==> forall|y: nat|
            y < 32768 ==> ack_spec(a@ as nat, b@ as nat, y) != target@,
{
    let mut trials: Vec<(U15, U15)> = Vec::new();
    let mut n: u16 = 0;
    while n < 32768
        invariant
            n as int == trials.len(),
            n <= 32768,
            forall|i: int|
                0 <= i < trials.len() ==> {
                    &&& (#[trigger] trials[i]).0@ == trial_register(i)
                    &&& trials[i].1@ == ack_spec(a@ as nat, b@ as nat, trials[i].0@ as nat)
                    &&& trials[i].1@ != target@
                },
        decreases 32768 - n,
    {
        let r7 = if n == 32767 {
            U15::new(0)
        } else {
            U15::new(n + 1)
        };
        let mut memory: HashMap<u32, U15> = HashMap::new();
        let result = ack(a, b, r7, &mut memory);
        if result == target {
            proof {
                assert forall|y: nat| 1 <= y < r7@ implies ack_spec(a@ as nat, b@ as nat, y)
                    != target@ by {
                    assert(trials[y - 1].0@ == y);
                }
            }
            return (trials, Some(r7));
        }
        trials.push((r7, result));
        n = n + 1;
    }
    proof {
        assert forall|y: nat| y < 32768 implies ack_spec(a@ as nat, b@ as nat, y) != target@ by {
            if y == 0 {
                assert(trials[32767].0@ == 0);
            } else {
                assert(trials[y - 1].0@ == y);
            }
        }
    }
    (trials, None)
}

/// With `a = 1` the function adds: `f(1, b) = r7 + b + 1`, modulo 32768.
pub proof fn law_ack_first_row(b: nat, r7: nat)
    ensures
        ack_spec(1, b, r7) == (r7 + b + 1) % 32768,
    decreases b,
{
    if b > 0 {
        law_ack_first_row((b - 1) as nat, r7);
        let prev = ack_spec(1, (b - 1) as nat, r7);
        assert(ack_spec(1, b, r7) == ack_spec(0, prev, r7));
        assert(ack_spec(0, prev, r7) == (prev + 1) % 32768);
        vstd::arithmetic::div_mod::lemma_add_mod_noop((r7 + b) as int, 1, 32768);
    } else {
        assert(ack_spec(1, 0, r7) == ack_spec(0, r7, r7));
    }
}

} // verus!
