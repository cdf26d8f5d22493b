//! Counting over a cursor that advances by one and wraps round: how often
//! the cursor visits the positions of a given kind. The fairness of the
//! two round-robin policies rests on the facts proved here.

use vstd::arithmetic::div_mod::{
    lemma_add_mod_noop, lemma_mod_add_multiples_vanish, lemma_mod_twice, lemma_small_mod,
};
use vstd::prelude::*;

verus! {

/// One if `flag` holds, zero otherwise.
pub open spec fn one_if(flag: bool) -> nat {
    if flag {
        1
    } else {
        0
    }
}

/// How many of the numbers below `bound` meet `target`.
pub open spec fn count_below(bound: nat, target: spec_fn(nat) -> bool) -> nat
    decreases bound,
{
    if bound == 0 {
        0
    } else {
        count_below((bound - 1) as nat, target) + one_if(target((bound - 1) as nat))
    }
}

/// How many of the `n` numbers from `start` on fall, reduced modulo
/// `modulus`, on a position that meets `target`.
pub open spec fn hits(start: nat, n: nat, modulus: nat, target: spec_fn(nat) -> bool) -> nat
    decreases n,
{
    if n == 0 {
        0
    } else {
        hits(start, (n - 1) as nat, modulus, target) + one_if(
            target(((start + n - 1) % modulus as int) as nat),
        )
    }
}

/// A run of numbers can be counted in two parts.
pub proof fn lemma_hits_split(
    start: nat,
    a: nat,
    b: nat,
    modulus: nat,
    target: spec_fn(nat) -> bool,
)
    ensures
        hits(start, a + b, modulus, target) == hits(start, a, modulus, target) + hits(
            start + a,
            b,
            modulus,
            target,
        ),
    decreases b,
{
    if b > 0 {
        lemma_hits_split(start, a, (b - 1) as nat, modulus, target);
        assert((a + b - 1) as nat == a + (b - 1) as nat);
        assert(start + (a + b) - 1 == (start + a) + b - 1);
    }
}

/// Below the modulus, reducing changes nothing.
pub proof fn lemma_hits_from_zero(n: nat, modulus: nat, target: spec_fn(nat) -> bool)
    requires
        n <= modulus,
    ensures
        hits(0, n, modulus, target) == count_below(n, target),
    decreases n,
{
    if n > 0 {
        lemma_hits_from_zero((n - 1) as nat, modulus, target);
        lemma_small_mod((n - 1) as nat, modulus);
    }
}

/// One full round counts the same wherever it starts.
pub proof fn lemma_hits_round(start: nat, modulus: nat, target: spec_fn(nat) -> bool)
    requires
        modulus > 0,
    ensures
        hits(start, modulus, modulus, target) == count_below(modulus, target),
    decreases start,
{
    if start == 0 {
        lemma_hits_from_zero(modulus, modulus, target);
    } else {
        let before = (start - 1) as nat;
        lemma_hits_round(before, modulus, target);
        // The round from `before` and the round from `start` share all but
        // their ends, and the ends fall on the same position.
        lemma_hits_split(before, 1, modulus, modulus, target);
        assert(hits(before, 1, modulus, target) == one_if(
            target(((before + 1 - 1) % modulus as int) as nat),
        )) by {
            assert(hits(before, 0, modulus, target) == 0);
        }
        assert(hits(before, modulus + 1, modulus, target) == hits(before, modulus, modulus, target)
            + one_if(target(((before + (modulus + 1) - 1) % modulus as int) as nat))) by {
            assert(((modulus + 1) - 1) as nat == modulus);
        }
        lemma_mod_add_multiples_vanish(before as int, modulus as int);
        assert((before + (modulus + 1) - 1) % modulus as int == (before + 1 - 1) % modulus as int)
            by {
            assert(before + (modulus + 1) - 1 == modulus + before);
            assert(before + 1 - 1 == before);
        }
        assert(1 + modulus == modulus + 1);
        assert(before + 1 == start);
    }
}

/// `rounds` full rounds count `rounds` times what one round counts.
pub proof fn lemma_hits_rounds(
    start: nat,
    rounds: nat,
    modulus: nat,
    target: spec_fn(nat) -> bool,
)
    requires
        modulus > 0,
    ensures
        hits(start, rounds * modulus, modulus, target) == rounds * count_below(modulus, target),
    decreases rounds,
{
    if rounds == 0 {
        assert(rounds * modulus == 0) by (nonlinear_arith)
            requires
                rounds == 0,
        ;
        assert(rounds * count_below(modulus, target) == 0) by (nonlinear_arith)
            requires
                rounds == 0,
        ;
    } else {
        let fewer = (rounds - 1) as nat;
        lemma_hits_rounds(start, fewer, modulus, target);
        lemma_hits_split(start, fewer * modulus, modulus, modulus, target);
        lemma_hits_round(start + fewer * modulus, modulus, target);
        assert(fewer * modulus + modulus == rounds * modulus) by (nonlinear_arith)
            requires
                fewer + 1 == rounds,
        ;
        let unit = count_below(modulus, target);
        assert(fewer * unit + unit == rounds * unit) by (nonlinear_arith)
            requires
                fewer + 1 == rounds,
        ;
    }
}

/// Over a run of `width` numbers from `from` on that all do, or all do
/// not, meet `target`, the count grows by `width` or not at all.
pub proof fn lemma_count_block(from: nat, width: nat, target: spec_fn(nat) -> bool, all: bool)
    requires
        forall|v: nat| from <= v < from + width ==> #[trigger] target(v) == all,
    ensures
        count_below(from + width, target) == count_below(from, target) + if all {
            width
        } else {
            0
        },
    decreases width,
{
    if width > 0 {
        lemma_count_block(from, (width - 1) as nat, target, all);
        assert((from + width - 1) as nat == from + (width - 1) as nat);
        assert(target((from + width - 1) as nat) == all);
    }
}

/// Advancing a wrapped cursor by one gives the same position as advancing
/// the unwrapped count.
pub proof fn lemma_advance(cursor: nat, steps: nat, modulus: nat)
    requires
        modulus > 0,
    ensures
        (((cursor + steps) % modulus) + 1) % modulus == (cursor + steps + 1) % modulus,
{
    let m = modulus as int;
    let c = (cursor + steps) as int;
    lemma_add_mod_noop(c, 1, m);
    lemma_mod_twice(c, m);
    lemma_add_mod_noop(c % m, 1, m);
}

} // verus!
